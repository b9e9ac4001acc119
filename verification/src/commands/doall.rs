//! `mdev doall`: the text logic of running one shell command in every
//! subfolder of a directory.
use vstd::prelude::*;
use crate::paths::{join_path, path_join, paths_sorted, sort_paths, string_views};
use crate::runner::{DirEntry, Runner};
use crate::session::{extends, lemma_since_prefix, since, Call, Session};
use crate::text::{cat, chars_of, decimal, decimal_text, string_of};

verus! {

/// Options of `mdev doall`.
#[derive(Debug, Clone)]
pub struct DoallArgs {
    /// Parent directory whose immediate subfolders receive the command.
    pub dir: String,
    /// Include hidden subdirectories (names starting with '.').
    pub hidden: bool,
    /// Command and arguments to run in each subfolder.
    pub command: Vec<String>,
}

/// What the command did in one folder.
#[derive(Debug, Clone)]
pub struct DirResult {
    pub name: String,
    pub exit_code: i32,
    pub stdout: String,
    pub stderr: String,
}

/// Characters a shell word may hold without quoting.
pub open spec fn shell_safe(c: char) -> bool {
    ('a' <= c && c <= 'z') || ('A' <= c && c <= 'Z') || ('0' <= c && c <= '9') || c == '-' || c == '_'
        || c == '.' || c == '/' || c == ':' || c == '@' || c == '%' || c == '+' || c == '=' || c == ','
}

/// `s` with each `'` written as `'\''` (close, escaped quote, reopen).
pub open spec fn escape_quotes(s: Seq<char>) -> Seq<char>
    decreases s.len(),
{
    if s.len() == 0 {
        s
    } else {
        let prev = escape_quotes(s.drop_last());
        if s.last() == '\'' { prev + seq!['\'', '\\', '\'', '\''] } else { prev.push(s.last()) }
    }
}

/// A shell word for `s`: `''` when empty, `s` itself when every character is
/// safe, else `s` in single quotes.
pub open spec fn shell_quote_spec(s: Seq<char>) -> Seq<char> {
    if s.len() == 0 {
        seq!['\'', '\'']
    } else if forall|i: int| 0 <= i < s.len() ==> shell_safe(#[trigger] s[i]) {
        s
    } else {
        seq!['\''] + escape_quotes(s) + seq!['\'']
    }
}

/// Quotes `s` for a POSIX shell; see `shell_quote_spec`.
pub fn shell_quote(s: &str) -> (r: String)
    ensures
        r@ == shell_quote_spec(s@),
{
    let v = chars_of(s);
    if v.len() == 0 {
        let e = vec!['\'', '\''];
        assert(e@ =~= seq!['\'', '\'']);
        return string_of(e.as_slice());
    }
    let mut safe = true;
    let mut i: usize = 0;
    while i < v.len()
        invariant
            i <= v@.len(),
            safe == forall|k: int| 0 <= k < i ==> shell_safe(#[trigger] v@[k]),
        decreases v.len() - i,
    {
        let c = v[i];
        let ok = ('a' <= c && c <= 'z') || ('A' <= c && c <= 'Z') || ('0' <= c && c <= '9') || c == '-' || c == '_'
            || c == '.' || c == '/' || c == ':' || c == '@' || c == '%' || c == '+' || c == '=' || c == ',';
        if !ok {
            safe = false;
        }
        i = i + 1;
    }
    if safe {
        return s.to_owned();
    }
    let mut out: Vec<char> = Vec::new();
    out.push('\'');
    let mut j: usize = 0;
    while j < v.len()
        invariant
            j <= v@.len(),
            out@ == seq!['\''] + escape_quotes(v@.take(j as int)),
        decreases v.len() - j,
    {
        assert(v@.take(j + 1).drop_last() =~= v@.take(j as int));
        if v[j] == '\'' {
            out.push('\'');
            out.push('\\');
            out.push('\'');
            out.push('\'');
        } else {
            out.push(v[j]);
        }
        assert(out@ =~= seq!['\''] + escape_quotes(v@.take(j + 1)));
        j = j + 1;
    }
    assert(v@.take(v@.len() as int) =~= v@);
    out.push('\'');
    string_of(out.as_slice())
}

/// `parts` joined with `sep`.
pub open spec fn join_seqs(parts: Seq<Seq<char>>, sep: Seq<char>) -> Seq<char>
    decreases parts.len(),
{
    if parts.len() == 0 {
        Seq::empty()
    } else if parts.len() == 1 {
        parts[0]
    } else {
        join_seqs(parts.drop_last(), sep) + sep + parts.last()
    }
}

/// Appends `sep` (when `out` already holds pieces) and `piece`.
fn push_joined(out: &mut Vec<char>, first: bool, sep: &str, piece: &str)
    ensures
        final(out)@ == if first { old(out)@ + piece@ } else { old(out)@ + sep@ + piece@ },
{
    if !first {
        let mut s = chars_of(sep);
        out.append(&mut s);
    }
    let mut p = chars_of(piece);
    out.append(&mut p);
}

/// Join argv into a shell-safe command string.
pub fn join_shell_command(args: &[String]) -> (r: String)
    ensures
        r@ == join_seqs(args@.map_values(|a: String| shell_quote_spec(a@)), seq![' ']),
{
    let ghost q = args@.map_values(|a: String| shell_quote_spec(a@));
    let mut out: Vec<char> = Vec::new();
    let mut i: usize = 0;
    while i < args.len()
        invariant
            i <= args@.len(),
            q == args@.map_values(|a: String| shell_quote_spec(a@)),
            out@ == join_seqs(q.take(i as int), seq![' ']),
        decreases args.len() - i,
    {
        assert(q.take(i + 1).drop_last() =~= q.take(i as int));
        let w = shell_quote(args[i].as_str());
        push_joined(&mut out, i == 0, " ", w.as_str());
        proof {
            reveal_strlit(" ");
            if i == 0 {
                assert(out@ =~= q.take(1)[0]);
            } else {
                assert(out@ =~= join_seqs(q.take(i as int), seq![' ']) + seq![' '] + q[i as int]);
            }
        }
        i = i + 1;
    }
    assert(q.take(args@.len() as int) =~= q);
    string_of(out.as_slice())
}

/// At most `max` of `names`, comma separated, the rest as `+N`.
pub open spec fn truncated_names(names: Seq<Seq<char>>, max: nat) -> Seq<char> {
    if names.len() <= max {
        join_seqs(names, seq![',', ' '])
    } else {
        join_seqs(names.take(max as int), seq![',', ' ']) + seq![',', ' ', '+'] + decimal((names.len() - max) as nat)
    }
}

/// The views of strings.
pub open spec fn views(v: Seq<String>) -> Seq<Seq<char>> {
    v.map_values(|s: String| s@)
}

/// Show up to `max` names (in the given order); remainder as "+N".
pub fn truncate_names(names: &[String], max: usize) -> (r: String)
    ensures
        r@ == truncated_names(views(names@), max as nat),
{
    let ghost nv = views(names@);
    let n = names.len();
    let shown = if n <= max { n } else { max };
    let mut out: Vec<char> = Vec::new();
    let mut i: usize = 0;
    while i < shown
        invariant
            shown <= n == names@.len(),
            i <= shown,
            nv == views(names@),
            out@ == join_seqs(nv.take(i as int), seq![',', ' ']),
        decreases shown - i,
    {
        assert(nv.take(i + 1).drop_last() =~= nv.take(i as int));
        push_joined(&mut out, i == 0, ", ", names[i].as_str());
        proof {
            reveal_strlit(", ");
            if i == 0 {
                assert(out@ =~= nv.take(1)[0]);
            } else {
                assert(out@ =~= join_seqs(nv.take(i as int), seq![',', ' ']) + seq![',', ' '] + nv[i as int]);
            }
        }
        i = i + 1;
    }
    if n <= max {
        assert(nv.take(n as int) =~= nv);
        return string_of(out.as_slice());
    }
    let rest = decimal_text((n - max) as u64);
    out.push(',');
    out.push(' ');
    out.push('+');
    let mut r = chars_of(rest.as_str());
    out.append(&mut r);
    string_of(out.as_slice())
}

/// The progress message: how many folders are done, and which still run.
pub open spec fn running_msg(done: nat, total: nat, running: Seq<Seq<char>>) -> Seq<char> {
    if running.len() == 0 {
        decimal(done) + seq!['/'] + decimal(total) + " complete"@
    } else {
        decimal(done) + seq!['/'] + decimal(total) + " · running: "@ + truncated_names(running, 4)
    }
}

/// The progress message; see `running_msg`.
pub fn format_running_msg(done: usize, total: usize, running: &[String]) -> (r: String)
    ensures
        r@ == running_msg(done as nat, total as nat, views(running@)),
{
    let d = decimal_text(done as u64);
    let t = decimal_text(total as u64);
    if running.len() == 0 {
        let r = cat(&[d.as_str(), "/", t.as_str(), " complete"]);
        proof {
            reveal_with_fuel(crate::text::concat_views, 5);
            reveal_strlit("/");
        }
        assert(r@ =~= running_msg(done as nat, total as nat, views(running@)));
        return r;
    }
    let list = truncate_names(running, 4);
    let r = cat(&[d.as_str(), "/", t.as_str(), " · running: ", list.as_str()]);
    proof {
        reveal_with_fuel(crate::text::concat_views, 6);
        reveal_strlit("/");
    }
    assert(r@ =~= running_msg(done as nat, total as nat, views(running@)));
    r
}

/// Whether a subfolder named `name` receives the command: hidden ones only
/// when asked for.
pub fn visible_subdir(name: &str, include_hidden: bool) -> (b: bool)
    ensures
        b == (include_hidden || !(name@.len() > 0 && name@[0] == '.')),
{
    let v = chars_of(name);
    include_hidden || !(v.len() > 0 && v[0] == '.')
}

/// `p` is `parent` joined with a name that receives the command (hidden
/// names only when `include_hidden`).
pub open spec fn visible_child(parent: Seq<char>, p: Seq<char>, include_hidden: bool) -> bool {
    exists|name: Seq<char>| (include_hidden || !(name.len() > 0 && name[0] == '.')) && p == #[trigger] path_join(parent, name)
}

/// Whether the entry name `name` receives the command.
pub open spec fn visible_name(name: Seq<char>, include_hidden: bool) -> bool {
    include_hidden || !(name.len() > 0 && name[0] == '.')
}

/// The entries `es` of `parent` looked at, recorded as exactly `t`, picked
/// `picked` in order: each visible entry is asked whether it is a directory
/// (symlinks followed), and those that are make the picks.
pub open spec fn subdir_probes(parent: Seq<char>, include_hidden: bool, es: Seq<DirEntry>, t: Seq<Call>, picked: Seq<Seq<char>>) -> bool
    decreases es.len(),
{
    if es.len() == 0 {
        t.len() == 0 && picked.len() == 0
    } else {
        let path = path_join(parent, es[0].name@);
        if !visible_name(es[0].name@, include_hidden) {
            subdir_probes(parent, include_hidden, es.drop_first(), t, picked)
        } else {
            &&& t.len() >= 1
            &&& t[0] == (Call::IsDir { path, reply: t[0]->IsDir_reply })
            &&& if t[0]->IsDir_reply {
                picked.len() >= 1 && picked[0] == path && subdir_probes(parent, include_hidden, es.drop_first(), t.skip(1), picked.drop_first())
            } else {
                subdir_probes(parent, include_hidden, es.drop_first(), t.skip(1), picked)
            }
        }
    }
}

/// What `list_subdirs` asked (`t`) and found (`r`): the entries of `parent`
/// (none when it cannot be listed); then the probes of `subdir_probes`, whose
/// picks, in path order, are the result.
pub open spec fn subdirs_trace(parent: Seq<char>, include_hidden: bool, t: Seq<Call>, r: Option<Seq<Seq<char>>>) -> bool {
    &&& t.len() >= 1
    &&& t[0] is DirEntries
    &&& t[0]->DirEntries_path == parent
    &&& match t[0]->DirEntries_reply {
        None => t.len() == 1 && r is None,
        Some(es) => r is Some && subdirs_found(parent, include_hidden, es, t.skip(1), r->0),
    }
}

/// The probes `t` of the entries `es` picked the paths that, in path order,
/// are `rs`.
pub open spec fn subdirs_found(parent: Seq<char>, include_hidden: bool, es: Seq<DirEntry>, t: Seq<Call>, rs: Seq<Seq<char>>) -> bool {
    exists|picked: Seq<Seq<char>>|
        #[trigger] subdir_probes(parent, include_hidden, es, t, picked) && paths_sorted(rs) && rs.to_multiset() == picked.to_multiset()
}

/// The probes of `entries[i..]`, with the picks appended to `dirs`; see
/// `subdir_probes`.
fn probe_entries<R: Runner>(runner: &mut Session<R>, parent: &str, entries: &Vec<DirEntry>, i: usize, include_hidden: bool, dirs: &mut Vec<String>)
    requires
        i <= entries@.len(),
    ensures
        extends(old(runner).calls(), final(runner).calls()),
        final(dirs)@.len() >= old(dirs)@.len(),
        string_views(final(dirs)@).take(old(dirs)@.len() as int) == string_views(old(dirs)@),
        subdir_probes(parent@, include_hidden, entries@.skip(i as int), since(old(runner).calls(), final(runner).calls()),
            string_views(final(dirs)@).skip(old(dirs)@.len() as int)),
    decreases entries@.len() - i,
{
    let ghost d0 = string_views(dirs@);
    if i == entries.len() {
        assert(entries@.skip(i as int) =~= Seq::<DirEntry>::empty());
        assert(string_views(dirs@).skip(d0.len() as int) =~= Seq::<Seq<char>>::empty());
        assert(string_views(dirs@).take(d0.len() as int) =~= d0);
        return;
    }
    proof {
        assert(entries@.skip(i as int)[0] == entries@[i as int]);
        assert(entries@.skip(i as int).drop_first() =~= entries@.skip(i + 1));
    }
    let ghost start = runner.calls();
    let name = entries[i].name.as_str();
    if !visible_subdir(name, include_hidden) {
        probe_entries(runner, parent, entries, i + 1, include_hidden, dirs);
        return;
    }
    let path = join_path(parent, name);
    let is_dir = runner.is_dir(path.as_str());
    let ghost mid = runner.calls();
    let ghost d1 = string_views(dirs@);
    proof { assert(since(start, mid)[0] == mid.last()); }
    if is_dir {
        dirs.push(path);
        proof {
            assert(string_views(dirs@) =~= d1.push(path@));
        }
    }
    let ghost d2 = string_views(dirs@);
    probe_entries(runner, parent, entries, i + 1, include_hidden, dirs);
    proof {
        let d3 = string_views(dirs@);
        lemma_since_prefix(start, mid, runner.calls());
        assert(since(start, runner.calls())[0] == since(start, mid)[0]);
        assert(since(start, runner.calls()).skip(1) =~= since(mid, runner.calls()));
        assert(d3.take(d2.len() as int) == d2);
        assert(d3.take(d0.len() as int) =~= d0) by {
            assert forall|k: int| 0 <= k < d0.len() implies d3[k] == d0[k] by {
                assert(d3[k] == d3.take(d2.len() as int)[k]);
                assert(d2[k] == d0[k]);
            }
        }
        let all = d3.skip(d0.len() as int);
        if is_dir {
            assert(all[0] == d3[d0.len() as int]);
            assert(d3[d0.len() as int] == d3.take(d2.len() as int)[d0.len() as int]);
            assert(all[0] == path@);
            assert(all.drop_first() =~= d3.skip(d2.len() as int));
        } else {
            assert(all =~= d3.skip(d2.len() as int));
        }
    }
}

/// The subfolders of `parent` that receive the command, in path order:
/// directories (symlinks followed), hidden ones only when `include_hidden`;
/// `None` when `parent` cannot be listed.
pub fn list_subdirs<R: Runner>(runner: &mut Session<R>, parent: &str, include_hidden: bool) -> (r: Option<Vec<String>>)
    ensures
        extends(old(runner).calls(), final(runner).calls()),
        r is Some ==> paths_sorted(string_views(r->0@)),
        subdirs_trace(parent@, include_hidden, since(old(runner).calls(), final(runner).calls()), opt_paths(r)),
{
    let ghost start = runner.calls();
    let listing = runner.dir_entries(parent);
    let ghost listed = runner.calls();
    proof { assert(since(start, listed)[0] == listed.last()); }
    let entries = match listing {
        Some(e) => e,
        None => return None,
    };
    let mut dirs: Vec<String> = Vec::new();
    probe_entries(runner, parent, &entries, 0, include_hidden, &mut dirs);
    let ghost picked = string_views(dirs@);
    proof {
        assert(entries@.skip(0) =~= entries@);
        assert(string_views(dirs@).skip(0) =~= picked);
    }
    let sorted = sort_paths(dirs);
    proof {
        lemma_since_prefix(start, listed, runner.calls());
        let t = since(start, runner.calls());
        assert(t[0] == since(start, listed)[0]);
        assert(t.skip(1) =~= since(listed, runner.calls()));
        assert(subdir_probes(parent@, include_hidden, entries@, t.skip(1), picked));
        assert(t[0]->DirEntries_reply == Some(entries@));
        assert(string_views(sorted@).to_multiset() == picked.to_multiset());
        assert(subdirs_found(parent@, include_hidden, entries@, t.skip(1), string_views(sorted@)));
    }
    Some(sorted)
}

/// The views of an optional list of paths.
pub open spec fn opt_paths(r: Option<Vec<String>>) -> Option<Seq<Seq<char>>> {
    match r {
        Some(v) => Some(string_views(v@)),
        None => None,
    }
}

/// The line reported when a folder finishes.
pub fn format_result_line(result: &DirResult) -> (r: String)
    ensures
        result.exit_code == 0 ==> r@ == "OK "@ + result.name@,
        result.exit_code != 0 ==> r@ == "FAIL "@ + result.name@ + " (exit "@ + signed_decimal(result.exit_code as int)
            + ")"@,
{
    if result.exit_code == 0 {
        let r = crate::text::concat("OK ", result.name.as_str());
        r
    } else {
        let code = if result.exit_code < 0 {
            crate::text::concat("-", decimal_text((0i64 - result.exit_code as i64) as u64).as_str())
        } else {
            decimal_text(result.exit_code as u64)
        };
        let a = crate::text::concat("FAIL ", result.name.as_str());
        let b = crate::text::concat(a.as_str(), " (exit ");
        let c = crate::text::concat(b.as_str(), code.as_str());
        crate::text::concat(c.as_str(), ")")
    }
}

/// An integer in decimal, with `-` before a negative one.
pub open spec fn signed_decimal(n: int) -> Seq<char> {
    if n < 0 {
        "-"@ + decimal((-n) as nat)
    } else {
        decimal(n as nat)
    }
}

/// The exit code of a run: 1 when some folder failed.
pub fn doall_exit(results: &[DirResult]) -> (code: i32)
    ensures
        code == (if exists|i: int| 0 <= i < results@.len() && (#[trigger] results@[i]).exit_code != 0 { 1i32 } else { 0i32 }),
{
    let mut i: usize = 0;
    while i < results.len()
        invariant
            i <= results@.len(),
            forall|k: int| 0 <= k < i ==> (#[trigger] results@[k]).exit_code == 0,
        decreases results.len() - i,
    {
        if results[i].exit_code != 0 {
            return 1;
        }
        i = i + 1;
    }
    0
}

/// Hidden folders (a name starting with `.`) receive the command only when
/// asked for; every other name always does.
pub proof fn lemma_visible_names(name: Seq<char>, include_hidden: bool)
    ensures
        include_hidden ==> visible_name(name, include_hidden),
        name.len() > 0 && name[0] == '.' && !include_hidden ==> !visible_name(name, include_hidden),
        !(name.len() > 0 && name[0] == '.') ==> visible_name(name, include_hidden),
{
}

/// Text without single quotes is left as it is by the quote escaping.
pub proof fn lemma_escape_without_quotes(s: Seq<char>)
    requires
        forall|i: int| 0 <= i < s.len() ==> s[i] != '\'',
    ensures
        escape_quotes(s) == s,
    decreases s.len(),
{
    if s.len() > 0 {
        assert forall|i: int| 0 <= i < s.drop_last().len() implies s.drop_last()[i] != '\'' by {
            assert(s.drop_last()[i] == s[i]);
        }
        lemma_escape_without_quotes(s.drop_last());
        assert(s.drop_last().push(s.last()) =~= s);
    }
}

/// Quoting for the shell: an empty word becomes `''`; a word of safe
/// characters only is passed as it is; any other word is wrapped in single
/// quotes, and when it holds no single quote its text stands unchanged
/// between them.
pub proof fn lemma_shell_quote(s: Seq<char>)
    ensures
        s.len() == 0 ==> shell_quote_spec(s) == seq!['\'', '\''],
        s.len() > 0 && (forall|i: int| 0 <= i < s.len() ==> shell_safe(#[trigger] s[i])) ==> shell_quote_spec(s) == s,
        s.len() > 0 && (exists|i: int| 0 <= i < s.len() && !shell_safe(#[trigger] s[i])) ==> {
            let q = shell_quote_spec(s);
            q.len() >= 2 && q[0] == '\'' && q.last() == '\''
        },
        (exists|i: int| 0 <= i < s.len() && !shell_safe(#[trigger] s[i])) && (forall|i: int| 0 <= i < s.len() ==> s[i] != '\'')
            ==> shell_quote_spec(s) == seq!['\''] + s + seq!['\''],
{
    if forall|i: int| 0 <= i < s.len() ==> s[i] != '\'' {
        lemma_escape_without_quotes(s);
    }
}

} // verus!
