//! Linked git worktrees of a project: which `git worktree list` reports as
//! removable, which folders look like worktrees, and removing them through git.
use vstd::prelude::*;
use crate::commands::purge::common::is_heavy_or_owned_dir;
use crate::commands::purge::PurgeArgs;
use crate::paths::{join_path, path_components, paths_sorted, sort_paths, string_views};
use crate::runner::{Level, Runner};
use crate::session::{changes_disk, extends, is_run, quiet, reads_only, reply_of, since, strs_view, Call, Session};
use crate::runner::RunResult;
use crate::text::{
    cat, chars_eq, chars_of, decimal_text, ends_with, ends_with_chars, lines, lines_of, starts_with,
    starts_with_chars, str_eq, string_of, trim, trim_chars,
};

verus! {

/// Max walk depth from project root (root = 0). Bounds monorepo scans.
pub const MAX_DEPTH: usize = 4;

/// A worktree entry parsed from `git worktree list --porcelain`. The first
/// entry git prints is always the repository's main working tree; every later
/// entry is a linked worktree.
#[derive(Debug, Clone, PartialEq)]
pub struct Worktree {
    pub path: String,
    pub is_main: bool,
    pub locked: bool,
    pub bare: bool,
}

/// A worktree as plain values: path, main, locked, bare.
pub type WorktreeView = (Seq<char>, bool, bool, bool);

impl View for Worktree {
    type V = WorktreeView;

    open spec fn view(&self) -> WorktreeView {
        (self.path@, self.is_main, self.locked, self.bare)
    }
}

/// The views of worktrees.
pub open spec fn worktree_views(v: Seq<Worktree>) -> Seq<WorktreeView> {
    v.map_values(|w: Worktree| w@)
}

/// One porcelain line: `worktree <path>` starts an entry (the first one is the
/// main tree); `locked` (with or without a reason) and `bare` mark the latest.
pub open spec fn porcelain_step(out: Seq<WorktreeView>, line: Seq<char>) -> Seq<WorktreeView> {
    if starts_with(line, "worktree "@) {
        out.push((trim(line.skip(9)), out.len() == 0, false, false))
    } else if (line == "locked"@ || starts_with(line, "locked "@)) && out.len() > 0 {
        out.update(out.len() - 1, (out.last().0, out.last().1, true, out.last().3))
    } else if line == "bare"@ && out.len() > 0 {
        out.update(out.len() - 1, (out.last().0, out.last().1, out.last().2, true))
    } else {
        out
    }
}

/// The entries the porcelain lines `ls` describe.
pub open spec fn porcelain_entries(ls: Seq<Seq<char>>) -> Seq<WorktreeView>
    decreases ls.len(),
{
    if ls.len() == 0 {
        Seq::empty()
    } else {
        porcelain_step(porcelain_entries(ls.drop_last()), ls.last())
    }
}

/// A `worktree <path>` line opens a new entry for the trimmed path, which is
/// the main tree exactly when it is the first entry, and is neither locked
/// nor bare until a later line says so; the entries before it are kept.
pub proof fn lemma_porcelain_worktree_line(ls: Seq<Seq<char>>)
    requires
        ls.len() > 0,
        starts_with(ls.last(), "worktree "@),
    ensures
        ({
            let before = porcelain_entries(ls.drop_last());
            porcelain_entries(ls) == before.push((trim(ls.last().skip(9)), before.len() == 0, false, false))
        }),
{
    reveal_strlit("worktree ");
}

/// A `locked` line, bare or followed by a reason, marks the latest entry as
/// locked and changes nothing else.
pub proof fn lemma_porcelain_locked_line(ls: Seq<Seq<char>>)
    requires
        ls.len() > 0,
        ls.last() == "locked"@ || starts_with(ls.last(), "locked "@),
        porcelain_entries(ls.drop_last()).len() > 0,
    ensures
        ({
            let before = porcelain_entries(ls.drop_last());
            let after = porcelain_entries(ls);
            &&& after.len() == before.len()
            &&& after.last() == (before.last().0, before.last().1, true, before.last().3)
            &&& forall|k: int| 0 <= k < after.len() - 1 ==> after[k] == before[k]
        }),
{
    reveal_strlit("worktree ");
    reveal_strlit("locked");
    reveal_strlit("locked ");
    let line = ls.last();
    if starts_with(line, "worktree "@) {
        assert(line[0] == "worktree "@[0]);
        if line == "locked"@ {
            assert(line[0] == 'l');
        } else {
            assert(line.take(7)[0] == "locked "@[0]);
        }
    }
}

/// A `bare` line marks the latest entry as bare and changes nothing else.
pub proof fn lemma_porcelain_bare_line(ls: Seq<Seq<char>>)
    requires
        ls.len() > 0,
        ls.last() == "bare"@,
        porcelain_entries(ls.drop_last()).len() > 0,
    ensures
        ({
            let before = porcelain_entries(ls.drop_last());
            let after = porcelain_entries(ls);
            &&& after.len() == before.len()
            &&& after.last() == (before.last().0, before.last().1, before.last().2, true)
            &&& forall|k: int| 0 <= k < after.len() - 1 ==> after[k] == before[k]
        }),
{
    reveal_strlit("worktree ");
    reveal_strlit("locked");
    reveal_strlit("locked ");
    reveal_strlit("bare");
    let line = ls.last();
    assert(line[0] == 'b');
    if starts_with(line, "worktree "@) {
        assert(line.take(9)[0] == line[0]);
    }
    if starts_with(line, "locked "@) {
        assert(line.take(7)[0] == line[0]);
    }
}

/// Only the first entry is the main tree, and once an entry is locked or
/// bare, no later line clears it: its path and flags stay to the end.
pub proof fn lemma_porcelain_flags_persist(ls: Seq<Seq<char>>, n: int)
    requires
        0 <= n <= ls.len(),
    ensures
        porcelain_entries(ls.take(n)).len() <= porcelain_entries(ls).len(),
        forall|k: int| 0 <= k < porcelain_entries(ls).len() ==> (#[trigger] porcelain_entries(ls)[k]).1 == (k == 0),
        forall|k: int| 0 <= k < porcelain_entries(ls.take(n)).len() ==> {
            let e = #[trigger] porcelain_entries(ls.take(n))[k];
            let f = porcelain_entries(ls)[k];
            &&& f.0 == e.0
            &&& (e.2 ==> f.2)
            &&& (e.3 ==> f.3)
        },
    decreases ls.len(),
{
    if ls.len() == 0 {
        assert(ls.take(n) =~= ls);
    } else if n == ls.len() {
        assert(ls.take(n) =~= ls);
        lemma_porcelain_flags_persist(ls.drop_last(), n - 1);
    } else {
        lemma_porcelain_flags_persist(ls.drop_last(), n);
        assert(ls.drop_last().take(n) =~= ls.take(n));
    }
}

/// The removable entries are exactly the linked, unlocked, non-bare ones: no
/// entry that is the main tree, locked or bare is ever offered for removal,
/// and every other entry is, in the order listed.
pub proof fn lemma_removable_exactly(ws: Seq<WorktreeView>)
    ensures
        forall|k: int| 0 <= k < removable_entries(ws).len() ==> {
            let w = #[trigger] removable_entries(ws)[k];
            !w.1 && !w.2 && !w.3 && ws.contains(w)
        },
        forall|k: int| 0 <= k < ws.len() && !(#[trigger] ws[k]).1 && !ws[k].2 && !ws[k].3 ==> removable_entries(ws).contains(ws[k]),
    decreases ws.len(),
{
    if ws.len() > 0 {
        let prev = ws.drop_last();
        lemma_removable_exactly(prev);
        let r = removable_entries(ws);
        assert forall|k: int| 0 <= k < r.len() implies {
            let w = #[trigger] r[k];
            !w.1 && !w.2 && !w.3 && ws.contains(w)
        } by {
            if k < removable_entries(prev).len() {
                let w = removable_entries(prev)[k];
                let j = choose|j: int| 0 <= j < prev.len() && prev[j] == w;
                assert(ws[j] == w);
            } else {
                assert(ws[ws.len() - 1] == ws.last());
            }
        }
        assert forall|k: int| 0 <= k < ws.len() && !(#[trigger] ws[k]).1 && !ws[k].2 && !ws[k].3 implies r.contains(ws[k]) by {
            if k < ws.len() - 1 {
                assert(prev[k] == ws[k]);
                let rp = removable_entries(prev);
                let j = choose|j: int| 0 <= j < rp.len() && rp[j] == ws[k];
                if is_removable(ws.last()) {
                    assert(r[j] == rp[j]);
                }
            } else {
                assert(r[r.len() - 1] == ws.last());
            }
        }
    }
}

/// Parse `git worktree list --porcelain`; see `porcelain_entries`.
pub fn parse_worktrees(porcelain: &str) -> (r: Vec<Worktree>)
    ensures
        worktree_views(r@) == porcelain_entries(lines(porcelain@)),
{
    let v = chars_of(porcelain);
    let ls = lines_of(v.as_slice());
    let ghost lv = ls.deep_view();
    let wt = chars_of("worktree ");
    let locked = chars_of("locked");
    let locked_sp = chars_of("locked ");
    let bare = chars_of("bare");
    let mut out: Vec<Worktree> = Vec::new();
    let mut i: usize = 0;
    while i < ls.len()
        invariant
            i <= ls@.len(),
            lv == ls.deep_view(),
            lv == lines(porcelain@),
            wt@ == "worktree "@,
            locked@ == "locked"@,
            locked_sp@ == "locked "@,
            bare@ == "bare"@,
            worktree_views(out@) == porcelain_entries(lv.take(i as int)),
        decreases ls.len() - i,
    {
        assert(lv.take(i + 1).drop_last() =~= lv.take(i as int));
        assert(lv[i as int] == ls@[i as int]@);
        let line = &ls[i];
        let ghost before = worktree_views(out@);
        if starts_with_chars(line.as_slice(), wt.as_slice()) {
            proof {
                reveal_strlit("worktree ");
            }
            let n = line.len();
            let rest = crate::text::slice_of(line.as_slice(), 9, n);
            assert(rest@ =~= line@.skip(9));
            let p = trim_chars(rest.as_slice());
            let is_main = out.len() == 0;
            out.push(Worktree { path: string_of(p.as_slice()), is_main, locked: false, bare: false });
            assert(worktree_views(out@) =~= before.push((p@, is_main, false, false)));
        } else if (chars_eq(line.as_slice(), locked.as_slice()) || starts_with_chars(line.as_slice(), locked_sp.as_slice())) && out.len() > 0 {
            let last = out.len() - 1;
            let mut w = out[last].clone_worktree();
            w.locked = true;
            out.set(last, w);
            assert(worktree_views(out@) =~= before.update(before.len() - 1, (before.last().0, before.last().1, true, before.last().3)));
        } else if chars_eq(line.as_slice(), bare.as_slice()) && out.len() > 0 {
            let last = out.len() - 1;
            let mut w = out[last].clone_worktree();
            w.bare = true;
            out.set(last, w);
            assert(worktree_views(out@) =~= before.update(before.len() - 1, (before.last().0, before.last().1, before.last().2, true)));
        }
        i = i + 1;
    }
    assert(lv.take(ls@.len() as int) =~= lv);
    out
}

impl Worktree {
    /// A copy of this entry.
    pub fn clone_worktree(&self) -> (r: Self)
        ensures
            r@ == self@,
    {
        Worktree { path: self.path.clone(), is_main: self.is_main, locked: self.locked, bare: self.bare }
    }
}

/// A linked worktree that may be removed: not the main tree, not locked, not bare.
pub open spec fn is_removable(w: WorktreeView) -> bool {
    !w.1 && !w.2 && !w.3
}

/// The removable entries of `ws`, in order.
pub open spec fn removable_entries(ws: Seq<WorktreeView>) -> Seq<WorktreeView>
    decreases ws.len(),
{
    if ws.len() == 0 {
        Seq::empty()
    } else {
        let prev = removable_entries(ws.drop_last());
        if is_removable(ws.last()) { prev.push(ws.last()) } else { prev }
    }
}

/// Linked worktrees eligible for removal: not the main tree, not locked, not bare.
pub fn removable(worktrees: &[Worktree]) -> (r: Vec<&Worktree>)
    ensures
        r@.map_values(|w: &Worktree| w@) == removable_entries(worktree_views(worktrees@)),
{
    let ghost wv = worktree_views(worktrees@);
    let mut out: Vec<&Worktree> = Vec::new();
    let mut i: usize = 0;
    while i < worktrees.len()
        invariant
            i <= worktrees@.len(),
            wv == worktree_views(worktrees@),
            out@.map_values(|w: &Worktree| w@) == removable_entries(wv.take(i as int)),
        decreases worktrees.len() - i,
    {
        assert(wv.take(i + 1).drop_last() =~= wv.take(i as int));
        let w = &worktrees[i];
        assert(wv[i as int] == w@);
        if !w.is_main && !w.locked && !w.bare {
            let ghost before = out@.map_values(|w: &Worktree| w@);
            out.push(w);
            assert(out@.map_values(|w: &Worktree| w@) =~= before.push(w@));
        }
        i = i + 1;
    }
    assert(wv.take(worktrees@.len() as int) =~= wv);
    out
}

/// Basenames of worktree containers.
pub open spec fn worktree_dir_names() -> Seq<Seq<char>> {
    seq!["worktree"@, "worktrees"@, ".worktree"@, ".worktrees"@]
}

/// The usual worktree container names, plain or hidden, singular or plural, are recognised.
pub proof fn lemma_worktree_dir_names_cover(name: Seq<char>)
    requires
        name == "worktree"@ || name == "worktrees"@ || name == ".worktree"@ || name == ".worktrees"@,
    ensures
        worktree_dir_names().contains(name),
{
    let s = worktree_dir_names();
    assert(s[0] == "worktree"@ && s[1] == "worktrees"@ && s[2] == ".worktree"@ && s[3] == ".worktrees"@);
}

/// Basename matches a known worktree layout name.
pub open spec fn worktree_basename(name: Seq<char>) -> bool {
    worktree_dir_names().contains(name) || ends_with(name, "-worktree"@) || (ends_with(name, ".worktree"@)
        && name != ".worktree"@)
}

/// Folders look like worktrees when named after a worktree container
/// (`worktree`, `worktrees`, plain or hidden) or when their name ends in
/// `-worktree`, or in `.worktree` after some other text.
pub proof fn lemma_worktree_basenames(name: Seq<char>)
    ensures
        worktree_dir_names().contains(name) ==> worktree_basename(name),
        ends_with(name, "-worktree"@) ==> worktree_basename(name),
        ends_with(name, ".worktree"@) ==> worktree_basename(name),
        !worktree_dir_names().contains(name) && !ends_with(name, "-worktree"@) && !ends_with(name, ".worktree"@)
            ==> !worktree_basename(name),
{
    let s = worktree_dir_names();
    assert(s[2] == ".worktree"@);
}

/// Basename matches a known worktree layout name; see `worktree_basename`.
pub fn is_worktree_basename(name: &str) -> (b: bool)
    ensures
        b == worktree_basename(name@),
{
    let names = ["worktree", "worktrees", ".worktree", ".worktrees"];
    assert(names@.map_values(|s: &str| s@) =~= worktree_dir_names());
    if crate::commands::purge::common::name_in(&names, name) {
        return true;
    }
    let v = chars_of(name);
    let dash = chars_of("-worktree");
    let dot = chars_of(".worktree");
    ends_with_chars(v.as_slice(), dash.as_slice()) || (ends_with_chars(v.as_slice(), dot.as_slice())
        && !chars_eq(v.as_slice(), dot.as_slice()))
}

/// `p`'s components end with `suffix`'s (`Path::ends_with`).
pub open spec fn path_ends_with(p: Seq<char>, suffix: Seq<char>) -> bool {
    let a = path_components(p);
    let b = path_components(suffix);
    b.len() <= a.len() && a.skip(a.len() - b.len()) == b
}

/// Multi-worktree parent: children of these dirs are also candidates.
pub open spec fn multi_worktree_parent(name: Seq<char>, rel: Seq<char>) -> bool {
    worktree_dir_names().contains(name) || path_components(rel) == path_components(".agents/wt"@)
        || path_ends_with(rel, ".agents/wt"@)
}

/// Whether `suffix`'s components end `p`'s.
fn path_ends_with_exec(p: &str, suffix: &str) -> (b: bool)
    ensures
        b == path_ends_with(p@, suffix@),
{
    let a = crate::paths::components_of(p);
    let c = crate::paths::components_of(suffix);
    let ghost av = a.deep_view();
    let ghost cv = c.deep_view();
    if c.len() > a.len() {
        return false;
    }
    let alen = a.len();
    let off = alen - c.len();
    let mut i: usize = 0;
    while i < c.len()
        invariant
            off + c@.len() == a@.len(),
            alen == a@.len(),
            i <= c@.len(),
            av == a.deep_view(),
            cv == c.deep_view(),
            av == path_components(p@),
            cv == path_components(suffix@),
            forall|k: int| 0 <= k < i ==> av[off + k] == cv[k],
        decreases c.len() - i,
    {
        assert(av[off + i] == a@[off + i]@);
        assert(cv[i as int] == c@[i as int]@);
        if !chars_eq(a[off + i].as_slice(), c[i].as_slice()) {
            assert(av.skip(off as int)[i as int] != cv[i as int]);
            return false;
        }
        i = i + 1;
    }
    assert(av.skip(off as int) =~= cv);
    true
}

/// Multi-worktree parent; see `multi_worktree_parent`.
pub fn is_multi_worktree_parent(name: &str, rel: &str) -> (b: bool)
    ensures
        b == multi_worktree_parent(name@, rel@),
{
    let names = ["worktree", "worktrees", ".worktree", ".worktrees"];
    assert(names@.map_values(|s: &str| s@) =~= worktree_dir_names());
    if crate::commands::purge::common::name_in(&names, name) {
        return true;
    }
    let same = crate::paths::path_starts_with_exec(rel, ".agents/wt") && crate::paths::path_starts_with_exec(".agents/wt", rel);
    proof {
        let a = path_components(rel@);
        let b = path_components(".agents/wt"@);
        if a == b {
            assert(a.take(b.len() as int) =~= a);
        }
        if crate::paths::path_starts_with(rel@, ".agents/wt"@) && crate::paths::path_starts_with(".agents/wt"@, rel@) {
            assert(a =~= a.take(b.len() as int));
        }
    }
    same || path_ends_with_exec(rel, ".agents/wt")
}

/// The requests of `run` start with the lookup of `git`; when it is not on
/// `PATH` nothing else is asked (and nothing removed).
pub open spec fn looks_up_git_first(t: Seq<Call>) -> bool {
    &&& t.len() >= 1
    &&& t[0] matches Call::Which { exe, reply } && exe == "git"@
    &&& t[0] matches Call::Which { reply, .. } && (reply is None ==> t.len() == 1)
}

/// `git` was found on `PATH`.
pub open spec fn git_found(c: Call) -> bool {
    c matches Call::Which { reply, .. } && reply is Some
}

/// The arguments of `git -C <root> worktree list --porcelain`.
pub open spec fn worktree_list_args(root: Seq<char>) -> Seq<Seq<char>> {
    seq!["-C"@, root, "worktree"@, "list"@, "--porcelain"@]
}

/// The arguments of `git -C <root> worktree remove --force <path>`.
pub open spec fn worktree_remove_args(root: Seq<char>, path: Seq<char>) -> Seq<Seq<char>> {
    seq!["-C"@, root, "worktree"@, "remove"@, "--force"@, path]
}

/// A `git worktree remove --force` of some path in `root`.
pub open spec fn is_worktree_removal(c: Call, root: Seq<char>) -> bool {
    c matches Call::Run { exe, args, .. } && exe == "git"@ && args.len() == 6 && args[0] == "-C"@ && args[1] == root
        && args[2] == "worktree"@ && args[3] == "remove"@ && args[4] == "--force"@
}

/// The path a `git worktree remove` removes.
pub open spec fn removal_path(c: Call) -> Seq<char> {
    match c {
        Call::Run { args, .. } => args[5],
        _ => Seq::empty(),
    }
}

/// The worktrees a `git worktree list --porcelain` reply lists that may be
/// removed: not the main one, not locked, not bare.
pub open spec fn removable_listed(reply: RunResult) -> Seq<WorktreeView> {
    removable_entries(porcelain_entries(lines(reply.stdout@)))
}

/// `path` is the path of one of `ws`.
pub open spec fn may_remove(ws: Seq<WorktreeView>, path: Seq<char>) -> bool {
    exists|k: int| 0 <= k < ws.len() && (#[trigger] ws[k]).0 == path
}

/// A question the user answered yes.
pub open spec fn is_yes(c: Call) -> bool {
    c matches Call::Confirm { reply, .. } && reply
}

/// Every request of `t` that may change the disk comes after a question the
/// user answered yes.
pub open spec fn consented(t: Seq<Call>) -> bool {
    forall|i: int| 0 <= i < t.len() && #[trigger] changes_disk(t[i]) ==> exists|j: int| 0 <= j < i && is_yes(#[trigger] t[j])
}

/// Every `git worktree remove` in `t` removes one of `ws`.
pub open spec fn removals_listed(root: Seq<char>, ws: Seq<WorktreeView>, t: Seq<Call>) -> bool {
    forall|i: int| 0 <= i < t.len() && #[trigger] is_worktree_removal(t[i], root) ==> may_remove(ws, removal_path(t[i]))
}

/// What cleaning the worktrees of `root` asks (`t`): the lookup of `git`;
/// when found, `git worktree list --porcelain`; every removal is of a listed
/// removable worktree, and nothing changes on disk before the user agreed.
pub open spec fn worktree_trace(root: Seq<char>, t: Seq<Call>) -> bool {
    &&& looks_up_git_first(t)
    &&& consented(t)
    &&& (git_found(t[0]) ==> t.len() >= 2 && is_run(t[1], "git"@, worktree_list_args(root))
        && removals_listed(root, removable_listed(reply_of(t[1])), t))
}

/// More requests that change nothing keep consent and the removals.
proof fn lemma_wt_quiet(root: Seq<char>, ws: Seq<WorktreeView>, start: Seq<Call>, mid: Seq<Call>, end: Seq<Call>)
    requires
        extends(start, mid),
        extends(mid, end),
        quiet(mid, end),
        consented(since(start, mid)),
        removals_listed(root, ws, since(start, mid)),
    ensures
        consented(since(start, end)),
        removals_listed(root, ws, since(start, end)),
{
    let a = since(start, mid);
    let t = since(start, end);
    assert forall|i: int| 0 <= i < t.len() && #[trigger] changes_disk(t[i]) implies exists|j: int| 0 <= j < i && is_yes(#[trigger] t[j]) by {
        if i < a.len() {
            assert(t[i] == a[i]);
            let j = choose|j: int| 0 <= j < i && is_yes(#[trigger] a[j]);
            assert(t[j] == a[j]);
        } else {
            assert(t[i] == end[start.len() + i]);
        }
    }
    assert forall|i: int| 0 <= i < t.len() && #[trigger] is_worktree_removal(t[i], root) implies may_remove(ws, removal_path(t[i])) by {
        if i < a.len() {
            assert(t[i] == a[i]);
        } else {
            assert(t[i] == end[start.len() + i]);
            reveal_strlit("remove");
            reveal_strlit("list");
            reveal_strlit("git");
            reveal_strlit("go");
            assert("remove"@.len() == 6 && "list"@.len() == 4);
            assert("git"@.len() == 3 && "go"@.len() == 2);
            assert(changes_disk(t[i]));
        }
    }
}

/// More requests after an agreement, none of them an unlisted removal, keep
/// consent and the removals.
proof fn lemma_wt_agreed(root: Seq<char>, ws: Seq<WorktreeView>, start: Seq<Call>, mid: Seq<Call>, end: Seq<Call>, aj: int)
    requires
        extends(start, mid),
        extends(mid, end),
        0 <= aj < since(start, mid).len(),
        is_yes(since(start, mid)[aj]),
        consented(since(start, mid)),
        removals_listed(root, ws, since(start, mid)),
        forall|i: int| 0 <= i < since(mid, end).len() && #[trigger] is_worktree_removal(since(mid, end)[i], root)
            ==> may_remove(ws, removal_path(since(mid, end)[i])),
    ensures
        consented(since(start, end)),
        removals_listed(root, ws, since(start, end)),
        is_yes(since(start, end)[aj]),
{
    let a = since(start, mid);
    let t = since(start, end);
    let b = since(mid, end);
    assert(t[aj] == a[aj]);
    assert forall|i: int| 0 <= i < t.len() && #[trigger] changes_disk(t[i]) implies exists|j: int| 0 <= j < i && is_yes(#[trigger] t[j]) by {
        if i < a.len() {
            assert(t[i] == a[i]);
            let j = choose|j: int| 0 <= j < i && is_yes(#[trigger] a[j]);
            assert(t[j] == a[j]);
        } else {
            assert(is_yes(t[aj]));
        }
    }
    assert forall|i: int| 0 <= i < t.len() && #[trigger] is_worktree_removal(t[i], root) implies may_remove(ws, removal_path(t[i])) by {
        if i < a.len() {
            assert(t[i] == a[i]);
        } else {
            assert(t[i] == b[i - a.len()]);
        }
    }
}

/// Heavy / owned dirs — never descend.
pub fn is_skip_dir(name: &str) -> (b: bool)
    ensures
        b == crate::commands::purge::common::heavy_or_owned_names().contains(name@),
{
    is_heavy_or_owned_dir(name)
}

/// Appends `path` unless it is listed already.
fn push_unique(found: &mut Vec<String>, path: String)
    ensures
        string_views(old(found)@).contains(path@) ==> final(found)@ == old(found)@,
        !string_views(old(found)@).contains(path@) ==> string_views(final(found)@) == string_views(old(found)@).push(path@),
{
    let ghost fv = string_views(found@);
    let mut i: usize = 0;
    while i < found.len()
        invariant
            i <= found@.len(),
            fv == string_views(found@),
            found@ == old(found)@,
            forall|k: int| 0 <= k < i ==> fv[k] != path@,
        decreases found.len() - i,
    {
        assert(fv[i as int] == found@[i as int]@);
        if str_eq(found[i].as_str(), path.as_str()) {
            assert(fv.contains(path@));
            return;
        }
        i = i + 1;
    }
    proof {
        if fv.contains(path@) {
            let k = choose|k: int| 0 <= k < fv.len() && fv[k] == path@;
        }
    }
    found.push(path);
    assert(string_views(found@) =~= fv.push(path@));
}

/// `p` is `parent` joined with a child name that is not a heavy or owned
/// directory.
pub open spec fn kept_child_of(parent: Seq<char>, p: Seq<char>) -> bool {
    exists|n: Seq<char>|
        !crate::commands::purge::common::heavy_or_owned_names().contains(n) && p == #[trigger] crate::paths::path_join(parent, n)
}

/// Adds the subdirectories of `parent` (not symbolic links, not skipped) to
/// `found`.
fn push_multi_parent_children<R: Runner>(runner: &mut Session<R>, parent: &str, found: &mut Vec<String>)
    ensures
        reads_only(old(runner).calls(), final(runner).calls()),
        final(found)@.len() >= old(found)@.len(),
        string_views(final(found)@).subrange(0, old(found)@.len() as int) == string_views(old(found)@),
        forall|k: int| old(found)@.len() <= k < final(found)@.len() ==> kept_child_of(parent@, #[trigger] final(found)@[k]@),
{
    let entries = match runner.dir_entries(parent) {
        Some(e) => e,
        None => return,
    };
    let ghost start = found@;
    let mut i: usize = 0;
    while i < entries.len()
        invariant
            reads_only(old(runner).calls(), runner.calls()),
            found@.len() >= start.len(),
            string_views(found@).subrange(0, start.len() as int) == string_views(start),
            start == old(found)@,
            forall|k: int| start.len() <= k < found@.len() ==> kept_child_of(parent@, #[trigger] found@[k]@),
        decreases entries.len() - i,
    {
        let e = &entries[i];
        if !e.is_symlink && e.is_dir && !is_skip_dir(e.name.as_str()) {
            let p = join_path(parent, e.name.as_str());
            assert(kept_child_of(parent@, p@));
            let ghost before = found@;
            push_unique(found, p);
            proof {
                if string_views(before).contains(p@) {
                    assert(found@ == before);
                } else {
                    assert(string_views(found@) == string_views(before).push(p@));
                    assert(found@.len() == before.len() + 1);
                }
                assert forall|k: int| 0 <= k < before.len() implies found@[k]@ == before[k]@ by {
                    assert(string_views(found@)[k] == string_views(before)[k]);
                }
                assert(string_views(found@).subrange(0, start.len() as int) =~= string_views(start)) by {
                    assert forall|k: int| 0 <= k < start.len() implies string_views(found@)[k] == string_views(start)[k] by {
                        assert(string_views(before)[k] == string_views(start)[k]);
                        assert(found@[k]@ == before[k]@);
                    }
                }
                assert forall|k: int| start.len() <= k < found@.len() implies kept_child_of(parent@, #[trigger] found@[k]@) by {
                    if k < before.len() {
                        assert(found@[k]@ == before[k]@);
                    } else {
                        assert(string_views(found@)[k] == p@);
                    }
                }
            }
        }
        i = i + 1;
    }
}

/// Depth-bounded walk under `root` for convention worktree folders: folders
/// named like worktrees, and the children of worktree containers. Symbolic
/// links are never followed and heavy directories never entered. The result
/// is in path order, each folder once.
pub fn discover_worktree_folders<R: Runner>(runner: &mut Session<R>, root: &str) -> (r: Vec<String>)
    ensures
        reads_only(old(runner).calls(), final(runner).calls()),
        paths_sorted(string_views(r@)),
{
    let mut found: Vec<String> = Vec::new();
    let mut queue: Vec<(String, String, usize)> = Vec::new();
    queue.push((root.to_owned(), String::new(), 0));
    let mut budget: usize = 0;
    while queue.len() > 0
        invariant
            reads_only(old(runner).calls(), runner.calls()),
        decreases usize::MAX - budget,
    {
        if budget == usize::MAX {
            break;
        }
        budget = budget + 1;
        let (dir, rel, depth) = queue.pop().unwrap();
        if depth >= MAX_DEPTH {
            continue;
        }
        let entries = match runner.dir_entries(dir.as_str()) {
            Some(e) => e,
            None => continue,
        };
        let mut i: usize = 0;
        while i < entries.len()
            invariant
                reads_only(old(runner).calls(), runner.calls()),
                depth < MAX_DEPTH,
            decreases entries.len() - i,
        {
            let e = &entries[i];
            let name = e.name.as_str();
            if !e.is_symlink && e.is_dir && !is_skip_dir(name) {
                let path = join_path(dir.as_str(), name);
                let child_rel = join_path(rel.as_str(), name);
                if is_worktree_basename(name) {
                    push_unique(&mut found, path.clone());
                }
                if is_multi_worktree_parent(name, child_rel.as_str()) {
                    push_multi_parent_children(runner, path.as_str(), &mut found);
                }
                queue.push((path, child_rel, depth + 1));
            }
            i = i + 1;
        }
    }
    sort_paths(found)
}

/// What a worktree path is compared by: the path without trailing `/`.
pub open spec fn path_key(p: Seq<char>) -> Seq<char>
    decreases p.len(),
{
    if p.len() > 0 && p.last() == '/' { path_key(p.drop_last()) } else { p }
}

/// The key of a path; see `path_key`.
pub fn path_key_of(p: &str) -> (r: String)
    ensures
        r@ == path_key(p@),
{
    let mut v = chars_of(p);
    while v.len() > 0 && v[v.len() - 1] == '/'
        invariant
            path_key(v@) == path_key(p@),
        decreases v@.len(),
    {
        let ghost before = v@;
        v.pop();
        assert(v@ =~= before.drop_last());
    }
    string_of(v.as_slice())
}

/// Two paths name the same worktree.
pub fn paths_equal(a: &str, b: &str) -> (r: bool)
    ensures
        r == (path_key(a@) == path_key(b@)),
{
    let x = path_key_of(a);
    let y = path_key_of(b);
    str_eq(x.as_str(), y.as_str())
}

/// Keys seen so far while merging.
pub open spec fn keys_of(v: Seq<Seq<char>>) -> Seq<Seq<char>> {
    v.map_values(|p: Seq<char>| path_key(p))
}

/// The paths of `ps` whose key is not among `seen` nor earlier in `ps`.
pub open spec fn fresh_paths(seen: Seq<Seq<char>>, ps: Seq<Seq<char>>) -> Seq<Seq<char>>
    decreases ps.len(),
{
    if ps.len() == 0 {
        Seq::empty()
    } else {
        let prev = fresh_paths(seen, ps.drop_last());
        let p = ps.last();
        if keys_of(seen + prev).contains(path_key(p)) { prev } else { prev.push(p) }
    }
}

/// Appends to `out` the paths of `ps` whose key is new.
fn add_fresh(out: &mut Vec<String>, fresh: &mut Vec<String>, ps: &[String])
    ensures
        string_views(final(fresh)@) == string_views(old(fresh)@) + fresh_paths(string_views(old(out)@), string_views(ps@)),
        string_views(final(out)@) == string_views(old(out)@) + fresh_paths(string_views(old(out)@), string_views(ps@)),
{
    let ghost start = string_views(out@);
    let ghost fstart = string_views(fresh@);
    let ghost pv = string_views(ps@);
    let mut i: usize = 0;
    while i < ps.len()
        invariant
            i <= ps@.len(),
            pv == string_views(ps@),
            string_views(out@) == start + fresh_paths(start, pv.take(i as int)),
            string_views(fresh@) == fstart + fresh_paths(start, pv.take(i as int)),
        decreases ps.len() - i,
    {
        assert(pv.take(i + 1).drop_last() =~= pv.take(i as int));
        assert(pv[i as int] == ps@[i as int]@);
        let key = path_key_of(ps[i].as_str());
        let ghost ov = string_views(out@);
        let mut seen = false;
        let mut k: usize = 0;
        while k < out.len()
            invariant
                k <= out@.len(),
                ov == string_views(out@),
                seen == exists|m: int| 0 <= m < k && path_key(ov[m]) == key@,
            decreases out.len() - k,
        {
            assert(ov[k as int] == out@[k as int]@);
            let ok = path_key_of(out[k].as_str());
            if str_eq(ok.as_str(), key.as_str()) {
                seen = true;
            }
            k = k + 1;
        }
        proof {
            let ks = keys_of(ov);
            if seen {
                let m = choose|m: int| 0 <= m < ov.len() && path_key(ov[m]) == key@;
                assert(ks[m] == key@);
            } else {
                if ks.contains(key@) {
                    let m = choose|m: int| 0 <= m < ks.len() && ks[m] == key@;
                    assert(path_key(ov[m]) == key@);
                }
            }
            assert(ov == start + fresh_paths(start, pv.take(i as int)));
        }
        if !seen {
            let ghost b1 = string_views(out@);
            let ghost b2 = string_views(fresh@);
            out.push(ps[i].clone());
            fresh.push(ps[i].clone());
            assert(string_views(out@) =~= b1.push(pv[i as int]));
            assert(string_views(fresh@) =~= b2.push(pv[i as int]));
        }
        i = i + 1;
    }
    assert(pv.take(ps@.len() as int) =~= pv);
}

/// Union git removable paths with FS candidates (each key once, git first);
/// returns the union and the FS-only part, both in path order.
pub fn union_targets(git_targets: &[String], fs_candidates: &[String]) -> (r: (Vec<String>, Vec<String>))
    ensures
        paths_sorted(string_views(r.0@)),
        paths_sorted(string_views(r.1@)),
        string_views(r.0@).to_multiset() == (fresh_paths(Seq::empty(), string_views(git_targets@)) + fresh_paths(
            fresh_paths(Seq::empty(), string_views(git_targets@)),
            string_views(fs_candidates@),
        )).to_multiset(),
        string_views(r.1@).to_multiset() == fresh_paths(
            fresh_paths(Seq::empty(), string_views(git_targets@)),
            string_views(fs_candidates@),
        ).to_multiset(),
{
    let mut union: Vec<String> = Vec::new();
    let mut git_fresh: Vec<String> = Vec::new();
    assert(string_views(union@) =~= Seq::<Seq<char>>::empty());
    assert(string_views(git_fresh@) =~= Seq::<Seq<char>>::empty());
    add_fresh(&mut union, &mut git_fresh, git_targets);
    let ghost after_git = string_views(union@);
    assert(after_git =~= fresh_paths(Seq::empty(), string_views(git_targets@)));
    let mut fs_only: Vec<String> = Vec::new();
    assert(string_views(fs_only@) =~= Seq::<Seq<char>>::empty());
    add_fresh(&mut union, &mut fs_only, fs_candidates);
    assert(string_views(fs_only@) =~= fresh_paths(after_git, string_views(fs_candidates@)));
    (sort_paths(union), sort_paths(fs_only))
}

/// `p` lies strictly inside `q`, component by component.
pub open spec fn strictly_inside(p: Seq<char>, q: Seq<char>) -> bool {
    crate::paths::path_starts_with(p, q) && path_components(p) != path_components(q)
}

/// Index `i` of `ps` lies inside no other listed path.
pub open spec fn outermost_at(ps: Seq<Seq<char>>, i: int) -> bool {
    forall|j: int| 0 <= j < ps.len() ==> !strictly_inside(ps[i], #[trigger] ps[j])
}

/// The outermost paths among the first `n` of `ps`, in order.
pub open spec fn outermost_prefix(ps: Seq<Seq<char>>, n: int) -> Seq<Seq<char>>
    decreases n,
{
    if n <= 0 {
        Seq::empty()
    } else if outermost_at(ps, n - 1) {
        outermost_prefix(ps, n - 1).push(ps[n - 1])
    } else {
        outermost_prefix(ps, n - 1)
    }
}

/// `paths` without those that lie inside another listed path, so that one
/// deletion of a parent covers its nested worktrees.
pub fn collapse_nested(paths: &[String]) -> (r: Vec<String>)
    ensures
        string_views(r@) == outermost_prefix(string_views(paths@), paths@.len() as int),
{
    let ghost ps = string_views(paths@);
    let mut out: Vec<String> = Vec::new();
    let mut i: usize = 0;
    while i < paths.len()
        invariant
            i <= paths@.len(),
            ps == string_views(paths@),
            string_views(out@) == outermost_prefix(ps, i as int),
        decreases paths.len() - i,
    {
        let mut outer = true;
        let mut j: usize = 0;
        while j < paths.len()
            invariant
                i < paths@.len(),
                j <= paths@.len(),
                ps == string_views(paths@),
                outer == forall|k: int| 0 <= k < j ==> !strictly_inside(ps[i as int], #[trigger] ps[k]),
            decreases paths.len() - j,
        {
            assert(ps[i as int] == paths@[i as int]@ && ps[j as int] == paths@[j as int]@);
            let under = crate::paths::path_starts_with_exec(paths[i].as_str(), paths[j].as_str());
            let same = under && crate::paths::path_starts_with_exec(paths[j].as_str(), paths[i].as_str());
            proof {
                if under && !same {
                    lemma_components_differ(ps[i as int], ps[j as int]);
                }
                if same {
                    lemma_mutual_prefix_same(ps[i as int], ps[j as int]);
                }
            }
            if under && !same {
                outer = false;
            }
            j = j + 1;
        }
        assert(outer == outermost_at(ps, i as int));
        if outer {
            let ghost before = out@;
            out.push(paths[i].clone());
            assert(string_views(out@) =~= string_views(before).push(ps[i as int]));
            assert(outermost_prefix(ps, i + 1) == outermost_prefix(ps, i as int).push(ps[i as int]));
        } else {
            assert(outermost_prefix(ps, i + 1) == outermost_prefix(ps, i as int));
        }
        i = i + 1;
    }
    out
}

/// `x` is one of the first `n` paths of `ps` and lies inside no listed path.
pub open spec fn outer_member(ps: Seq<Seq<char>>, n: int, x: Seq<char>) -> bool {
    exists|k: int| 0 <= k < n && outermost_at(ps, k) && #[trigger] ps[k] == x
}

proof fn lemma_outermost_members(ps: Seq<Seq<char>>, n: int)
    requires
        0 <= n <= ps.len(),
    ensures
        forall|i: int| 0 <= i < outermost_prefix(ps, n).len() ==> outer_member(ps, n, #[trigger] outermost_prefix(ps, n)[i]),
    decreases n,
{
    if n > 0 {
        lemma_outermost_members(ps, n - 1);
        let prev = outermost_prefix(ps, n - 1);
        let cur = outermost_prefix(ps, n);
        assert forall|i: int| 0 <= i < cur.len() implies outer_member(ps, n, #[trigger] cur[i]) by {
            if i < prev.len() {
                assert(cur[i] == prev[i]);
                assert(outer_member(ps, n - 1, prev[i]));
                let k = choose|k: int| 0 <= k < n - 1 && outermost_at(ps, k) && #[trigger] ps[k] == prev[i];
                assert(0 <= k < n && outermost_at(ps, k) && ps[k] == cur[i]);
            } else {
                assert(outermost_at(ps, n - 1));
                assert(cur[i] == ps[n - 1]);
            }
        }
    }
}

/// After collapsing, no listed folder lies inside another listed folder: one
/// deletion per listed folder covers the nested worktrees, and none is
/// deleted twice.
pub proof fn lemma_collapsed_folders_are_disjoint(ps: Seq<Seq<char>>)
    ensures
        forall|a: int, b: int| 0 <= a < outermost_prefix(ps, ps.len() as int).len() && 0 <= b < outermost_prefix(
            ps,
            ps.len() as int,
        ).len() ==> !strictly_inside(
            #[trigger] outermost_prefix(ps, ps.len() as int)[a],
            #[trigger] outermost_prefix(ps, ps.len() as int)[b],
        ),
{
    let r = outermost_prefix(ps, ps.len() as int);
    lemma_outermost_members(ps, ps.len() as int);
    assert forall|a: int, b: int| 0 <= a < r.len() && 0 <= b < r.len() implies !strictly_inside(
        #[trigger] r[a],
        #[trigger] r[b],
    ) by {
        assert(outer_member(ps, ps.len() as int, r[a]));
        assert(outer_member(ps, ps.len() as int, r[b]));
        let ka = choose|k: int| 0 <= k < ps.len() && outermost_at(ps, k) && #[trigger] ps[k] == r[a];
        let kb = choose|k: int| 0 <= k < ps.len() && outermost_at(ps, k) && #[trigger] ps[k] == r[b];
        assert(!strictly_inside(ps[ka], ps[kb]));
    }
}

/// Main, locked and bare worktrees are never removal targets.
pub proof fn lemma_removable_skips_main_and_locked(ws: Seq<WorktreeView>)
    ensures
        forall|i: int| 0 <= i < removable_entries(ws).len() ==> {
            let w = #[trigger] removable_entries(ws)[i];
            !w.1 && !w.2 && !w.3
        },
    decreases ws.len(),
{
    if ws.len() > 0 {
        lemma_removable_skips_main_and_locked(ws.drop_last());
        let prev = removable_entries(ws.drop_last());
        let cur = removable_entries(ws);
        assert forall|i: int| 0 <= i < cur.len() implies {
            let w = #[trigger] cur[i];
            !w.1 && !w.2 && !w.3
        } by {
            if i < prev.len() {
                assert(cur[i] == prev[i]);
            }
        }
    }
}

/// Paths that do not start with each other have different components.
proof fn lemma_components_differ(p: Seq<char>, q: Seq<char>)
    requires
        crate::paths::path_starts_with(p, q),
        !crate::paths::path_starts_with(q, p),
    ensures
        path_components(p) != path_components(q),
{
    if path_components(p) == path_components(q) {
        assert(crate::paths::path_starts_with(q, p));
    }
}

/// Paths that start with each other have the same components.
proof fn lemma_mutual_prefix_same(p: Seq<char>, q: Seq<char>)
    requires
        crate::paths::path_starts_with(p, q),
        crate::paths::path_starts_with(q, p),
    ensures
        path_components(p) == path_components(q),
{
    let a = path_components(p);
    let b = path_components(q);
    assert(a =~= b);
}

/// Per-project git worktree cleanup, in two batches, each listed and then
/// confirmed (default No): the linked worktrees that `git worktree list
/// --porcelain` reports as removable (`git worktree remove --force`), then the
/// convention-named folders git does not list, nested ones collapsed into
/// their parent (deleted as directories). A dry run lists both only. A no-op
/// when `git` is not on PATH.
pub fn run<R: Runner>(args: &PurgeArgs, root: &str, runner: &mut Session<R>, dry_run: bool, verbose: bool)
    ensures
        extends(old(runner).calls(), final(runner).calls()),
        dry_run ==> quiet(old(runner).calls(), final(runner).calls()),
        looks_up_git_first(since(old(runner).calls(), final(runner).calls())),
        worktree_trace(root@, since(old(runner).calls(), final(runner).calls())),
{
    let ghost start = runner.calls();
    let git = runner.which("git");
    let ghost first = runner.calls();
    assert(since(start, first) =~= seq![first.last()]);
    if git.is_none() {
        return;
    }
    let list_args = ["-C", root, "worktree", "list", "--porcelain"];
    assert(strs_view(list_args@) =~= worktree_list_args(root@));
    let listed = runner.run("git", &list_args, None);
    let ghost lst = runner.calls();
    let ghost ws = removable_listed(listed);
    proof {
        lemma_wt_listed(root@, start, first, lst);
    }
    if !listed.is_success() {
        proof { lemma_wt_done(root@, ws, start, lst, runner.calls()); }
        return;
    }
    let worktrees = parse_worktrees(listed.stdout.as_str());
    let rem = removable(worktrees.as_slice());
    let mut git_targets: Vec<String> = Vec::new();
    let mut i: usize = 0;
    while i < rem.len()
        invariant
            runner.calls() == lst,
            i <= rem@.len(),
            rem@.map_values(|w: &Worktree| w@) == ws,
            git_targets@.len() == i,
            forall|k: int| 0 <= k < i ==> may_remove(ws, #[trigger] git_targets@[k]@),
        decreases rem.len() - i,
    {
        let path = rem[i].path.clone();
        assert(ws[i as int].0 == path@);
        git_targets.push(path);
        proof {
            assert forall|k: int| 0 <= k < i + 1 implies may_remove(ws, #[trigger] git_targets@[k]@) by {
                if k == i {
                    assert(ws[i as int].0 == git_targets@[k]@);
                }
            }
        }
        i = i + 1;
    }
    let ghost before_fs = runner.calls();
    let fs_candidates = discover_worktree_folders(runner, root);
    proof { lemma_wt_quiet(root@, ws, start, before_fs, runner.calls()); }
    let (union, fs_only) = union_targets(git_targets.as_slice(), fs_candidates.as_slice());
    if union.len() == 0 {
        proof { lemma_wt_done(root@, ws, start, lst, runner.calls()); }
        return;
    }
    runner.report(Level::Info, "  git worktree target(s) found:");
    let ghost shown = runner.calls();
    let mut u: usize = 0;
    while u < union.len()
        invariant
            runner.calls() == shown,
            u <= union@.len(),
        decreases union.len() - u,
    {
        let mut fs_tag = false;
        let mut f: usize = 0;
        while f < fs_only.len()
            invariant
                u < union@.len(),
            decreases fs_only.len() - f,
        {
            if paths_equal(fs_only[f].as_str(), union[u].as_str()) {
                fs_tag = true;
            }
            f = f + 1;
        }
        let tag = if fs_tag { " (fs-only, not git-registered)" } else { "" };
        runner.report(Level::Info, &cat(&["    ", union[u].as_str(), tag]));
        u = u + 1;
    }
    if dry_run {
        if fs_only.len() > 0 {
            let fs_count = decimal_text(fs_only.len() as u64);
            runner.report(Level::Detail, &cat(&["  (", fs_count.as_str(), " fs-only candidate(s) listed)"]));
        }
        runner.report(Level::Detail, "  (dry run — skipped)");
        proof { lemma_wt_done(root@, ws, start, lst, runner.calls()); }
        return;
    }
    if git_targets.len() > 0 {
        let count = decimal_text(git_targets.len() as u64);
        let q = cat(&["  Delete ", count.as_str(), " linked worktree(s)?"]);
        let ghost asking = runner.calls();
        let yes = runner.confirm(q.as_str(), false);
        proof { lemma_wt_quiet(root@, ws, start, asking, runner.calls()); }
        if yes {
            let ghost aj = since(start, asking).len() as int;
            assert(is_yes(since(start, runner.calls())[aj]));
            let mut g: usize = 0;
            while g < git_targets.len()
                invariant
            extends(lst, runner.calls()),
            start == old(runner).calls(),
            extends(start, lst),
            wt_prefix(root@, ws, since(start, lst)),
            consented(since(start, runner.calls())),
            removals_listed(root@, ws, since(start, runner.calls())),
                    0 <= aj < since(start, runner.calls()).len(),
                    is_yes(since(start, runner.calls())[aj]),
                    forall|k: int| 0 <= k < git_targets@.len() ==> may_remove(ws, #[trigger] git_targets@[k]@),
                    !dry_run,
                decreases git_targets.len() - g,
            {
                let path = git_targets[g].as_str();
                let remove_args = ["-C", root, "worktree", "remove", "--force", path];
                assert(strs_view(remove_args@) =~= worktree_remove_args(root@, path@));
                let ghost before = runner.calls();
                let removed = runner.run("git", &remove_args, None);
                proof {
                    assert(may_remove(ws, git_targets@[g as int]@));
                    let seg = since(before, runner.calls());
                    assert(seg[0] == runner.calls().last());
                    assert(removal_path(seg[0]) == path@);
                    lemma_wt_agreed(root@, ws, start, before, runner.calls(), aj);
                }
                if removed.is_success() {
                    runner.report(Level::Success, &cat(&["  ✓ Removed ", path]));
                } else {
                    runner.report(Level::Error, &cat(&["  ✗ Failed to remove ", path, ": ", removed.stderr.as_str()]));
                    if verbose && !removed.stderr.as_str().is_empty() {
                        runner.report(Level::Error, removed.stderr.as_str());
                    }
                }
                g = g + 1;
            }
            let ghost before_prune = runner.calls();
            let _ = runner.run("git", &["-C", root, "worktree", "prune"], None);
            proof {
                let seg = since(before_prune, runner.calls());
                assert(seg[0] == runner.calls().last());
                lemma_wt_agreed(root@, ws, start, before_prune, runner.calls(), aj);
            }
        }
    }
    let outer = collapse_nested(fs_only.as_slice());
    if outer.len() > 0 {
        let count = decimal_text(outer.len() as u64);
        runner.report(Level::Info, &cat(&["  ", count.as_str(), " fs-only worktree folder(s) (not git-registered):"]));
        let ghost listed_outer = runner.calls();
        let mut k: usize = 0;
        while k < outer.len()
            invariant
                runner.calls() == listed_outer,
            decreases outer.len() - k,
        {
            runner.report(Level::Info, &cat(&["    ", outer[k].as_str()]));
            k = k + 1;
        }
        let q = cat(&["  Delete ", count.as_str(), " fs-only worktree folder(s)?"]);
        let ghost asking = runner.calls();
        let yes = runner.confirm(q.as_str(), false);
        proof { lemma_wt_quiet(root@, ws, start, asking, runner.calls()); }
        if yes {
            let ghost aj = since(start, asking).len() as int;
            assert(is_yes(since(start, runner.calls())[aj]));
            let mut k: usize = 0;
            while k < outer.len()
                invariant
            extends(lst, runner.calls()),
            start == old(runner).calls(),
            extends(start, lst),
            wt_prefix(root@, ws, since(start, lst)),
            consented(since(start, runner.calls())),
            removals_listed(root@, ws, since(start, runner.calls())),
                    0 <= aj < since(start, runner.calls()).len(),
                    is_yes(since(start, runner.calls())[aj]),
                    !dry_run,
                decreases outer.len() - k,
            {
                let ghost before = runner.calls();
                crate::commands::purge::common::delete_entry(
                    runner,
                    outer[k].as_str(),
                    None,
                    crate::commands::purge::common::EntryKind::Dir,
                    false,
                    verbose,
                );
                proof {
                    let seg = since(before, runner.calls());
                    assert forall|i: int| 0 <= i < seg.len() implies !is_worktree_removal(#[trigger] seg[i], root@) by {
                        if i == 1 {
                            assert(crate::commands::purge::common::removes(seg[1], outer@[k as int]@, true));
                        }
                    }
                    lemma_wt_agreed(root@, ws, start, before, runner.calls(), aj);
                }
                k = k + 1;
            }
        }
    }
    proof { lemma_wt_done(root@, ws, start, lst, runner.calls()); }
}

/// The requests up to the worktree listing (`pre`): `git` found, then
/// `git worktree list --porcelain`, whose reply lists `ws` as removable.
pub open spec fn wt_prefix(root: Seq<char>, ws: Seq<WorktreeView>, pre: Seq<Call>) -> bool {
    &&& pre.len() == 2
    &&& pre[0] matches Call::Which { exe, .. } && exe == "git"@
    &&& git_found(pre[0])
    &&& is_run(pre[1], "git"@, worktree_list_args(root))
    &&& ws == removable_listed(reply_of(pre[1]))
}

proof fn lemma_wt_listed(root: Seq<char>, start: Seq<Call>, first: Seq<Call>, lst: Seq<Call>)
    requires
        extends(start, first),
        since(start, first).len() == 1,
        since(start, first)[0] matches Call::Which { exe, .. } && exe == "git"@,
        git_found(since(start, first)[0]),
        lst == first.push(lst.last()),
        is_run(lst.last(), "git"@, worktree_list_args(root)),
    ensures
        extends(start, lst),
        wt_prefix(root, removable_listed(reply_of(lst.last())), since(start, lst)),
        consented(since(start, lst)),
        removals_listed(root, removable_listed(reply_of(lst.last())), since(start, lst)),
{
    let t = since(start, lst);
    assert(t[0] == since(start, first)[0]);
    assert(t[1] == lst.last());
    reveal_strlit("remove");
    reveal_strlit("list");
    assert("remove"@.len() == 6 && "list"@.len() == 4);
    assert forall|i: int| 0 <= i < t.len() && #[trigger] changes_disk(t[i]) implies exists|j: int| 0 <= j < i && is_yes(#[trigger] t[j]) by {
        assert(i == 0 || i == 1);
    }
    assert forall|i: int| 0 <= i < t.len() && #[trigger] is_worktree_removal(t[i], root) implies may_remove(removable_listed(reply_of(lst.last())), removal_path(t[i])) by {
        assert(i == 0 || i == 1);
    }
}

proof fn lemma_wt_done(root: Seq<char>, ws: Seq<WorktreeView>, start: Seq<Call>, lst: Seq<Call>, end: Seq<Call>)
    requires
        extends(start, lst),
        extends(lst, end),
        wt_prefix(root, ws, since(start, lst)),
        consented(since(start, end)),
        removals_listed(root, ws, since(start, end)),
    ensures
        worktree_trace(root, since(start, end)),
        looks_up_git_first(since(start, end)),
{
    let t = since(start, end);
    assert(t[0] == since(start, lst)[0]);
    assert(t[1] == since(start, lst)[1]);
}

} // verus!
