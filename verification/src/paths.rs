//! Unix paths as text: their components and the prefix relation between them,
//! as `std::path::Path` defines them.
use vstd::prelude::*;
use crate::text::{chars_eq, chars_of, split, split_chars};

verus! {

/// Whether `piece`, the `index`-th piece between separators of a path, is one
/// of its components: empty pieces never are, and `.` only at the start of a
/// relative path.
pub open spec fn keeps_piece(piece: Seq<char>, index: int, absolute: bool) -> bool {
    piece.len() > 0 && (piece != seq!['.'] || (index == 0 && !absolute))
}

/// The pieces of `pieces` that are components, in order.
pub open spec fn kept_pieces(pieces: Seq<Seq<char>>, absolute: bool) -> Seq<Seq<char>>
    decreases pieces.len(),
{
    if pieces.len() == 0 {
        Seq::empty()
    } else {
        let prev = kept_pieces(pieces.drop_last(), absolute);
        if keeps_piece(pieces.last(), pieces.len() - 1, absolute) {
            prev.push(pieces.last())
        } else {
            prev
        }
    }
}

/// `Path::components`: the root (`/`) of an absolute path, then its non-empty
/// pieces between separators without the `.` pieces, except one that starts
/// a relative path.
pub open spec fn path_components(p: Seq<char>) -> Seq<Seq<char>> {
    let absolute = p.len() > 0 && p[0] == '/';
    let head: Seq<Seq<char>> = if absolute { seq![seq!['/']] } else { Seq::empty() };
    head + kept_pieces(split(p, '/'), absolute)
}

/// `Path::starts_with`: the components of `base` begin the components of `p`.
pub open spec fn path_starts_with(p: Seq<char>, base: Seq<char>) -> bool {
    let a = path_components(p);
    let b = path_components(base);
    b.len() <= a.len() && a.take(b.len() as int) == b
}

/// `Path::components`, each component as characters.
pub fn components_of(p: &str) -> (r: Vec<Vec<char>>)
    ensures
        r.deep_view() == path_components(p@),
{
    let v = chars_of(p);
    let absolute = v.len() > 0 && v[0] == '/';
    let pieces = split_chars(v.as_slice(), '/');
    let mut out: Vec<Vec<char>> = Vec::new();
    if absolute {
        let mut root: Vec<char> = Vec::new();
        root.push('/');
        assert(root.deep_view() =~= seq!['/']);
        out.push(root);
    }
    let ghost head: Seq<Seq<char>> = if absolute { seq![seq!['/']] } else { Seq::empty() };
    assert(kept_pieces(pieces.deep_view().take(0), absolute) =~= Seq::<Seq<char>>::empty());
    if absolute {
        assert(out@[0]@ =~= seq!['/']);
    }
    assert(out.deep_view() =~= head + kept_pieces(pieces.deep_view().take(0), absolute));
    let dot = ['.'];
    let mut i: usize = 0;
    while i < pieces.len()
        invariant
            i <= pieces@.len(),
            pieces.deep_view() == split(p@, '/'),
            absolute == (p@.len() > 0 && p@[0] == '/'),
            head == (if absolute { seq![seq!['/']] } else { Seq::<Seq<char>>::empty() }),
            out.deep_view() == head + kept_pieces(pieces.deep_view().take(i as int), absolute),
            dot@ == seq!['.'],
        decreases pieces.len() - i,
    {
        let ghost pv = pieces.deep_view();
        assert(pv.take(i + 1).drop_last() =~= pv.take(i as int));
        assert(pv[i as int] == pieces@[i as int]@);
        let piece = &pieces[i];
        let keep = piece.len() > 0 && (!chars_eq(piece.as_slice(), dot.as_slice()) || (i == 0 && !absolute));
        if keep {
            let ghost before = out.deep_view();
            out.push(piece.clone());
            assert(out.deep_view() =~= before.push(pv[i as int]));
        }
        i = i + 1;
    }
    assert(pieces.deep_view().take(pieces@.len() as int) =~= pieces.deep_view());
    out
}

/// `Path::starts_with`.
pub fn path_starts_with_exec(p: &str, base: &str) -> (b: bool)
    ensures
        b == path_starts_with(p@, base@),
{
    let a = components_of(p);
    let c = components_of(base);
    if c.len() > a.len() {
        assert(a.deep_view().len() == a@.len());
        assert(c.deep_view().len() == c@.len());
        return false;
    }
    let mut i: usize = 0;
    while i < c.len()
        invariant
            c@.len() <= a@.len(),
            i <= c@.len(),
            a.deep_view() == path_components(p@),
            c.deep_view() == path_components(base@),
            forall|k: int| 0 <= k < i ==> a.deep_view()[k] == c.deep_view()[k],
        decreases c.len() - i,
    {
        assert(a.deep_view()[i as int] == a@[i as int]@);
        assert(c.deep_view()[i as int] == c@[i as int]@);
        if !chars_eq(a[i].as_slice(), c[i].as_slice()) {
            assert(a.deep_view().take(c@.len() as int)[i as int] != c.deep_view()[i as int]);
            assert(a.deep_view().take(c@.len() as int) != c.deep_view());
            return false;
        }
        i = i + 1;
    }
    assert(a.deep_view().take(c@.len() as int) =~= c.deep_view());
    true
}

} // verus!

verus! {

/// `Path::join`: an absolute `rel` replaces `base`; otherwise `rel` follows
/// `base` after one separator.
pub open spec fn path_join(base: Seq<char>, rel: Seq<char>) -> Seq<char> {
    if rel.len() > 0 && rel[0] == '/' {
        rel
    } else if base.len() == 0 {
        rel
    } else if base.last() == '/' {
        base + rel
    } else {
        base + seq!['/'] + rel
    }
}

/// `Path::join`.
pub fn join_path(base: &str, rel: &str) -> (r: String)
    ensures
        r@ == path_join(base@, rel@),
{
    let b = chars_of(base);
    let mut rv = chars_of(rel);
    if rv.len() > 0 && rv[0] == '/' {
        return rel.to_owned();
    }
    if b.len() == 0 {
        return rel.to_owned();
    }
    let mut out = b.clone();
    if b[b.len() - 1] != '/' {
        out.push('/');
    }
    out.append(&mut rv);
    crate::text::string_of(out.as_slice())
}

} // verus!

verus! {

/// `Path::extension` of a file name: what follows its last `.`, unless the
/// name has no `.` or its only `.` starts it.
pub open spec fn name_extension(name: Seq<char>) -> Option<Seq<char>>
    decreases name.len(),
{
    last_dot_extension(name, name.len() as int)
}

/// The extension when the last `.` before index `i` is searched for.
pub open spec fn last_dot_extension(name: Seq<char>, i: int) -> Option<Seq<char>>
    decreases i,
{
    if i <= 0 {
        None
    } else if name[i - 1] == '.' {
        if i - 1 == 0 { None } else { Some(name.skip(i)) }
    } else {
        last_dot_extension(name, i - 1)
    }
}

/// `Path::extension` of a file name.
pub fn extension_of(name: &str) -> (r: Option<String>)
    ensures
        crate::text::opt_view(r) == name_extension(name@),
{
    let v = chars_of(name);
    let mut i: usize = v.len();
    while i > 0
        invariant
            i <= v@.len(),
            v@ == name@,
            name_extension(name@) == last_dot_extension(name@, i as int),
        decreases i,
    {
        if v[i - 1] == '.' {
            if i - 1 == 0 {
                return None;
            }
            let n = v.len();
            let rest = crate::text::slice_of(v.as_slice(), i, n);
            assert(rest@ =~= name@.skip(i as int));
            return Some(crate::text::string_of(rest.as_slice()));
        }
        i = i - 1;
    }
    None
}

/// The components of `p` rebuilt as a path: the root, then the other
/// components separated by `/`.
pub open spec fn path_of_components(comps: Seq<Seq<char>>) -> Seq<char>
    decreases comps.len(),
{
    if comps.len() == 0 {
        Seq::empty()
    } else if comps.len() == 1 {
        comps[0]
    } else {
        let prev = path_of_components(comps.drop_last());
        if prev == seq!['/'] { prev + comps.last() } else { prev + seq!['/'] + comps.last() }
    }
}

/// `Path::parent`: the path without its last component; `None` for the root
/// and the empty path. (Rebuilt from the components, so `.` pieces and
/// repeated separators inside the path are normalised away.)
pub open spec fn path_parent(p: Seq<char>) -> Option<Seq<char>> {
    let c = path_components(p);
    if c.len() == 0 || c == seq![seq!['/']] {
        None
    } else {
        Some(path_of_components(c.drop_last()))
    }
}

/// `Path::parent`; see `path_parent`.
pub fn parent_of(p: &str) -> (r: Option<String>)
    ensures
        crate::text::opt_view(r) == path_parent(p@),
{
    let comps = components_of(p);
    let ghost cv = comps.deep_view();
    if comps.len() == 0 {
        return None;
    }
    if comps.len() == 1 && comps[0].len() == 1 && comps[0][0] == '/' {
        assert(cv[0] =~= seq!['/']);
        assert(cv =~= seq![seq!['/']]);
        return None;
    }
    proof {
        if cv == seq![seq!['/']] {
            assert(cv[0] == comps@[0]@);
            assert(comps@[0]@.len() == 1);
        }
    }
    let n = comps.len() - 1;
    let mut out: Vec<char> = Vec::new();
    let mut i: usize = 0;
    assert(cv.drop_last().take(0) =~= Seq::<Seq<char>>::empty());
    while i < n
        invariant
            n == comps@.len() - 1,
            i <= n,
            cv == comps.deep_view(),
            out@ == path_of_components(cv.drop_last().take(i as int)),
        decreases n - i,
    {
        let ghost pre = cv.drop_last().take(i as int);
        assert(cv.drop_last().take(i + 1).drop_last() =~= pre);
        assert(cv.drop_last().take(i + 1).last() == comps@[i as int]@);
        let root = out.len() == 1 && out[0] == '/';
        proof {
            if root {
                assert(out@ =~= seq!['/']);
            }
        }
        if i > 0 && !root {
            out.push('/');
        }
        let mut piece = comps[i].clone();
        out.append(&mut piece);
        proof {
            if i == 0 {
                assert(out@ =~= cv.drop_last().take(1)[0]);
            }
        }
        i = i + 1;
    }
    assert(cv.drop_last().take(n as int) =~= cv.drop_last());
    Some(crate::text::string_of(out.as_slice()))
}

} // verus!

verus! {

/// `Path` ordering: the components compared in turn, each by `str` order.
pub open spec fn comps_le(a: Seq<Seq<char>>, b: Seq<Seq<char>>) -> bool
    decreases a.len(),
{
    if a.len() == 0 {
        true
    } else if b.len() == 0 {
        false
    } else if a[0] != b[0] {
        crate::text::text_le(a[0], b[0])
    } else {
        comps_le(a.drop_first(), b.drop_first())
    }
}

/// `Path` ordering on paths as text.
pub open spec fn path_le(a: Seq<char>, b: Seq<char>) -> bool {
    comps_le(path_components(a), path_components(b))
}

proof fn lemma_text_le_antisym(a: Seq<char>, b: Seq<char>)
    requires
        crate::text::text_le(a, b),
        crate::text::text_le(b, a),
    ensures
        a == b,
    decreases a.len(),
{
    if a.len() > 0 && b.len() > 0 && a[0] == b[0] {
        lemma_text_le_antisym(a.drop_first(), b.drop_first());
        assert(a =~= seq![a[0]] + a.drop_first());
        assert(b =~= seq![b[0]] + b.drop_first());
    } else if a.len() == 0 && b.len() == 0 {
        assert(a =~= b);
    }
}

/// The order is total.
pub proof fn lemma_comps_le_total(a: Seq<Seq<char>>, b: Seq<Seq<char>>)
    ensures
        comps_le(a, b) || comps_le(b, a),
    decreases a.len(),
{
    if a.len() > 0 && b.len() > 0 {
        if a[0] == b[0] {
            lemma_comps_le_total(a.drop_first(), b.drop_first());
        } else {
            crate::text::lemma_text_le_total(a[0], b[0]);
        }
    }
}

/// The order is transitive.
pub proof fn lemma_comps_le_transitive(a: Seq<Seq<char>>, b: Seq<Seq<char>>, c: Seq<Seq<char>>)
    requires
        comps_le(a, b),
        comps_le(b, c),
    ensures
        comps_le(a, c),
    decreases a.len(),
{
    if a.len() > 0 && b.len() > 0 && c.len() > 0 {
        if a[0] == b[0] && b[0] == c[0] {
            lemma_comps_le_transitive(a.drop_first(), b.drop_first(), c.drop_first());
        } else if a[0] == b[0] {
            // b[0] != c[0]: a[0] < c[0] strictly
        } else if b[0] == c[0] {
        } else {
            crate::text::lemma_text_le_transitive(a[0], b[0], c[0]);
            if a[0] == c[0] {
                lemma_text_le_antisym(a[0], b[0]);
            }
        }
    }
}

/// `Path` ordering of two paths.
pub fn path_le_exec(a: &str, b: &str) -> (r: bool)
    ensures
        r == path_le(a@, b@),
{
    let x = components_of(a);
    let y = components_of(b);
    let ghost xv = x.deep_view();
    let ghost yv = y.deep_view();
    let mut i: usize = 0;
    assert(xv.skip(0) =~= xv);
    assert(yv.skip(0) =~= yv);
    while i < x.len() && i < y.len() && crate::text::chars_eq(x[i].as_slice(), y[i].as_slice())
        invariant
            i <= x@.len(),
            i <= y@.len(),
            xv == x.deep_view(),
            yv == y.deep_view(),
            comps_le(xv, yv) == comps_le(xv.skip(i as int), yv.skip(i as int)),
        decreases x.len() - i,
    {
        assert(xv[i as int] == x@[i as int]@);
        assert(yv[i as int] == y@[i as int]@);
        assert(xv.skip(i as int).drop_first() =~= xv.skip(i + 1));
        assert(yv.skip(i as int).drop_first() =~= yv.skip(i + 1));
        i = i + 1;
    }
    if i == x.len() {
        return true;
    }
    if i == y.len() {
        return false;
    }
    assert(xv[i as int] == x@[i as int]@);
    assert(yv[i as int] == y@[i as int]@);
    let xs = crate::text::string_of(x[i].as_slice());
    let ys = crate::text::string_of(y[i].as_slice());
    crate::text::text_le_exec(xs.as_str(), ys.as_str())
}

} // verus!

verus! {

/// Paths in `Path` order.
pub open spec fn paths_sorted(v: Seq<Seq<char>>) -> bool {
    forall|i: int, j: int| 0 <= i < j < v.len() ==> path_le(#[trigger] v[i], #[trigger] v[j])
}

/// The views of strings.
pub open spec fn string_views(v: Seq<String>) -> Seq<Seq<char>> {
    v.map_values(|s: String| s@)
}

/// Inserts `p` into the path-ordered `v`.
fn insert_path(v: &mut Vec<String>, p: String)
    requires
        paths_sorted(string_views(old(v)@)),
    ensures
        paths_sorted(string_views(final(v)@)),
        string_views(final(v)@).to_multiset() == string_views(old(v)@).to_multiset().insert(p@),
{
    let ghost before = string_views(v@);
    let ghost pv = p@;
    let mut k: usize = 0;
    while k < v.len() && path_le_exec(v[k].as_str(), p.as_str())
        invariant
            k <= v@.len(),
            before == string_views(v@),
            paths_sorted(before),
            forall|i: int| 0 <= i < k ==> path_le(#[trigger] before[i], pv),
            pv == p@,
        decreases v.len() - k,
    {
        assert(before[k as int] == v@[k as int]@);
        k = k + 1;
    }
    proof {
        if k < before.len() {
            lemma_comps_le_total(path_components(before[k as int]), path_components(pv));
        }
    }
    v.insert(k, p);
    proof {
        let after = string_views(v@);
        assert(after =~= before.insert(k as int, pv));
        vstd::seq_lib::to_multiset_insert(before, k as int, pv);
        assert forall|i: int, j: int| 0 <= i < j < after.len() implies path_le(#[trigger] after[i], #[trigger] after[j]) by {
            if i < k && j < k {
                assert(after[i] == before[i] && after[j] == before[j]);
            } else if i < k && j == k {
                assert(after[i] == before[i]);
            } else if i < k && j > k {
                assert(after[i] == before[i] && after[j] == before[j - 1]);
                if j - 1 > k {
                    lemma_comps_le_transitive(path_components(pv), path_components(before[k as int]), path_components(before[j - 1]));
                }
                lemma_comps_le_transitive(path_components(before[i]), path_components(pv), path_components(before[j - 1]));
            } else if i == k {
                assert(after[j] == before[j - 1]);
                if j - 1 > k {
                    lemma_comps_le_transitive(path_components(pv), path_components(before[k as int]), path_components(before[j - 1]));
                }
            } else {
                assert(after[i] == before[i - 1] && after[j] == before[j - 1]);
            }
        }
    }
}

/// `paths` in `Path` order (`Vec::sort` on paths).
pub fn sort_paths(paths: Vec<String>) -> (r: Vec<String>)
    ensures
        paths_sorted(string_views(r@)),
        string_views(r@).to_multiset() == string_views(paths@).to_multiset(),
{
    let mut out: Vec<String> = Vec::new();
    let ghost pv = string_views(paths@);
    let mut i: usize = 0;
    assert(string_views(out@) =~= pv.take(0));
    while i < paths.len()
        invariant
            i <= paths@.len(),
            pv == string_views(paths@),
            paths_sorted(string_views(out@)),
            string_views(out@).to_multiset() == pv.take(i as int).to_multiset(),
        decreases paths.len() - i,
    {
        let p = paths[i].clone();
        assert(p@ == pv[i as int]);
        insert_path(&mut out, p);
        assert(pv.take(i + 1) =~= pv.take(i as int).push(pv[i as int]));
        proof {
            vstd::seq_lib::to_multiset_build(pv.take(i as int), pv[i as int]);
        }
        i = i + 1;
    }
    assert(pv.take(paths@.len() as int) =~= pv);
    out
}

} // verus!
