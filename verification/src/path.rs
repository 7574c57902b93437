//! POSIX paths as raw bytes: their components, and the lexical operations on
//! them.
//!
//! A path is any sequence of bytes, as POSIX systems have it. Names in it are
//! separated by `/`, and every other byte, `\` and `:` among them, is part of a
//! name. Paths of systems with drive letters or other separators are no input of
//! this library. Nothing here looks at a file system.

use vstd::prelude::*;
use vstd::slice::slice_subrange;
use vstd::slice::slice_to_vec;

verus! {

/// The byte `/`, which separates the names in a path.
pub const SLASH: u8 = 0x2f;

/// The byte `.`.
pub const DOT: u8 = 0x2e;

/// The index of the last `/` in `p`, or -1.
pub open spec fn last_slash(p: Seq<u8>) -> int
    decreases p.len(),
{
    if p.len() == 0 {
        -1
    } else if p.last() == SLASH {
        p.len() - 1
    } else {
        last_slash(p.drop_last())
    }
}

/// What a piece of text between separators adds to the names of a path:
/// nothing if it is empty or `.`, else itself.
pub open spec fn piece(x: Seq<u8>) -> Seq<Seq<u8>> {
    if x.len() == 0 || (x.len() == 1 && x[0] == DOT) {
        seq![]
    } else {
        seq![x]
    }
}

/// The names in `p`, in order. Repeated separators and `.` are skipped.
pub open spec fn names(p: Seq<u8>) -> Seq<Seq<u8>>
    decreases p.len(),
    via names_decreases
{
    let i = last_slash(p);
    if i < 0 {
        piece(p)
    } else {
        names(p.take(i)) + piece(p.skip(i + 1))
    }
}

#[via_fn]
proof fn names_decreases(p: Seq<u8>) {
    lemma_last_slash(p);
}

/// What precedes the names: `/` in an absolute path, `.` in a path that
/// begins with that name, else nothing.
pub open spec fn leading(p: Seq<u8>) -> Seq<Seq<u8>> {
    if p.len() > 0 && p[0] == SLASH {
        seq![seq![SLASH]]
    } else if p.len() > 0 && p[0] == DOT && (p.len() == 1 || p[1] == SLASH) {
        seq![seq![DOT]]
    } else {
        seq![]
    }
}

/// The components of a path. Two paths with the same components are two
/// spellings of one path.
pub open spec fn components(p: Seq<u8>) -> Seq<Seq<u8>> {
    leading(p) + names(p)
}

proof fn lemma_last_slash(p: Seq<u8>)
    ensures
        -1 <= last_slash(p) < p.len(),
        last_slash(p) >= 0 ==> p[last_slash(p)] == SLASH,
        forall|j: int| last_slash(p) < j < p.len() ==> p[j] != SLASH,
    decreases p.len(),
{
    if p.len() > 0 && p.last() != SLASH {
        lemma_last_slash(p.drop_last());
        assert forall|j: int| last_slash(p) < j < p.len() implies p[j] != SLASH by {
            if j < p.len() - 1 {
                assert(p[j] == p.drop_last()[j]);
            }
        }
    }
}

proof fn lemma_last_slash_is(p: Seq<u8>, i: int)
    requires
        -1 <= i < p.len(),
        i >= 0 ==> p[i] == SLASH,
        forall|j: int| i < j < p.len() ==> p[j] != SLASH,
    ensures
        last_slash(p) == i,
{
    lemma_last_slash(p);
}

proof fn lemma_names_without_slash(p: Seq<u8>)
    requires
        forall|j: int| 0 <= j < p.len() ==> p[j] != SLASH,
    ensures
        names(p) == piece(p),
{
    lemma_last_slash_is(p, -1);
}

/// The names on both sides of a separator are read independently.
proof fn lemma_names_at_slash(p: Seq<u8>, i: int)
    requires
        0 <= i < p.len(),
        p[i] == SLASH,
    ensures
        names(p) == names(p.take(i)) + names(p.skip(i + 1)),
    decreases p.len(),
{
    let k = last_slash(p);
    lemma_last_slash(p);
    let rest = p.skip(i + 1);
    if k == i {
        lemma_names_without_slash(rest);
    } else {
        let head = p.take(k);
        lemma_names_at_slash(head, i);
        assert(head.take(i) == p.take(i));
        lemma_last_slash_is(rest, k - i - 1);
        assert(rest.take(k - i - 1) == head.skip(i + 1));
        assert(rest.skip(k - i) == p.skip(k + 1));
    }
}

/// Whether the last byte of `p` leaves its components as they were.
spec fn idle_end(p: Seq<u8>) -> bool {
    p.len() > 1 && (p.last() == SLASH || (p.last() == DOT && p[p.len() - 2] == SLASH))
}

/// What the last byte of a path does to its components.
proof fn lemma_last_byte(p: Seq<u8>)
    requires
        p.len() > 0,
    ensures
        idle_end(p) ==> components(p) == components(p.drop_last()),
        !idle_end(p) ==> {
            let now = components(p);
            let before = components(p.drop_last());
            &&& now.len() > 0
            &&& now.drop_last() == before || (before.len() > 0 && now.drop_last()
                == before.drop_last() && now.last().len() > before.last().len())
        },
{
    let q = p.drop_last();
    let i = last_slash(p);
    lemma_last_slash(p);
    if p.last() == SLASH {
        assert(p.take(i) == q);
        assert(p.skip(i + 1) == Seq::<u8>::empty());
        assert(names(p) == names(q));
        if q.len() == 0 {
            lemma_names_without_slash(q);
            assert(p[0] == SLASH);
            assert(components(p) == seq![seq![SLASH]]);
            assert(components(p).drop_last() == components(q));
        } else {
            assert(leading(p) == leading(q));
        }
    } else {
        let x = p.skip(i + 1);
        let y = q.skip(i + 1);
        lemma_last_slash_is(q, i);
        assert(y == x.drop_last());
        if i >= 0 {
            assert(q.take(i) == p.take(i));
            assert(leading(p) == leading(q));
        } else {
            assert(x == p && y == q);
        }
        let base = leading(p) + (if i >= 0 {
            names(p.take(i))
        } else {
            seq![]
        });
        assert(components(p) == base + piece(x));
        if x.len() == 1 && x[0] == DOT {
            assert(p.last() == x[0]);
            if i >= 0 {
                assert(p[p.len() - 2] == SLASH);
                assert(y.len() == 0);
            } else {
                assert(components(p) == seq![seq![DOT]]);
                assert(components(q) == Seq::<Seq<u8>>::empty());
                assert(components(p).drop_last() == components(q));
            }
        } else {
            assert(x.len() > 0);
            assert(components(p) == base.push(x));
            assert(components(p).drop_last() == base);
            if idle_end(p) {
                assert(p[p.len() - 2] == SLASH);
                assert(i == p.len() - 2);
            }
            if i >= 0 {
                assert(components(q) == base + piece(y));
                if y.len() == 0 || (y.len() == 1 && y[0] == DOT) {
                    assert(components(q) == base);
                } else {
                    assert(components(q) == base.push(y));
                    assert(components(q).drop_last() == base);
                }
            } else {
                assert(names(p) == piece(p));
                assert(names(q) == piece(q));
                if q.len() == 0 {
                    assert(components(q) == base);
                } else if q.len() == 1 && q[0] == DOT {
                    assert(q == seq![DOT]);
                    assert(components(q) == base.push(q));
                    assert(components(q).drop_last() == base);
                } else {
                    assert(leading(q) == leading(p));
                    assert(components(q) == base.push(q));
                    assert(components(q).drop_last() == base);
                }
            }
        }
    }
}

/// A measure of components that grows with every byte that is not idle.
spec fn weight(cs: Seq<Seq<u8>>) -> nat
    decreases cs.len(),
{
    if cs.len() == 0 {
        0
    } else {
        weight(cs.drop_last()) + cs.last().len() + 1
    }
}

proof fn lemma_weight_step(p: Seq<u8>)
    requires
        p.len() > 0,
    ensures
        idle_end(p) ==> weight(components(p)) == weight(components(p.drop_last())),
        !idle_end(p) ==> weight(components(p)) > weight(components(p.drop_last())),
{
    lemma_last_byte(p);
}

proof fn lemma_weight_grows(p: Seq<u8>, m: int)
    requires
        0 <= m <= p.len(),
    ensures
        weight(components(p.take(m))) <= weight(components(p)),
    decreases p.len(),
{
    if m == p.len() {
        assert(p.take(m) == p);
    } else {
        let q = p.drop_last();
        lemma_weight_step(p);
        lemma_weight_grows(q, m);
        assert(q.take(m) == p.take(m));
    }
}

/// `n` is the length of the shortest prefix of `p` whose components are the
/// first `k` components of `p`: the place where component `k` ends.
pub open spec fn is_extent(p: Seq<u8>, k: int, n: int) -> bool {
    &&& 0 <= n <= p.len()
    &&& components(p.take(n)) == components(p).take(k)
    &&& forall|m: int|
        0 <= m < n ==> components(#[trigger] p.take(m)) != components(p).take(k)
}

/// The length of the shortest prefix of `p` that holds its first `k`
/// components.
pub open spec fn extent(p: Seq<u8>, k: int) -> int {
    choose|n: int| is_extent(p, k, n)
}

pub proof fn lemma_extent_is(p: Seq<u8>, k: int, n: int)
    requires
        is_extent(p, k, n),
    ensures
        extent(p, k) == n,
{
    let e = extent(p, k);
    assert(is_extent(p, k, e));
    if e < n {
        assert(components(p.take(e)) != components(p).take(k));
    } else if n < e {
        assert(components(p.take(n)) != components(p).take(k));
    }
}

/// A prefix whose last byte is not idle is the shortest with its components.
proof fn lemma_extent_at(p: Seq<u8>, k: int, n: int)
    requires
        0 <= n <= p.len(),
        0 <= k <= components(p).len(),
        components(p.take(n)) == components(p).take(k),
        n > 0 ==> !idle_end(p.take(n)),
    ensures
        is_extent(p, k, n),
        extent(p, k) == n,
{
    let q = p.take(n);
    assert forall|m: int| 0 <= m < n implies components(#[trigger] p.take(m)) != components(
        p,
    ).take(k) by {
        lemma_weight_step(q);
        lemma_weight_grows(q.drop_last(), m);
        assert(q.drop_last().take(m) == p.take(m));
    }
    lemma_extent_is(p, k, n);
}

/// Every number of leading components has an extent.
pub proof fn lemma_extent(p: Seq<u8>, k: int)
    requires
        0 <= k <= components(p).len(),
    ensures
        is_extent(p, k, extent(p, k)),
    decreases p.len(),
{
    if p.len() == 0 {
        lemma_names_without_slash(p);
        assert(p.take(0) == p);
        assert(components(p).take(0) == components(p));
        lemma_extent_at(p, k, 0);
    } else {
        let q = p.drop_last();
        lemma_last_byte(p);
        if k == components(p).len() && !idle_end(p) {
            assert(p.take(p.len() as int) == p);
            assert(components(p).take(k) == components(p));
            lemma_extent_at(p, k, p.len() as int);
        } else {
            if !idle_end(p) {
                assert(components(p).drop_last().len() == components(p).len() - 1);
                assert(components(p).take(k) == components(p).drop_last().take(k));
                if components(p).drop_last() != components(q) {
                    assert(components(q).drop_last().len() == components(q).len() - 1);
                    assert(components(q).take(k) == components(q).drop_last().take(k));
                }
            }
            assert(components(q).take(k) == components(p).take(k));
            lemma_extent(q, k);
            let n = extent(q, k);
            assert(q.take(n) == p.take(n));
            assert forall|m: int| 0 <= m < n implies components(#[trigger] p.take(m))
                != components(p).take(k) by {
                assert(q.take(m) == p.take(m));
            }
            assert(is_extent(p, k, n));
            lemma_extent_is(p, k, n);
        }
    }
}

/// Whether a path starts at the root.
pub open spec fn absolute(p: Seq<u8>) -> bool {
    p.len() > 0 && p[0] == SLASH
}

/// `p` adjoined to `base`. An absolute `p` replaces `base`; else the two are
/// put one behind the other, with a separator between them unless `base` is
/// empty or ends with one.
pub open spec fn joined(base: Seq<u8>, p: Seq<u8>) -> Seq<u8> {
    if absolute(p) {
        p
    } else if base.len() > 0 && base.last() != SLASH {
        base.push(SLASH) + p
    } else {
        base + p
    }
}

/// The path without its last component, in the spelling of `p`. The empty path
/// and the root have no parent.
pub open spec fn parent_of(p: Seq<u8>) -> Option<Seq<u8>> {
    let n = components(p).len();
    if n == 0 || components(p).last() == seq![SLASH] {
        None
    } else {
        Some(p.take(extent(p, n - 1)))
    }
}

/// `p`, its parent, the parent of that, and so on.
pub open spec fn ancestors(p: Seq<u8>) -> Seq<Seq<u8>>
    decreases p.len(),
    via ancestors_decreases
{
    match parent_of(p) {
        None => seq![p],
        Some(q) => seq![p] + ancestors(q),
    }
}

#[via_fn]
proof fn ancestors_decreases(p: Seq<u8>) {
    lemma_parent(p);
}

/// A parent is a shorter prefix of the path, with one component less.
pub proof fn lemma_parent(p: Seq<u8>)
    ensures
        parent_of(p) matches Some(q) ==> {
            &&& q.len() < p.len()
            &&& q == p.take(q.len() as int)
            &&& components(q) == components(p).drop_last()
            &&& components(p).len() > 0
        },
{
    if parent_of(p) is Some {
        let n = components(p).len();
        lemma_extent(p, n - 1);
        let e = extent(p, n - 1);
        if e == p.len() {
            assert(p.take(e) == p);
        }
        assert(components(p).take(n - 1) == components(p).drop_last());
        assert(components(p).drop_last().len() != n);
    }
}

/// What is left of `p` behind the components of `base`, in the spelling of
/// `p`: the text from where the first component behind them begins to where
/// the last component ends. None if `p` does not begin with the components of
/// `base`.
pub open spec fn relative_to(p: Seq<u8>, base: Seq<u8>) -> Option<Seq<u8>> {
    let k = components(base).len() as int;
    let n = components(p).len() as int;
    if !components(base).is_prefix_of(components(p)) {
        None
    } else if k == n {
        Some(seq![])
    } else {
        Some(p.subrange(extent(p, k + 1) - components(p)[k].len(), extent(p, n)))
    }
}

/// Whether the path starts at the root.
pub fn is_absolute(p: &[u8]) -> (r: bool)
    ensures
        r == absolute(p@),
{
    p.len() > 0 && p[0] == SLASH
}

/// Adjoins `p` to `base`.
pub fn join(base: &[u8], p: &[u8]) -> (r: Vec<u8>)
    ensures
        r@ == joined(base@, p@),
{
    if is_absolute(p) {
        return slice_to_vec(p);
    }
    let mut r: Vec<u8> = slice_to_vec(base);
    if base.len() > 0 && base[base.len() - 1] != SLASH {
        r.push(SLASH);
    }
    r.extend_from_slice(p);
    assert(r@ == joined(base@, p@));
    r
}

/// The length of the shortest prefix with the components of `p[..end]`.
fn settle(p: &[u8], end: usize) -> (r: usize)
    requires
        end <= p@.len(),
    ensures
        r <= end,
        components(p@.take(r as int)) == components(p@.take(end as int)),
        r > 0 ==> !idle_end(p@.take(r as int)),
{
    let mut n: usize = end;
    while n > 1 && (p[n - 1] == SLASH || (p[n - 1] == DOT && p[n - 2] == SLASH))
        invariant
            n <= end <= p@.len(),
            components(p@.take(n as int)) == components(p@.take(end as int)),
        decreases n,
    {
        proof {
            let q = p@.take(n as int);
            lemma_last_byte(q);
            assert(q.drop_last() == p@.take(n - 1));
        }
        n = n - 1;
    }
    n
}

/// Where the last component of a prefix that is not idle begins.
proof fn lemma_last_component(p: Seq<u8>, i: int)
    requires
        0 <= i < p.len(),
        !idle_end(p),
        i > 0 ==> p[i - 1] == SLASH,
        forall|j: int| i <= j < p.len() ==> p[j] != SLASH,
    ensures
        components(p) == components(p.take(i)).push(p.skip(i)),
{
    let x = p.skip(i);
    lemma_last_slash_is(p, i - 1);
    if i == 0 {
        assert(x == p);
        assert(p.take(0) == Seq::<u8>::empty());
        lemma_names_without_slash(p.take(0));
        if p == seq![DOT] {
            assert(p[0] == DOT);
            assert(components(p) == seq![p]);
        } else {
            assert(p.len() == 1 && p[0] == DOT ==> p == seq![DOT]);
            assert(components(p) == seq![p]);
        }
        assert(components(p.take(0)) == Seq::<Seq<u8>>::empty());
    } else {
        let q = p.take(i);
        assert(q.last() == SLASH);
        assert(q.take(i - 1) == p.take(i - 1));
        assert(q.skip(i) == Seq::<u8>::empty());
        assert(names(q) == names(p.take(i - 1)));
        assert(leading(q) == leading(p));
        assert(p.last() == x.last());
        assert(x.len() == 1 ==> x[0] == x.last());
        assert(names(p) == names(p.take(i - 1)) + piece(x));
        assert(piece(x) == seq![x]);
    }
}

/// The path without its last component, as a part of `p`.
pub fn parent<'a>(p: &'a [u8]) -> (r: Option<&'a [u8]>)
    ensures
        match r {
            Some(q) => parent_of(p@) == Some(q@),
            None => parent_of(p@) is None,
        },
{
    let n = settle(p, p.len());
    proof {
        assert(p@.take(p@.len() as int) == p@);
    }
    if n == 0 {
        proof {
            assert(p@.take(0) == Seq::<u8>::empty());
            lemma_names_without_slash(p@.take(0));
        }
        return None;
    }
    if n == 1 && p[0] == SLASH {
        proof {
            let q = p@.take(1);
            lemma_last_byte(q);
            lemma_names_without_slash(q.drop_last());
            assert(components(q) == seq![seq![SLASH]]) by {
                lemma_names_at_slash(q, 0);
                assert(q.take(0) == q.drop_last());
                assert(q.skip(1) == q.drop_last());
            }
        }
        return None;
    }
    let mut i: usize = n;
    while i > 0 && p[i - 1] != SLASH
        invariant
            i <= n <= p@.len(),
            forall|j: int| i <= j < n ==> p@[j] != SLASH,
        decreases i,
    {
        i = i - 1;
    }
    let m = settle(p, i);
    proof {
        let q = p@.take(n as int);
        assert(q.last() != SLASH);
        assert(i < n);
        lemma_last_component(q, i as int);
        assert(q.take(i as int) == p@.take(i as int));
        assert(components(p@).last() == q.skip(i as int));
        let k = components(p@).len() - 1;
        assert(components(p@.take(i as int)) == components(p@).take(k));
        lemma_extent_at(p@, k, m as int);
        assert(q.skip(i as int)[0] != SLASH);
        assert(seq![SLASH][0] == SLASH);
    }
    Some(slice_subrange(p, 0, m))
}

/// No name is empty, `.`, or holds a separator.
proof fn lemma_names_are_plain(p: Seq<u8>)
    ensures
        forall|k: int|
            0 <= k < names(p).len() ==> (#[trigger] names(p)[k]).len() > 0 && names(p)[k] != seq![
                DOT,
            ] && !names(p)[k].contains(SLASH),
    decreases p.len(),
{
    let i = last_slash(p);
    lemma_last_slash(p);
    if i >= 0 {
        lemma_names_are_plain(p.take(i));
    }
    assert forall|k: int| 0 <= k < names(p).len() implies (#[trigger] names(p)[k]).len() > 0
        && names(p)[k] != seq![DOT] && !names(p)[k].contains(SLASH) by {
        if i >= 0 && k < names(p.take(i)).len() {
            assert(names(p)[k] == names(p.take(i))[k]);
        } else {
            assert(names(p)[k] == p.skip(i + 1));
        }
    }
}

/// Only the empty path has no components.
pub proof fn lemma_components_empty(p: Seq<u8>)
    ensures
        components(p).len() == 0 <==> p.len() == 0,
{
    if p.len() == 0 {
        lemma_names_without_slash(p);
    } else {
        lemma_weight_step(p.take(1));
        lemma_weight_grows(p, 1);
    }
}

/// Where a name ends, the components before it and the names behind it are
/// read independently.
proof fn lemma_components_at_end(p: Seq<u8>, e: int)
    requires
        0 < e <= p.len(),
        e == p.len() || p[e] == SLASH,
    ensures
        components(p) == components(p.take(e)) + names(p.skip(e)),
{
    let rest = p.skip(e);
    if e == p.len() {
        assert(p.take(e) == p);
        lemma_names_without_slash(rest);
        assert(names(rest) == Seq::<Seq<u8>>::empty());
    } else {
        lemma_names_at_slash(p, e);
        lemma_names_at_slash(rest, 0);
        lemma_names_without_slash(rest.take(0));
        assert(rest.skip(1) == p.skip(e + 1));
        assert(leading(p) == leading(p.take(e)));
        assert(names(rest) == names(p.skip(e + 1)));
    }
}

/// Two paths that begin differently share no leading component.
proof fn lemma_leading_differs(p: Seq<u8>, base: Seq<u8>)
    requires
        base.len() > 0,
        leading(p) != leading(base),
    ensures
        !components(base).is_prefix_of(components(p)),
{
    lemma_components_empty(base);
    lemma_names_are_plain(p);
    lemma_names_are_plain(base);
    if components(base).is_prefix_of(components(p)) {
        assert(components(base)[0] == components(p)[0]);
        assert(seq![SLASH].contains(SLASH)) by {
            assert(seq![SLASH][0] == SLASH);
        }
        if leading(base).len() == 0 {
            assert(components(base)[0] == names(base)[0]);
            assert(components(p)[0] == leading(p)[0]);
        } else {
            assert(components(base)[0] == leading(base)[0]);
            if leading(p).len() == 0 {
                assert(components(p)[0] == names(p)[0]);
            } else {
                assert(components(p)[0] == leading(p)[0]);
                assert(leading(p) == leading(base));
            }
        }
    }
}

/// Two paths that begin alike differ in their components where they differ in
/// their names.
proof fn lemma_names_differ(p: Seq<u8>, base: Seq<u8>)
    requires
        leading(p) == leading(base),
        !names(base).is_prefix_of(names(p)),
    ensures
        !components(base).is_prefix_of(components(p)),
{
    let l = leading(p).len() as int;
    if components(base).is_prefix_of(components(p)) {
        assert(names(base) == components(base).skip(l));
        assert(names(p) == components(p).skip(l));
        assert(names(base).is_prefix_of(names(p)));
    }
}

fn same_bytes(a: &[u8], b: &[u8]) -> (r: bool)
    ensures
        r == (a@ == b@),
{
    if a.len() != b.len() {
        return false;
    }
    let mut i: usize = 0;
    while i < a.len()
        invariant
            i <= a@.len(),
            a@.len() == b@.len(),
            forall|j: int| 0 <= j < i ==> a@[j] == b@[j],
        decreases a@.len() - i,
    {
        if a[i] != b[i] {
            return false;
        }
        i = i + 1;
    }
    assert(a@ == b@);
    true
}

/// Finds the next name at or behind `from`, where no name is cut: returns where
/// it begins and ends. If there is none, it returns the end of `p` for both.
fn next_name(p: &[u8], from: usize) -> (r: (usize, usize))
    requires
        from <= p@.len(),
        from == 0 || from == p@.len() || p@[from as int] == SLASH,
    ensures
        from <= r.0 <= r.1 <= p@.len(),
        r.0 == r.1 ==> names(p@.skip(from as int)).len() == 0,
        r.0 < r.1 ==> {
            &&& names(p@.skip(from as int)) == seq![p@.subrange(r.0 as int, r.1 as int)] + names(
                p@.skip(r.1 as int),
            )
            &&& r.1 == p@.len() || p@[r.1 as int] == SLASH
            &&& !idle_end(p@.take(r.1 as int))
        },
{
    let mut s: usize = from;
    while s < p.len() && (p[s] == SLASH || (p[s] == DOT && (s + 1 == p.len() || p[s + 1]
        == SLASH)))
        invariant
            from <= s <= p@.len(),
            s == 0 || s == p@.len() || p@[s as int] == SLASH || p@[s - 1] == SLASH,
            names(p@.skip(from as int)) == names(p@.skip(s as int)),
        decreases p@.len() - s,
    {
        proof {
            let rest = p@.skip(s as int);
            let tail = p@.skip(s + 1);
            assert(rest.skip(1) == tail);
            lemma_names_without_slash(rest.take(0));
            if rest[0] == SLASH {
                lemma_names_at_slash(rest, 0);
            } else {
                assert(rest.take(1) == seq![DOT]);
                lemma_names_without_slash(rest.take(1));
                if s + 1 == p@.len() {
                    assert(rest.take(1) == rest);
                    lemma_names_without_slash(tail);
                } else {
                    lemma_names_at_slash(rest, 1);
                    lemma_names_at_slash(tail, 0);
                    assert(tail.skip(1) == rest.skip(2));
                    lemma_names_without_slash(tail.take(0));
                }
            }
        }
        s = s + 1;
    }
    let mut e: usize = s;
    while e < p.len() && p[e] != SLASH
        invariant
            s <= e <= p@.len(),
            forall|j: int| s <= j < e ==> p@[j] != SLASH,
        decreases p@.len() - e,
    {
        e = e + 1;
    }
    proof {
        let rest = p@.skip(s as int);
        if s == p@.len() {
            lemma_names_without_slash(rest);
        } else {
            let x = p@.subrange(s as int, e as int);
            let d = e - s;
            assert(s < e);
            assert(x == rest.take(d));
            lemma_names_without_slash(x);
            if e < p@.len() {
                let tail = p@.skip(e as int);
                lemma_names_at_slash(rest, d);
                assert(rest.skip(d + 1) == tail.skip(1));
                lemma_names_at_slash(tail, 0);
                lemma_names_without_slash(tail.take(0));
            } else {
                assert(x == rest);
                lemma_names_without_slash(p@.skip(e as int));
            }
            if x == seq![DOT] {
                assert(x[0] == DOT && x.len() == 1);
            }
            assert(piece(x) == seq![x]);
        }
    }
    (s, e)
}

/// Whether two paths begin alike: both at the root, both with `.`, or neither.
fn same_leading(a: &[u8], b: &[u8]) -> (r: bool)
    ensures
        r == (leading(a@) == leading(b@)),
{
    let a_root: bool = is_absolute(a);
    let b_root: bool = is_absolute(b);
    let a_dot: bool = a.len() > 0 && a[0] == DOT && (a.len() == 1 || a[1] == SLASH);
    let b_dot: bool = b.len() > 0 && b[0] == DOT && (b.len() == 1 || b[1] == SLASH);
    proof {
        assert(seq![SLASH][0] != seq![DOT][0]);
        assert(seq![seq![SLASH]][0] != seq![seq![DOT]][0]);
        assert(seq![seq![SLASH]].len() == 1 && seq![seq![DOT]].len() == 1);
    }
    a_root == b_root && a_dot == b_dot
}

/// A prefix with all components of `p` reaches to every byte that is not idle.
proof fn lemma_prefix_holds(p: Seq<u8>, e: int, n: int)
    requires
        0 < e <= p.len(),
        0 <= n <= p.len(),
        !idle_end(p.take(e)),
        components(p.take(n)) == components(p),
    ensures
        e <= n,
{
    if n < e {
        let q = p.take(e);
        lemma_weight_step(q);
        lemma_weight_grows(q.drop_last(), n);
        assert(q.drop_last().take(n) == p.take(n));
        lemma_weight_grows(p, e);
    }
}

/// The first component of a path begins where the path does.
proof fn lemma_first_component(p: Seq<u8>)
    requires
        p.len() > 0,
    ensures
        components(p).len() > 0,
        extent(p, 1) == components(p)[0].len(),
        p.take(extent(p, 1)) == components(p)[0],
{
    lemma_components_empty(p);
    lemma_extent(p, 1);
    let n = extent(p, 1);
    let q = p.take(n);
    let c = components(p)[0];
    assert(components(q) == seq![c]);
    lemma_components_empty(q);
    lemma_last_byte(q);
    assert(q.drop_last() == p.take(n - 1));
    if q.last() == SLASH {
        assert(q[0] == SLASH);
        assert(c == leading(q)[0]);
        assert(q == c);
    } else {
        let i = last_slash(q) + 1;
        lemma_last_slash(q);
        lemma_last_component(q, i);
        assert(components(q.take(i)).len() == 0);
        lemma_components_empty(q.take(i));
        assert(q.skip(i) == q);
        assert(components(q).last() == q);
        assert(components(q).last() == c);
    }
}

/// Skips the names of `base` at the start of `p`, and returns where the names
/// behind them are read. None if `p` does not begin with the names of `base`.
fn skip_names(p: &[u8], base: &[u8]) -> (r: Option<usize>)
    ensures
        match r {
            Some(i) => {
                &&& i <= p@.len()
                &&& i == 0 || i == p@.len() || p@[i as int] == SLASH
                &&& names(p@) == names(base@) + names(p@.skip(i as int))
            },
            None => !names(base@).is_prefix_of(names(p@)),
        },
{
    let ghost mut done: Seq<Seq<u8>> = seq![];
    let mut i: usize = 0;
    let mut j: usize = 0;
    proof {
        assert(p@.skip(0) == p@);
        assert(base@.skip(0) == base@);
    }
    loop
        invariant
            i <= p@.len(),
            j <= base@.len(),
            i == 0 || i == p@.len() || p@[i as int] == SLASH,
            j == 0 || j == base@.len() || base@[j as int] == SLASH,
            names(p@) == done + names(p@.skip(i as int)),
            names(base@) == done + names(base@.skip(j as int)),
        decreases base@.len() - j,
    {
        let (bs, be): (usize, usize) = next_name(base, j);
        if bs == be {
            assert(names(base@) == done);
            return Some(i);
        }
        let (ps, pe): (usize, usize) = next_name(p, i);
        let ghost y = base@.subrange(bs as int, be as int);
        let ghost x = p@.subrange(ps as int, pe as int);
        let ghost at = done.len() as int;
        assert(names(base@)[at] == y);
        if ps == pe {
            assert(names(p@).len() == at);
            return None;
        }
        assert(names(p@)[at] == x);
        if !same_bytes(slice_subrange(p, ps, pe), slice_subrange(base, bs, be)) {
            return None;
        }
        proof {
            done = done.push(x);
        }
        i = pe;
        j = be;
    }
}

/// Where the rest of a path begins behind its first `k` components, if `i` is
/// where the names behind them are read and the first of them is `p[s..e]`.
proof fn lemma_rest_begins(p: Seq<u8>, k: int, i: int, s: int, e: int)
    requires
        0 <= i <= s < e <= p.len(),
        e == p.len() || p[e] == SLASH,
        !idle_end(p.take(e)),
        names(p.skip(i)) == seq![p.subrange(s, e)] + names(p.skip(e)),
        0 <= k <= components(p).len(),
        components(p).skip(k) == names(p.skip(i)),
    ensures
        k < components(p).len(),
        components(p)[k] == p.subrange(s, e),
        extent(p, k + 1) == e,
{
    let rest = names(p.skip(e));
    lemma_components_at_end(p, e);
    assert(components(p).skip(k).len() == rest.len() + 1);
    assert(components(p)[k] == components(p).skip(k)[0]);
    assert(components(p.take(e)).len() == k + 1);
    assert(components(p.take(e)) == components(p).take(k + 1));
    lemma_extent_at(p, k + 1, e);
}

/// A path that begins as `base` does, and goes on with its names, has the
/// components of `base` as its first.
proof fn lemma_components_split(p: Seq<u8>, base: Seq<u8>, i: int)
    requires
        0 <= i <= p.len(),
        leading(p) == leading(base),
        names(p) == names(base) + names(p.skip(i)),
    ensures
        components(base).is_prefix_of(components(p)),
        components(p).skip(components(base).len() as int) == names(p.skip(i)),
{
    assert(components(p) == components(base) + names(p.skip(i)));
}

/// What is left of `p` behind the components of `base`, as a part of `p`.
pub fn strip_prefix<'a>(p: &'a [u8], base: &[u8]) -> (r: Option<&'a [u8]>)
    ensures
        match r {
            Some(q) => relative_to(p@, base@) == Some(q@),
            None => relative_to(p@, base@) is None,
        },
{
    let end: usize = settle(p, p.len());
    proof {
        assert(p@.take(p@.len() as int) == p@);
        assert(components(p@).take(components(p@).len() as int) == components(p@));
        lemma_extent_at(p@, components(p@).len() as int, end as int);
    }
    if base.len() == 0 {
        proof {
            lemma_components_empty(base@);
            lemma_components_empty(p@);
            if p@.len() > 0 {
                lemma_first_component(p@);
            }
        }
        return Some(slice_subrange(p, 0, end));
    }
    if !same_leading(p, base) {
        proof {
            lemma_leading_differs(p@, base@);
        }
        return None;
    }
    let i: usize = match skip_names(p, base) {
        Some(i) => i,
        None => {
            proof {
                lemma_names_differ(p@, base@);
            }
            return None;
        },
    };
    let (s, e): (usize, usize) = next_name(p, i);
    proof {
        lemma_components_split(p@, base@, i as int);
    }
    if s == e {
        return Some(slice_subrange(p, 0, 0));
    }
    proof {
        let k = components(base@).len() as int;
        lemma_rest_begins(p@, k, i as int, s as int, e as int);
        lemma_prefix_holds(p@, e as int, end as int);
    }
    Some(slice_subrange(p, s, end))
}

/// An ancestor is a prefix of the path, and lacks the last components.
pub proof fn lemma_ancestor(p: Seq<u8>, i: int)
    requires
        0 <= i < ancestors(p).len(),
    ensures
        ancestors(p)[i].len() <= p.len(),
        ancestors(p)[i] == p.take(ancestors(p)[i].len() as int),
        i <= components(p).len(),
        components(ancestors(p)[i]) == components(p).take(components(p).len() - i),
    decreases p.len(),
{
    if i == 0 {
        assert(p.take(p.len() as int) == p);
        assert(components(p).take(components(p).len() as int) == components(p));
    } else {
        lemma_parent(p);
        let q = parent_of(p)->0;
        lemma_ancestor(q, i - 1);
        let a = ancestors(q)[i - 1];
        assert(ancestors(p)[i] == a);
        assert(q.take(a.len() as int) == p.take(a.len() as int));
        assert(components(q).take(components(q).len() - (i - 1)) == components(p).take(
            components(p).len() - i,
        ));
    }
}

/// A relative path adds its names to the components of the base.
pub proof fn lemma_joined_components(base: Seq<u8>, p: Seq<u8>)
    requires
        base.len() > 0,
        !absolute(p),
    ensures
        components(joined(base, p)) == components(base) + names(p),
{
    let whole = joined(base, p);
    let e = if base.last() != SLASH {
        base.len() as int
    } else {
        base.len() - 1
    };
    let tail = whole.skip(e);
    assert(whole[e] == SLASH);
    lemma_names_at_slash(tail, 0);
    lemma_names_without_slash(tail.take(0));
    assert(tail.skip(1) == p);
    assert(names(tail) == names(p));
    if e > 0 {
        lemma_components_at_end(whole, e);
        assert(whole.take(e) == base.take(e));
        if e < base.len() {
            lemma_last_byte(base);
            assert(base.take(e) == base.drop_last());
        } else {
            assert(base.take(e) == base);
        }
    } else {
        assert(tail == whole);
        lemma_names_at_slash(base, 0);
        lemma_names_without_slash(base.take(0));
        lemma_names_without_slash(base.skip(1));
        assert(base[0] == SLASH && whole[0] == SLASH);
        assert(components(base) == seq![seq![SLASH]]);
    }
}

/// Where a component that is not the first begins.
proof fn lemma_component_start(p: Seq<u8>, k: int)
    requires
        0 < k < components(p).len(),
    ensures
        ({
            let e = extent(p, k + 1);
            let x = components(p)[k];
            let i = e - x.len();
            &&& 0 < i < e <= p.len()
            &&& p[i - 1] == SLASH
            &&& p.subrange(i, e) == x
            &&& !x.contains(SLASH)
            &&& components(p.take(i)) == components(p).take(k)
            &&& !idle_end(p.take(e))
        }),
{
    lemma_extent(p, k + 1);
    let e = extent(p, k + 1);
    let x = components(p)[k];
    let q = p.take(e);
    lemma_components_empty(q);
    lemma_last_byte(q);
    assert(q.drop_last() == p.take(e - 1));
    assert(!idle_end(q));
    if q.last() == SLASH {
        assert(q.len() == 1);
        lemma_names_at_slash(q, 0);
        lemma_names_without_slash(q.take(0));
        lemma_names_without_slash(q.skip(1));
        assert(components(q).len() == 1);
    }
    let i = last_slash(q) + 1;
    lemma_last_slash(q);
    lemma_last_component(q, i);
    assert(components(q).last() == q.skip(i));
    assert(components(q).last() == x);
    assert(components(q.take(i)) == components(q).drop_last());
    assert(components(p).take(k + 1).drop_last() == components(p).take(k));
    lemma_components_empty(q.take(i));
    assert(q.take(i) == p.take(i));
    assert(q.skip(i) == p.subrange(i, e));
}

/// The text from the start of a component on has the names from there on.
proof fn lemma_names_from(p: Seq<u8>, k: int, i: int)
    requires
        0 < i <= p.len(),
        p[i - 1] == SLASH,
        0 <= k <= components(p).len(),
        components(p.take(i)) == components(p).take(k),
    ensures
        names(p.skip(i)) == components(p).skip(k),
{
    let head = p.take(i);
    lemma_names_at_slash(p, i - 1);
    lemma_names_at_slash(head, i - 1);
    lemma_names_without_slash(head.skip(i));
    assert(head.take(i - 1) == p.take(i - 1));
    assert(names(head) == names(p.take(i - 1)));
    assert(leading(head) == leading(p));
    assert(components(p) == components(head) + names(p.skip(i)));
    assert(names(p.skip(i)) == components(p).skip(k));
}

/// What is left behind a base that is not empty holds the other components as
/// its names, and nothing precedes them.
pub proof fn lemma_relative(p: Seq<u8>, base: Seq<u8>)
    requires
        base.len() > 0,
    ensures
        relative_to(p, base) matches Some(r) ==> {
            &&& leading(r).len() == 0
            &&& components(r) == components(p).skip(components(base).len() as int)
        },
{
    if relative_to(p, base) is Some {
        let k = components(base).len() as int;
        let n = components(p).len() as int;
        let r = relative_to(p, base)->0;
        if k == n {
            lemma_names_without_slash(r);
            assert(components(r) == components(p).skip(k));
        } else {
            lemma_components_empty(base);
            lemma_component_start(p, k);
            lemma_extent(p, n);
            let end = extent(p, n);
            let e = extent(p, k + 1);
            let x = components(p)[k];
            let i = e - x.len();
            assert(components(p).take(n) == components(p));
            lemma_prefix_holds(p, e, end);
            let t = p.take(end);
            assert(r == t.skip(i));
            assert(t.take(i) == p.take(i));
            lemma_names_from(t, k, i);
            assert(x.contains(x[0]));
            assert(r[0] == x[0]);
            if r[0] == DOT && (r.len() == 1 || r[1] == SLASH) {
                if x.len() > 1 {
                    assert(x.contains(x[1]));
                    assert(r[1] == x[1]);
                }
                assert(idle_end(p.take(e)));
            }
            assert(components(r) == names(r));
        }
    }
}

/// Behind the empty path, all components are left.
pub proof fn lemma_relative_to_empty(p: Seq<u8>)
    ensures
        relative_to(p, seq![]) matches Some(r) && components(r) == components(p),
{
    let base = Seq::<u8>::empty();
    let n = components(p).len() as int;
    lemma_components_empty(base);
    lemma_components_empty(p);
    if p.len() > 0 {
        lemma_first_component(p);
        lemma_extent(p, n);
        assert(components(p).take(n) == components(p));
        assert(p.subrange(0, extent(p, n)) == p.take(extent(p, n)));
    } else {
        assert(p == Seq::<u8>::empty());
    }
}

/// The text of a path up to where its last component ends.
pub open spec fn without_tail(p: Seq<u8>) -> Seq<u8> {
    p.take(extent(p, components(p).len() as int))
}

/// Behind a base, the components of a path end as far along as they do in the
/// path alone.
proof fn lemma_extent_behind(base: Seq<u8>, p: Seq<u8>, j: int)
    requires
        base.len() > 0,
        leading(p).len() == 0,
        0 < j <= components(p).len(),
    ensures
        extent(joined(base, p), components(base).len() + j) == joined(base, p).len() - p.len()
            + extent(p, j),
{
    let whole = joined(base, p);
    let before = whole.len() - p.len();
    let k = components(base).len() as int;
    lemma_extent(p, j);
    let d = extent(p, j);
    let q = p.take(d);
    lemma_names_are_plain(p);
    lemma_components_empty(q);
    assert(components(p) == names(p));
    assert(components(q)[0] == names(p)[0]);
    assert(leading(q).len() == 0) by {
        if leading(q).len() > 0 {
            assert(q[0] == p[0]);
            assert(components(q)[0] == leading(q)[0]);
        }
    }
    lemma_last_byte(q);
    assert(q.drop_last() == p.take(d - 1));
    assert(!idle_end(q));
    lemma_joined_components(base, p);
    lemma_joined_components(base, q);
    assert(joined(base, q) == whole.take(before + d));
    assert(components(q) == names(q));
    assert(components(whole.take(before + d)) == components(whole).take(k + j));
    let w = whole.take(before + d);
    assert(w.last() == q.last());
    if d == 1 {
        assert(q[0] == q.last());
    } else {
        assert(w[w.len() - 2] == q[q.len() - 2]);
    }
    lemma_extent_at(whole, k + j, before + d);
}

/// A path that is joined to a base is what is left behind the base, but for
/// separators and `.` at its end.
proof fn lemma_relative_of_joined(base: Seq<u8>, p: Seq<u8>)
    requires
        base.len() == 0 || leading(p).len() == 0,
        !absolute(p),
    ensures
        relative_to(joined(base, p), base) == Some(without_tail(p)),
{
    let whole = joined(base, p);
    let m = components(p).len() as int;
    let k = components(base).len() as int;
    lemma_components_empty(base);
    lemma_components_empty(p);
    lemma_extent(p, m);
    if base.len() == 0 {
        assert(whole == p);
        if p.len() > 0 {
            lemma_first_component(p);
            assert(p.subrange(0, extent(p, m)) == without_tail(p));
        } else {
            assert(without_tail(p) == Seq::<u8>::empty());
        }
    } else {
        lemma_joined_components(base, p);
        assert(components(p) == names(p));
        if m == 0 {
            assert(without_tail(p) == Seq::<u8>::empty());
        } else {
            lemma_first_component(p);
            lemma_extent_behind(base, p, 1);
            lemma_extent_behind(base, p, m);
            let before = whole.len() - p.len();
            assert(components(whole)[k] == components(p)[0]);
            assert(whole.subrange(before, before + extent(p, m)) == without_tail(p));
        }
    }
}

/// The text of a path from its first name on.
pub open spec fn without_leading(p: Seq<u8>) -> Seq<u8>
    decreases p.len(),
{
    if leading(p).len() > 0 {
        without_leading(p.skip(1))
    } else {
        p
    }
}

/// Behind a base that ends with a separator, a text begins with its first name.
proof fn lemma_relative_behind(base: Seq<u8>, head: Seq<u8>, p: Seq<u8>)
    requires
        head.len() > 0,
        head.last() == SLASH,
        components(head) == components(base),
    ensures
        relative_to(head + p, base) == Some(without_tail(without_leading(p))),
    decreases p.len(),
{
    if leading(p).len() == 0 {
        assert(head + p == joined(head, p));
        lemma_relative_of_joined(head, p);
    } else {
        let rest = p.skip(1);
        let longer = head.push(p[0]);
        lemma_last_byte(longer);
        assert(longer.drop_last() == head);
        if p[0] == SLASH {
            assert(head + p == longer + rest);
            lemma_relative_behind(base, longer, rest);
        } else if p.len() == 1 {
            assert(head + p == longer);
            assert(rest == Seq::<u8>::empty());
            assert(without_leading(rest) == rest);
            lemma_components_empty(rest);
            lemma_extent(rest, 0);
            assert(without_tail(rest) == Seq::<u8>::empty());
        } else {
            let longest = longer.push(SLASH);
            lemma_last_byte(longest);
            assert(longest.drop_last() == longer);
            assert(rest[0] == SLASH);
            assert(without_leading(rest) == without_leading(rest.skip(1)));
            assert(head + p == longest + rest.skip(1));
            lemma_relative_behind(base, longest, rest.skip(1));
        }
    }
}

/// What is left behind a base of a path that is joined to it: the path from its
/// first name to where its last component ends. Behind the empty base, the path
/// keeps its start.
pub proof fn lemma_relative_of_any_joined(base: Seq<u8>, p: Seq<u8>)
    requires
        !absolute(p),
    ensures
        relative_to(joined(base, p), base) == Some(
            if base.len() == 0 {
                without_tail(p)
            } else {
                without_tail(without_leading(p))
            },
        ),
{
    if base.len() == 0 {
        lemma_relative_of_joined(base, p);
    } else if base.last() == SLASH {
        lemma_relative_behind(base, base, p);
    } else {
        let head = base.push(SLASH);
        lemma_last_byte(head);
        assert(head.drop_last() == base);
        lemma_relative_behind(base, head, p);
    }
}

/// Whether two paths have the same components: whether they are two spellings
/// of one path.
pub fn same_components(a: &[u8], b: &[u8]) -> (r: bool)
    ensures
        r == (components(a@) == components(b@)),
{
    let r: bool = strip_prefix(a, b).is_some() && strip_prefix(b, a).is_some();
    proof {
        if r {
            assert(components(a@) == components(b@));
        }
    }
    r
}

/// A text without separators is one component, unless it is empty.
pub proof fn law_name_is_one_component(x: Seq<u8>)
    requires
        !x.contains(SLASH),
    ensures
        x.len() == 0 ==> components(x) == Seq::<Seq<u8>>::empty(),
        x.len() > 0 ==> components(x) == seq![x],
{
    assert forall|j: int| 0 <= j < x.len() implies x[j] != SLASH by {
        assert(x.contains(x[j]));
    }
    lemma_names_without_slash(x);
    if x.len() == 1 && x[0] == DOT {
        assert(x == seq![DOT]);
        assert(components(x) == seq![x]);
    } else if x.len() > 0 {
        assert(components(x) == seq![x]);
    }
}

/// A separator and a name behind a path add that name to its components, unless
/// the name is empty or `.`. Behind nothing, the separator is the root.
pub proof fn law_name_extends_path(p: Seq<u8>, x: Seq<u8>)
    requires
        !x.contains(SLASH),
    ensures
        p.len() == 0 && (x.len() == 0 || x == seq![DOT]) ==> components(p.push(SLASH) + x)
            == seq![seq![SLASH]],
        p.len() == 0 && !(x.len() == 0 || x == seq![DOT]) ==> components(p.push(SLASH) + x)
            == seq![seq![SLASH], x],
        p.len() > 0 && (x.len() == 0 || x == seq![DOT]) ==> components(p.push(SLASH) + x)
            == components(p),
        p.len() > 0 && !(x.len() == 0 || x == seq![DOT]) ==> components(p.push(SLASH) + x)
            == components(p).push(x),
{
    let whole = p.push(SLASH) + x;
    let at = p.len() as int;
    assert forall|j: int| 0 <= j < x.len() implies x[j] != SLASH by {
        assert(x.contains(x[j]));
    }
    assert(whole[at] == SLASH);
    assert(whole.take(at) == p);
    assert(whole.skip(at + 1) == x);
    lemma_names_at_slash(whole, at);
    lemma_names_without_slash(x);
    assert(x.len() == 1 && x[0] == DOT ==> x == seq![DOT]);
    assert(names(whole) == names(p) + piece(x));
    if p.len() == 0 {
        lemma_names_without_slash(p);
        assert(leading(whole) == seq![seq![SLASH]]);
        if x.len() == 0 || x == seq![DOT] {
            assert(components(whole) == seq![seq![SLASH]]);
        } else {
            assert(components(whole) == seq![seq![SLASH], x]);
        }
    } else {
        assert(leading(whole) == leading(p));
        if x.len() == 0 || x == seq![DOT] {
            assert(components(whole) == components(p));
        } else {
            assert(components(whole) == components(p).push(x));
        }
    }
}

/// A path is absolute exactly where its first byte is `/`, and its first component
/// is the root.
pub proof fn law_absolute_path_begins_at_root(p: Seq<u8>)
    ensures
        absolute(p) <==> p.len() > 0 && p[0] == 0x2f,
        absolute(p) <==> components(p).len() > 0 && components(p)[0] == seq![SLASH],
{
    lemma_names_are_plain(p);
    assert(seq![SLASH].contains(SLASH)) by {
        assert(seq![SLASH][0] == SLASH);
    }
    if components(p).len() > 0 && components(p)[0] == seq![SLASH] {
        if leading(p).len() == 0 {
            assert(components(p)[0] == names(p)[0]);
        } else if !absolute(p) {
            assert(components(p)[0] == seq![DOT]);
            assert(seq![DOT][0] == DOT);
        }
    }
}

/// An absolute path replaces what it is joined to. Any other is put behind it, as
/// it is, with at most one byte between them: a separator, where the first is not
/// empty and does not end with one.
pub proof fn law_joined_text(base: Seq<u8>, p: Seq<u8>)
    ensures
        absolute(p) ==> joined(base, p) == p,
        !absolute(p) ==> {
            let whole = joined(base, p);
            let between = whole.len() - base.len() - p.len();
            &&& base.is_prefix_of(whole)
            &&& whole.skip(base.len() + between) == p
            &&& between == 0 || between == 1
            &&& between == 1 <==> base.len() > 0 && base.last() != SLASH
            &&& between == 1 ==> whole[base.len() as int] == SLASH
        },
{
}

/// A path joined to another that is not empty adds its components, but for a `.`
/// at its start.
pub proof fn law_joined_components(base: Seq<u8>, p: Seq<u8>)
    requires
        !absolute(p),
    ensures
        base.len() == 0 ==> components(joined(base, p)) == components(p),
        base.len() > 0 && components(p).len() > 0 && components(p)[0] == seq![DOT] ==> components(
            joined(base, p),
        ) == components(base) + components(p).skip(1),
        base.len() > 0 && !(components(p).len() > 0 && components(p)[0] == seq![DOT])
            ==> components(joined(base, p)) == components(base) + components(p),
{
    lemma_names_are_plain(p);
    if base.len() == 0 {
        assert(joined(base, p) == p);
    } else {
        lemma_joined_components(base, p);
        if leading(p).len() > 0 {
            assert(components(p)[0] == seq![DOT]);
            assert(components(p).skip(1) == names(p));
        } else {
            assert(components(p) == names(p));
        }
    }
}

/// A path has no parent exactly where it has no components or is the root. Else
/// its parent is the shortest prefix of it that has all components but the last.
pub proof fn law_parent(p: Seq<u8>)
    ensures
        parent_of(p) is None <==> components(p) == Seq::<Seq<u8>>::empty() || components(p)
            == seq![seq![SLASH]],
        parent_of(p) matches Some(q) ==> {
            &&& q.is_prefix_of(p)
            &&& components(q) == components(p).drop_last()
            &&& forall|m: int|
                0 <= m < q.len() ==> components(#[trigger] p.take(m)) != components(p).drop_last()
        },
{
    let n = components(p).len();
    lemma_names_are_plain(p);
    if n > 0 && components(p).last() == seq![SLASH] {
        assert(seq![SLASH].contains(SLASH)) by {
            assert(seq![SLASH][0] == SLASH);
        }
        if names(p).len() > 0 {
            assert(components(p).last() == names(p)[names(p).len() - 1]);
        }
        assert(components(p) == seq![seq![SLASH]]);
    }
    if components(p) == seq![seq![SLASH]] {
        assert(components(p).last() == seq![SLASH]);
    }
    if parent_of(p) is Some {
        lemma_parent(p);
        lemma_extent(p, n - 1);
        assert(components(p).take(n - 1) == components(p).drop_last());
    }
}

/// The ancestors of a path reach all the way up. There is one for each number of
/// leading components, down to the root of an absolute path and to the empty path
/// of any other. Each but the path itself is the shortest prefix that has them.
pub proof fn law_ancestors(p: Seq<u8>)
    ensures
        absolute(p) ==> ancestors(p).len() == components(p).len(),
        !absolute(p) ==> ancestors(p).len() == components(p).len() + 1,
        ancestors(p)[0] == p,
        forall|i: int|
            0 <= i < ancestors(p).len() ==> components(#[trigger] ancestors(p)[i]) == components(
                p,
            ).take(components(p).len() - i),
        forall|i: int|
            0 <= i < ancestors(p).len() ==> (#[trigger] ancestors(p)[i]).is_prefix_of(p),
        forall|i: int, m: int|
            0 < i < ancestors(p).len() && 0 <= m < ancestors(p)[i].len() ==> components(
                #[trigger] p.take(m),
            ) != components(#[trigger] ancestors(p)[i]),
        absolute(p) ==> components(ancestors(p).last()) == seq![seq![SLASH]],
        !absolute(p) ==> ancestors(p).last().len() == 0,
    decreases p.len(),
{
    let up = ancestors(p);
    let n = components(p).len() as int;
    law_parent(p);
    law_absolute_path_begins_at_root(p);
    lemma_parent(p);
    assert forall|i: int| 0 <= i < up.len() implies components(#[trigger] up[i]) == components(
        p,
    ).take(n - i) && up[i].is_prefix_of(p) by {
        lemma_ancestor(p, i);
    }
    if parent_of(p) is None {
        assert(up == seq![p]);
        assert(seq![seq![SLASH]][0] == seq![SLASH]);
        lemma_components_empty(p);
    } else {
        let q = parent_of(p)->0;
        let above = ancestors(q);
        assert(up == seq![p] + above);
        law_ancestors(q);
        law_absolute_path_begins_at_root(q);
        if absolute(p) {
            assert(n > 1) by {
                if n == 1 {
                    assert(components(p) == seq![seq![SLASH]]);
                }
            }
            assert(components(q)[0] == components(p)[0]);
        } else if components(q).len() > 0 {
            assert(components(q)[0] == components(p)[0]);
        }
        assert(up.last() == above.last());
        assert forall|i: int, m: int|
            0 < i < up.len() && 0 <= m < up[i].len() implies components(#[trigger] p.take(m))
            != components(#[trigger] up[i]) by {
            let a = above[i - 1];
            assert(up[i] == a);
            assert(a.is_prefix_of(q));
            if i == 1 {
                assert(a == q);
            } else {
                assert(q.take(m) == p.take(m));
                assert(components(q.take(m)) != components(a));
            }
        }
    }
}

/// A path has a path relative to another exactly where it begins with the
/// components of that other. It holds the components behind them, and is the part
/// of the text that begins with the first of them and goes on to where the last
/// component ends.
pub proof fn law_relative_path_is_the_rest(p: Seq<u8>, base: Seq<u8>)
    ensures
        relative_to(p, base) is Some <==> components(base).is_prefix_of(components(p)),
        relative_to(p, base) matches Some(rest) ==> {
            &&& components(rest) == components(p).skip(components(base).len() as int)
            &&& rest.len() > 0 ==> components(rest).len() > 0 && components(rest)[0].is_prefix_of(
                rest,
            )
            &&& exists|end: int|
                {
                    &&& rest.len() <= end <= p.len()
                    &&& rest == p.subrange(end - rest.len(), end)
                    &&& components(#[trigger] p.take(end)) == components(p)
                    &&& forall|m: int|
                        0 <= m < end ==> components(#[trigger] p.take(m)) != components(p)
                }
        },
{
    if relative_to(p, base) is Some {
        let rest = relative_to(p, base)->0;
        let k = components(base).len() as int;
        let n = components(p).len() as int;
        lemma_components_empty(base);
        if base.len() == 0 {
            assert(base == Seq::<u8>::empty());
            lemma_relative_to_empty(p);
            assert(components(p).skip(0) == components(p));
        } else {
            lemma_relative(p, base);
        }
        lemma_extent(p, n);
        let end = extent(p, n);
        assert(components(p).take(n) == components(p));
        if k == n {
            assert(rest == p.subrange(end - rest.len(), end));
        } else {
            let x = components(p)[k];
            let e = extent(p, k + 1);
            let i = e - x.len();
            assert(components(rest)[0] == x);
            if k == 0 {
                lemma_components_empty(p);
                lemma_first_component(p);
                lemma_extent(p, 1);
                assert(p.subrange(i, e) == x);
                lemma_extent_end_busy(p, 1);
            } else {
                lemma_component_start(p, k);
            }
            lemma_prefix_holds(p, e, end);
            assert(x.is_prefix_of(rest));
            assert(rest == p.subrange(end - rest.len(), end));
        }
        assert(components(p.take(end)) == components(p));
    }
}

/// The last byte of a shortest prefix is not idle.
proof fn lemma_extent_end_busy(p: Seq<u8>, k: int)
    requires
        0 <= k <= components(p).len(),
        extent(p, k) > 0,
    ensures
        !idle_end(p.take(extent(p, k))),
{
    lemma_extent(p, k);
    let n = extent(p, k);
    lemma_last_byte(p.take(n));
    assert(p.take(n).drop_last() == p.take(n - 1));
}

} // verus!
