//! The order in which the report lists files: paths compared component by
//! component, as `std::path::Path` orders them.
use vstd::prelude::*;

verus! {

/// The path separator.
pub const SEPARATOR: u8 = 47;

/// The rank of a byte in the order: the separator comes before every other
/// byte, so that a component sorts before any longer one it is a prefix of.
pub open spec fn byte_rank(c: u8) -> int {
    if c == SEPARATOR {
        0
    } else {
        c as int + 1
    }
}

/// `a` comes strictly before `b`: at the first byte where they differ `a`'s
/// has the lower rank, or `a` is a proper prefix of `b`. On paths without
/// empty or `.` components this is the order of their component lists.
pub open spec fn path_less(a: Seq<u8>, b: Seq<u8>) -> bool
    decreases a.len(),
{
    if a.len() == 0 {
        b.len() > 0
    } else if b.len() == 0 {
        false
    } else if a[0] != b[0] {
        byte_rank(a[0]) < byte_rank(b[0])
    } else {
        path_less(a.drop_first(), b.drop_first())
    }
}

/// No byte string comes before itself, nor before one that comes before it.
pub proof fn lemma_less_asymmetric(a: Seq<u8>, b: Seq<u8>)
    ensures
        path_less(a, b) ==> !path_less(b, a),
        !path_less(a, a),
    decreases a.len(),
{
    if a.len() > 0 && b.len() > 0 && a[0] == b[0] {
        lemma_less_asymmetric(a.drop_first(), b.drop_first());
    }
    if a.len() > 0 {
        lemma_less_asymmetric(a.drop_first(), a.drop_first());
    }
}

/// Of two different byte strings one comes before the other.
pub proof fn lemma_less_total(a: Seq<u8>, b: Seq<u8>)
    ensures
        a != b ==> path_less(a, b) || path_less(b, a),
    decreases a.len(),
{
    if a.len() > 0 && b.len() > 0 && a[0] == b[0] {
        lemma_less_total(a.drop_first(), b.drop_first());
        if a.drop_first() == b.drop_first() {
            assert(a =~= seq![a[0]] + a.drop_first());
            assert(b =~= seq![b[0]] + b.drop_first());
        }
    }
    if a.len() == 0 && b.len() == 0 {
        assert(a =~= b);
    }
}

/// The order is transitive.
pub proof fn lemma_less_transitive(a: Seq<u8>, b: Seq<u8>, c: Seq<u8>)
    requires
        path_less(a, b),
        path_less(b, c),
    ensures
        path_less(a, c),
    decreases a.len(),
{
    if a.len() > 0 && b.len() > 0 && c.len() > 0 && a[0] == b[0] && b[0] == c[0] {
        lemma_less_transitive(a.drop_first(), b.drop_first(), c.drop_first());
    }
}

/// The rank of a byte in the order of paths.
fn rank(c: u8) -> (r: u16)
    ensures
        r as int == byte_rank(c),
{
    if c == SEPARATOR {
        0
    } else {
        c as u16 + 1
    }
}

/// Compares two paths, given as bytes, in the order of paths.
pub fn compare_paths(a: &[u8], b: &[u8]) -> (r: core::cmp::Ordering)
    ensures
        (r == core::cmp::Ordering::Less) == path_less(a@, b@),
        (r == core::cmp::Ordering::Equal) == (a@ == b@),
        (r == core::cmp::Ordering::Greater) == path_less(b@, a@),
{
    proof {
        lemma_less_asymmetric(a@, b@);
        lemma_less_total(a@, b@);
    }
    let mut k: usize = 0;
    assert(a@.skip(0) =~= a@);
    assert(b@.skip(0) =~= b@);
    while k < a.len() && k < b.len() && a[k] == b[k]
        invariant
            k <= a@.len(),
            k <= b@.len(),
            a@.subrange(0, k as int) == b@.subrange(0, k as int),
            path_less(a@, b@) == path_less(a@.skip(k as int), b@.skip(k as int)),
            path_less(b@, a@) == path_less(b@.skip(k as int), a@.skip(k as int)),
        decreases a@.len() - k,
    {
        assert(a@.skip(k as int).drop_first() =~= a@.skip(k + 1));
        assert(b@.skip(k as int).drop_first() =~= b@.skip(k + 1));
        assert(a@.subrange(0, k + 1) =~= a@.subrange(0, k as int).push(a@[k as int]));
        assert(b@.subrange(0, k + 1) =~= b@.subrange(0, k as int).push(b@[k as int]));
        k = k + 1;
    }
    assert(a@.subrange(0, a@.len() as int) =~= a@);
    assert(b@.subrange(0, b@.len() as int) =~= b@);
    if k == a.len() && k == b.len() {
        core::cmp::Ordering::Equal
    } else if k == a.len() {
        assert(a@.skip(k as int).len() == 0);
        core::cmp::Ordering::Less
    } else if k == b.len() {
        assert(b@.skip(k as int).len() == 0);
        assert(a@ != b@ ==> a@.len() != b@.len());
        core::cmp::Ordering::Greater
    } else {
        assert(a@.skip(k as int)[0] == a@[k as int]);
        assert(b@.skip(k as int)[0] == b@[k as int]);
        assert(a@[k as int] != b@[k as int]);
        if rank(a[k]) < rank(b[k]) {
            core::cmp::Ordering::Less
        } else {
            core::cmp::Ordering::Greater
        }
    }
}

/// Whether path `a` comes strictly before path `b`.
pub fn path_before(a: &[u8], b: &[u8]) -> (r: bool)
    ensures
        r == path_less(a@, b@),
{
    match compare_paths(a, b) {
        core::cmp::Ordering::Less => true,
        _ => false,
    }
}

/// Whether `a` and `b` hold the same bytes.
pub fn bytes_equal(a: &[u8], b: &[u8]) -> (r: bool)
    ensures
        r == (a@ == b@),
{
    match compare_paths(a, b) {
        core::cmp::Ordering::Equal => true,
        _ => false,
    }
}

} // verus!
