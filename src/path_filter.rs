//! Which files are scanned, which directories are skipped, and which path is
//! exempt from the policy.
use vstd::prelude::*;
use vstd::string::StringSliceAdditionalSpecFns;

verus! {

/// The path segment of the one module in which logging calls are allowed.
pub const ALLOWED_SEGMENT: &'static str = "src/utils/logging";

/// The extension, with its dot, of the source files that are scanned.
pub const SOURCE_SUFFIX: &'static str = ".rs";

/// `needle` occurs in `hay` starting at byte `i`.
pub open spec fn occurs_at(hay: Seq<u8>, needle: Seq<u8>, i: int) -> bool {
    0 <= i && i + needle.len() <= hay.len() && hay.subrange(i, i + needle.len()) == needle
}

/// `needle` occurs somewhere in `hay`.
pub open spec fn contains_bytes(hay: Seq<u8>, needle: Seq<u8>) -> bool {
    exists|i: int| occurs_at(hay, needle, i)
}

/// `hay` ends with `needle`.
pub open spec fn ends_with_bytes(hay: Seq<u8>, needle: Seq<u8>) -> bool {
    needle.len() <= hay.len() && occurs_at(hay, needle, hay.len() - needle.len())
}

/// The path lies inside the allowed module.
pub open spec fn allowed_location(path: Seq<u8>) -> bool {
    contains_bytes(path, ALLOWED_SEGMENT.spec_bytes())
}

/// A directory of this name is never entered.
pub open spec fn excluded_dir_name(name: Seq<u8>) -> bool {
    name == "target".spec_bytes() || name == ".git".spec_bytes() || name == "node_modules".spec_bytes()
}

/// A file of this name has the source extension: it ends with the suffix and
/// has a non-empty stem before it.
pub open spec fn source_file_name(name: Seq<u8>) -> bool {
    ends_with_bytes(name, SOURCE_SUFFIX.spec_bytes()) && name.len() > SOURCE_SUFFIX.spec_bytes().len()
}

/// Whether `needle` occurs in `hay` at byte `i`.
pub fn matches_at(hay: &[u8], needle: &[u8], i: usize) -> (r: bool)
    ensures
        r == occurs_at(hay@, needle@, i as int),
{
    if i > hay.len() || needle.len() > hay.len() - i {
        return false;
    }
    let mut k: usize = 0;
    while k < needle.len()
        invariant
            k <= needle.len(),
            i + needle.len() <= hay.len(),
            forall|j: int| 0 <= j < k ==> hay@[i + j] == needle@[j],
        decreases needle.len() - k,
    {
        if hay[i + k] != needle[k] {
            assert(hay@.subrange(i as int, i + needle.len())[k as int] != needle@[k as int]);
            return false;
        }
        k = k + 1;
    }
    assert(hay@.subrange(i as int, i + needle.len()) =~= needle@);
    true
}

/// Whether `needle` occurs anywhere in `hay`.
pub fn contains(hay: &[u8], needle: &[u8]) -> (r: bool)
    ensures
        r == contains_bytes(hay@, needle@),
{
    if needle.len() > hay.len() {
        return false;
    }
    let last: usize = hay.len() - needle.len();
    let mut i: usize = 0;
    while i < last
        invariant
            i <= last,
            last == hay.len() - needle.len(),
            forall|j: int| 0 <= j < i ==> !occurs_at(hay@, needle@, j),
        decreases last - i,
    {
        if matches_at(hay, needle, i) {
            return true;
        }
        i = i + 1;
    }
    matches_at(hay, needle, last)
}

/// Whether the path lies inside the allowed module, by a plain test on its
/// text: no path is resolved, so relative and absolute forms both match.
pub fn is_allowed_path(path: &str) -> (r: bool)
    ensures
        r == allowed_location(path.spec_bytes()),
{
    contains(path.as_bytes(), ALLOWED_SEGMENT.as_bytes())
}

/// Whether a directory of this name is pruned from the walk, contents and all.
pub fn is_excluded_dir(name: &str) -> (r: bool)
    ensures
        r == excluded_dir_name(name.spec_bytes()),
{
    let n = name.as_bytes();
    let a = "target".as_bytes();
    let b = ".git".as_bytes();
    let c = "node_modules".as_bytes();
    let r = (n.len() == a.len() && matches_at(n, a, 0)) || (n.len() == b.len() && matches_at(n, b, 0))
        || (n.len() == c.len() && matches_at(n, c, 0));
    proof {
        assert(n@.subrange(0, n@.len() as int) =~= n@);
    }
    r
}

/// Whether a file of this name is a source file to scan.
pub fn is_scan_candidate(file_name: &str) -> (r: bool)
    ensures
        r == source_file_name(file_name.spec_bytes()),
{
    let n = file_name.as_bytes();
    let s = SOURCE_SUFFIX.as_bytes();
    n.len() > s.len() && matches_at(n, s, n.len() - s.len())
}

} // verus!
