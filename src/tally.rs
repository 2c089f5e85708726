//! The number of violations in each file, listed by path.
use vstd::prelude::*;
use vstd::pervasive::VecAdditionalExecFns;
use vstd::utf8::*;
use crate::order::{path_before, bytes_equal, path_less, lemma_less_asymmetric, lemma_less_total, lemma_less_transitive};
use crate::scanner::{views, Violation, ViolationView};

verus! {

broadcast use vstd::utf8::group_utf8_lib;

/// How many violations one file holds.
pub struct FileTally {
    pub file: String,
    pub count: usize,
}

/// The bytes of a file's path, by which tallies are ordered.
pub open spec fn path_key(file: Seq<char>) -> Seq<u8> {
    encode_utf8(file)
}

/// The number of violations in `vs` that belong to `file`.
pub open spec fn count_in(vs: Seq<ViolationView>, file: Seq<char>) -> nat
    decreases vs.len(),
{
    if vs.len() == 0 {
        0
    } else {
        count_in(vs.drop_last(), file) + if vs.last().file == file { 1nat } else { 0nat }
    }
}

/// The sum of the counts of `ts`.
pub open spec fn sum_counts(ts: Seq<FileTally>) -> nat
    decreases ts.len(),
{
    if ts.len() == 0 {
        0
    } else {
        sum_counts(ts.drop_last()) + ts.last().count as nat
    }
}

/// `ts` lists, once each and in the order of paths, every file of `vs` with the
/// number of its violations.
pub open spec fn is_tally_of(ts: Seq<FileTally>, vs: Seq<ViolationView>) -> bool {
    &&& forall|i: int, j: int|
        0 <= i < j < ts.len() ==> path_less(path_key((#[trigger] ts[i]).file@), path_key((#[trigger] ts[j]).file@))
    &&& forall|i: int| 0 <= i < ts.len() ==> (#[trigger] ts[i]).count == count_in(vs, ts[i].file@)
    &&& forall|i: int| 0 <= i < ts.len() ==> (#[trigger] ts[i]).count > 0
    &&& forall|k: int| 0 <= k < vs.len() ==> exists|i: int| 0 <= i < ts.len() && (#[trigger] ts[i]).file@ == (#[trigger] vs[k]).file
}

proof fn lemma_count_none(vs: Seq<ViolationView>, file: Seq<char>)
    requires
        forall|k: int| 0 <= k < vs.len() ==> (#[trigger] vs[k]).file != file,
    ensures
        count_in(vs, file) == 0,
    decreases vs.len(),
{
    if vs.len() > 0 {
        assert forall|k: int| 0 <= k < vs.drop_last().len() implies (#[trigger] vs.drop_last()[k]).file != file by {
            assert(vs.drop_last()[k] == vs[k]);
        }
        lemma_count_none(vs.drop_last(), file);
    }
}

proof fn lemma_count_bound(vs: Seq<ViolationView>, file: Seq<char>)
    ensures
        count_in(vs, file) <= vs.len(),
    decreases vs.len(),
{
    if vs.len() > 0 {
        lemma_count_bound(vs.drop_last(), file);
    }
}

proof fn lemma_sum_update(ts: Seq<FileTally>, j: int, t: FileTally)
    requires
        0 <= j < ts.len(),
    ensures
        sum_counts(ts.update(j, t)) == sum_counts(ts) - ts[j].count + t.count,
    decreases ts.len(),
{
    if j < ts.len() - 1 {
        assert(ts.update(j, t).drop_last() =~= ts.drop_last().update(j, t));
        lemma_sum_update(ts.drop_last(), j, t);
    } else {
        assert(ts.update(j, t).drop_last() =~= ts.drop_last());
    }
}

proof fn lemma_sum_insert(ts: Seq<FileTally>, j: int, t: FileTally)
    requires
        0 <= j <= ts.len(),
    ensures
        sum_counts(ts.insert(j, t)) == sum_counts(ts) + t.count,
    decreases ts.len(),
{
    if j < ts.len() {
        assert(ts.insert(j, t).drop_last() =~= ts.drop_last().insert(j, t));
        lemma_sum_insert(ts.drop_last(), j, t);
    } else {
        assert(ts.insert(j, t).drop_last() =~= ts);
    }
}

/// The number of entries of `ts` for `file`.
pub open spec fn entries_for(ts: Seq<FileTally>, file: Seq<char>) -> nat
    decreases ts.len(),
{
    if ts.len() == 0 {
        0
    } else {
        entries_for(ts.drop_last(), file) + if ts.last().file@ == file { 1nat } else { 0nat }
    }
}

/// The sum, over the entries of `ts`, of the violations of `vs` in each
/// entry's file.
pub open spec fn sum_of_counts_in(ts: Seq<FileTally>, vs: Seq<ViolationView>) -> nat
    decreases ts.len(),
{
    if ts.len() == 0 {
        0
    } else {
        sum_of_counts_in(ts.drop_last(), vs) + count_in(vs, ts.last().file@)
    }
}

/// Some entry of `ts` is for `file`.
pub open spec fn listed(ts: Seq<FileTally>, file: Seq<char>) -> bool {
    exists|i: int| 0 <= i < ts.len() && (#[trigger] ts[i]).file@ == file
}

proof fn lemma_sum_is_sum_of_counts_in(ts: Seq<FileTally>, vs: Seq<ViolationView>)
    requires
        forall|i: int| 0 <= i < ts.len() ==> (#[trigger] ts[i]).count == count_in(vs, ts[i].file@),
    ensures
        sum_counts(ts) == sum_of_counts_in(ts, vs),
    decreases ts.len(),
{
    if ts.len() > 0 {
        assert(ts.last() == ts[ts.len() - 1]);
        assert forall|i: int| 0 <= i < ts.drop_last().len() implies (#[trigger] ts.drop_last()[i]).count
            == count_in(vs, ts.drop_last()[i].file@) by {
            assert(ts.drop_last()[i] == ts[i]);
        }
        lemma_sum_is_sum_of_counts_in(ts.drop_last(), vs);
    }
}

proof fn lemma_sum_drop_violation(ts: Seq<FileTally>, vs: Seq<ViolationView>)
    requires
        vs.len() > 0,
    ensures
        sum_of_counts_in(ts, vs) == sum_of_counts_in(ts, vs.drop_last()) + entries_for(ts, vs.last().file),
    decreases ts.len(),
{
    if ts.len() > 0 {
        lemma_sum_drop_violation(ts.drop_last(), vs);
    }
}

proof fn lemma_one_entry(ts: Seq<FileTally>, file: Seq<char>)
    requires
        forall|i: int, j: int| 0 <= i < j < ts.len() ==> (#[trigger] ts[i]).file@ != (#[trigger] ts[j]).file@,
    ensures
        listed(ts, file) ==> entries_for(ts, file) == 1,
        (forall|i: int| 0 <= i < ts.len() ==> (#[trigger] ts[i]).file@ != file) ==> entries_for(ts, file) == 0,
    decreases ts.len(),
{
    if ts.len() > 0 {
        let rest = ts.drop_last();
        assert forall|i: int, j: int| 0 <= i < j < rest.len() implies (#[trigger] rest[i]).file@ != (#[trigger] rest[j]).file@ by {
            assert(rest[i] == ts[i] && rest[j] == ts[j]);
        }
        lemma_one_entry(rest, file);
        assert(ts.last() == ts[ts.len() - 1]);
        if listed(ts, file) {
            let i = choose|i: int| 0 <= i < ts.len() && (#[trigger] ts[i]).file@ == file;
            if i == ts.len() - 1 {
                assert forall|k: int| 0 <= k < rest.len() implies (#[trigger] rest[k]).file@ != file by {
                    assert(rest[k] == ts[k]);
                }
            } else {
                assert(rest[i] == ts[i]);
            }
        }
        if forall|i: int| 0 <= i < ts.len() ==> (#[trigger] ts[i]).file@ != file {
            assert forall|k: int| 0 <= k < rest.len() implies (#[trigger] rest[k]).file@ != file by {
                assert(rest[k] == ts[k]);
            }
        }
    }
}

proof fn lemma_sum_of_counts_in_empty(ts: Seq<FileTally>, vs: Seq<ViolationView>)
    requires
        vs.len() == 0,
    ensures
        sum_of_counts_in(ts, vs) == 0,
    decreases ts.len(),
{
    if ts.len() > 0 {
        lemma_sum_of_counts_in_empty(ts.drop_last(), vs);
    }
}

proof fn lemma_sum_of_counts_in_covering(ts: Seq<FileTally>, vs: Seq<ViolationView>)
    requires
        forall|i: int, j: int| 0 <= i < j < ts.len() ==> (#[trigger] ts[i]).file@ != (#[trigger] ts[j]).file@,
        forall|k: int| 0 <= k < vs.len() ==> listed(ts, (#[trigger] vs[k]).file),
    ensures
        sum_of_counts_in(ts, vs) == vs.len(),
    decreases vs.len(),
{
    if vs.len() > 0 {
        let rest = vs.drop_last();
        assert forall|k: int| 0 <= k < rest.len() implies listed(ts, (#[trigger] rest[k]).file) by {
            assert(rest[k] == vs[k]);
        }
        lemma_sum_of_counts_in_covering(ts, rest);
        assert(listed(ts, vs[vs.len() - 1].file));
        lemma_sum_drop_violation(ts, vs);
        assert(vs.last() == vs[vs.len() - 1]);
        lemma_one_entry(ts, vs.last().file);
    } else {
        lemma_sum_of_counts_in_empty(ts, vs);
    }
}

/// Any tally of a list of violations, listing each file once with the number
/// of its violations, has counts that add up to the number of violations.
pub proof fn lemma_tally_sums_to_total(ts: Seq<FileTally>, vs: Seq<ViolationView>)
    requires
        is_tally_of(ts, vs),
    ensures
        sum_counts(ts) == vs.len(),
{
    assert forall|i: int, j: int| 0 <= i < j < ts.len() implies (#[trigger] ts[i]).file@ != (#[trigger] ts[j]).file@ by {
        lemma_less_asymmetric(path_key(ts[i].file@), path_key(ts[j].file@));
    }
    assert forall|k: int| 0 <= k < vs.len() implies listed(ts, (#[trigger] vs[k]).file) by {
        let i = choose|i: int| 0 <= i < ts.len() && (#[trigger] ts[i]).file@ == vs[k].file;
    }
    lemma_sum_is_sum_of_counts_in(ts, vs);
    lemma_sum_of_counts_in_covering(ts, vs);
}

/// Counts the violations of each file. The files come once each, in the
/// order of paths (component by component), and the counts add up to the
/// number of violations. The tallies stand in a `Vec` kept in that order: a
/// map keyed by the path's text would order the paths byte by byte instead.
pub fn count_by_file(violations: &Vec<Violation>) -> (r: Vec<FileTally>)
    ensures
        is_tally_of(r@, views(violations@)),
        sum_counts(r@) == violations@.len(),
{
    let ghost vv = views(violations@);
    let mut ts: Vec<FileTally> = Vec::new();
    let mut i: usize = 0;
    while i < violations.len()
        invariant
            i <= violations@.len(),
            vv == views(violations@),
            is_tally_of(ts@, vv.subrange(0, i as int)),
            sum_counts(ts@) == i,
        decreases violations@.len() - i,
    {
        let ghost before = vv.subrange(0, i as int);
        let ghost after = vv.subrange(0, i + 1);
        let ghost f = vv[i as int].file;
        assert(after.drop_last() =~= before);
        assert(after.last() == vv[i as int]);
        let file = violations[i].file.as_str();
        let fb = file.as_bytes();
        let mut j: usize = 0;
        while j < ts.len() && path_before(ts[j].file.as_str().as_bytes(), fb)
            invariant
                j <= ts@.len(),
                fb@ == path_key(f),
                forall|k: int| 0 <= k < j ==> path_less(path_key((#[trigger] ts@[k]).file@), fb@),
            decreases ts@.len() - j,
        {
            j = j + 1;
        }
        let found = j < ts.len() && bytes_equal(ts[j].file.as_str().as_bytes(), fb);
        if found {
            let ghost old_ts = ts@;
            proof {
                encode_utf8_decode_utf8(ts@[j as int].file@);
                encode_utf8_decode_utf8(f);
                lemma_count_bound(before, f);
            }
            let c = ts[j].count;
            let t = FileTally { file: ts[j].file.clone(), count: c + 1 };
            ts.set(j, t);
            proof {
                lemma_sum_update(old_ts, j as int, t);
                assert forall|k: int| 0 <= k < ts@.len() implies (#[trigger] ts@[k]).count == count_in(after, ts@[k].file@) by {
                    if k != j {
                        encode_utf8_decode_utf8(ts@[k].file@);
                        lemma_less_asymmetric(path_key(ts@[k].file@), path_key(f));
                    }
                }
                assert forall|k: int| 0 <= k < after.len() implies exists|m: int| 0 <= m < ts@.len() && (#[trigger] ts@[m]).file@ == (#[trigger] after[k]).file by {
                    if k < i {
                        assert(after[k] == before[k]);
                        let m = choose|m: int| 0 <= m < old_ts.len() && old_ts[m].file@ == before[k].file;
                        assert(ts@[m].file@ == old_ts[m].file@);
                    } else {
                        assert(ts@[j as int].file@ == after[k].file);
                    }
                }
            }
        } else {
            let ghost old_ts = ts@;
            proof {
                if j < ts@.len() {
                    lemma_less_total(path_key(ts@[j as int].file@), fb@);
                }
                assert forall|k: int| 0 <= k < old_ts.len() implies (#[trigger] old_ts[k]).file@ != f by {
                    if k < j {
                        lemma_less_asymmetric(path_key(old_ts[k].file@), fb@);
                    } else {
                        lemma_less_asymmetric(fb@, path_key(old_ts[k].file@));
                        if k > j {
                            lemma_less_transitive(fb@, path_key(old_ts[j as int].file@), path_key(old_ts[k].file@));
                        }
                    }
                }
                assert forall|k: int| 0 <= k < before.len() implies (#[trigger] before[k]).file != f by {
                    let m = choose|m: int| 0 <= m < old_ts.len() && old_ts[m].file@ == before[k].file;
                    assert(old_ts[m].file@ != f);
                }
                lemma_count_none(before, f);
            }
            let t = FileTally { file: file.to_owned(), count: 1 };
            ts.insert(j, t);
            proof {
                lemma_sum_insert(old_ts, j as int, t);
                assert(ts@[j as int] == t);
                assert forall|a: int, b: int| 0 <= a < b < ts@.len() implies path_less(
                    path_key((#[trigger] ts@[a]).file@),
                    path_key((#[trigger] ts@[b]).file@),
                ) by {
                    if b == j {
                        assert(ts@[a] == old_ts[a]);
                    } else if a == j {
                        assert(ts@[b] == old_ts[b - 1]);
                        if b - 1 > j {
                            lemma_less_transitive(fb@, path_key(old_ts[j as int].file@), path_key(old_ts[b - 1].file@));
                        }
                    } else if a < j {
                        assert(ts@[a] == old_ts[a]);
                        if b < j {
                            assert(ts@[b] == old_ts[b]);
                        } else {
                            assert(ts@[b] == old_ts[b - 1]);
                        }
                    } else {
                        assert(ts@[a] == old_ts[a - 1]);
                        assert(ts@[b] == old_ts[b - 1]);
                    }
                }
                assert forall|k: int| 0 <= k < ts@.len() implies (#[trigger] ts@[k]).count == count_in(after, ts@[k].file@) by {
                    if k < j {
                        assert(ts@[k] == old_ts[k]);
                    } else if k > j {
                        assert(ts@[k] == old_ts[k - 1]);
                    }
                }
                assert forall|k: int| 0 <= k < ts@.len() implies (#[trigger] ts@[k]).count > 0 by {
                    if k < j {
                        assert(ts@[k] == old_ts[k]);
                    } else if k > j {
                        assert(ts@[k] == old_ts[k - 1]);
                    }
                }
                assert forall|k: int| 0 <= k < after.len() implies exists|m: int| 0 <= m < ts@.len() && (#[trigger] ts@[m]).file@ == (#[trigger] after[k]).file by {
                    if k < i {
                        assert(after[k] == before[k]);
                        let m = choose|m: int| 0 <= m < old_ts.len() && old_ts[m].file@ == before[k].file;
                        if m < j {
                            assert(ts@[m] == old_ts[m]);
                        } else {
                            assert(ts@[m + 1] == old_ts[m]);
                        }
                    } else {
                        assert(ts@[j as int].file@ == after[k].file);
                    }
                }
            }
        }
        i = i + 1;
    }
    assert(vv.subrange(0, violations@.len() as int) =~= vv);
    ts
}

/// The positions in `violations` of those that belong to `file`, in order.
pub fn positions_in_file(violations: &Vec<Violation>, file: &str) -> (r: Vec<usize>)
    ensures
        forall|i: int| 0 <= i < r@.len() ==> (#[trigger] r@[i]) < violations@.len() && violations@[r@[i] as int].file@ == file@,
        forall|i: int, j: int| 0 <= i < j < r@.len() ==> (#[trigger] r@[i]) < (#[trigger] r@[j]),
        forall|k: int| 0 <= k < violations@.len() && (#[trigger] violations@[k]).file@ == file@ ==> exists|i: int| 0 <= i < r@.len() && r@[i] == k,
        r@.len() == count_in(views(violations@), file@),
{
    let ghost vv = views(violations@);
    let fb = file.as_bytes();
    let mut r: Vec<usize> = Vec::new();
    let mut k: usize = 0;
    while k < violations.len()
        invariant
            k <= violations@.len(),
            fb@ == encode_utf8(file@),
            forall|i: int| 0 <= i < r@.len() ==> (#[trigger] r@[i]) < k && violations@[r@[i] as int].file@ == file@,
            forall|i: int, j: int| 0 <= i < j < r@.len() ==> (#[trigger] r@[i]) < (#[trigger] r@[j]),
            forall|m: int| 0 <= m < k && (#[trigger] violations@[m]).file@ == file@ ==> exists|i: int| 0 <= i < r@.len() && r@[i] == m,
            vv == views(violations@),
            r@.len() == count_in(vv.subrange(0, k as int), file@),
        decreases violations@.len() - k,
    {
        proof {
            assert(vv.subrange(0, k + 1).drop_last() =~= vv.subrange(0, k as int));
            assert(vv.subrange(0, k + 1).last() == vv[k as int]);
        }
        let same = bytes_equal(violations[k].file.as_str().as_bytes(), fb);
        proof {
            encode_utf8_decode_utf8(violations@[k as int].file@);
            encode_utf8_decode_utf8(file@);
        }
        if same {
            let ghost before = r@;
            r.push(k);
            proof {
                assert forall|m: int| 0 <= m < k + 1 && (#[trigger] violations@[m]).file@ == file@ implies exists|i: int| 0 <= i < r@.len() && r@[i] == m by {
                    if m < k {
                        let i = choose|i: int| 0 <= i < before.len() && before[i] == m;
                        assert(r@[i] == m);
                    } else {
                        assert(r@[before.len() as int] == m);
                    }
                }
            }
        }
        k = k + 1;
    }
    assert(vv.subrange(0, violations@.len() as int) =~= vv);
    r
}

} // verus!
