//! The order in which a tape is read, and the sort that puts files in it.
//!
//! Files are ordered by tape label, then by tape mark, then by offset past
//! the mark, then by path. All files of one tape are then neighbours, and
//! within a tape the head only moves forward.

use crate::model::{HpssFile, HpssFileView};
use crate::text::{
    lemma_text_le_antisymmetric, lemma_text_le_reflexive, lemma_text_le_total,
    lemma_text_le_transitive, text_le, text_precedes,
};
use vstd::multiset::Multiset;
use vstd::prelude::*;

verus! {

/// Whether `a` is read no later than `b`: the order by tape label, tape
/// mark, offset and path, each deciding where those before it are equal.
pub open spec fn seek_le(a: HpssFileView, b: HpssFileView) -> bool {
    if a.tape != b.tape {
        text_le(a.tape, b.tape)
    } else if a.tape_num != b.tape_num {
        a.tape_num < b.tape_num
    } else if a.tape_offset != b.tape_offset {
        a.tape_offset < b.tape_offset
    } else {
        text_le(a.hpss_path, b.hpss_path)
    }
}

/// Whether two files stand at the same place of the order: same tape, mark,
/// offset and path.
pub open spec fn same_place(a: HpssFileView, b: HpssFileView) -> bool {
    &&& a.tape == b.tape
    &&& a.tape_num == b.tape_num
    &&& a.tape_offset == b.tape_offset
    &&& a.hpss_path == b.hpss_path
}

/// Every file is read no later than itself.
pub proof fn lemma_seek_le_reflexive(a: HpssFileView)
    ensures
        seek_le(a, a),
{
    lemma_text_le_reflexive(a.hpss_path);
}

/// Of two files, one is read no later than the other.
pub proof fn lemma_seek_le_total(a: HpssFileView, b: HpssFileView)
    ensures
        seek_le(a, b) || seek_le(b, a),
{
    lemma_text_le_total(a.tape, b.tape);
    lemma_text_le_total(a.hpss_path, b.hpss_path);
}

/// The reading order is transitive.
pub proof fn lemma_seek_le_transitive(a: HpssFileView, b: HpssFileView, c: HpssFileView)
    requires
        seek_le(a, b),
        seek_le(b, c),
    ensures
        seek_le(a, c),
{
    lemma_text_le_reflexive(a.tape);
    lemma_text_le_reflexive(b.tape);
    assert(text_le(a.tape, b.tape));
    assert(text_le(b.tape, c.tape));
    lemma_text_le_transitive(a.tape, b.tape, c.tape);
    if a.tape == c.tape {
        lemma_text_le_antisymmetric(a.tape, b.tape);
        if a.tape_num == b.tape_num && b.tape_num == c.tape_num && a.tape_offset == b.tape_offset
            && b.tape_offset == c.tape_offset {
            lemma_text_le_transitive(a.hpss_path, b.hpss_path, c.hpss_path);
        }
    }
}

/// Two files that are each read no later than the other stand at the same
/// place.
pub proof fn lemma_seek_le_antisymmetric(a: HpssFileView, b: HpssFileView)
    requires
        seek_le(a, b),
        seek_le(b, a),
    ensures
        same_place(a, b),
{
    if a.tape != b.tape {
        lemma_text_le_antisymmetric(a.tape, b.tape);
    } else if a.tape_num == b.tape_num && a.tape_offset == b.tape_offset {
        lemma_text_le_antisymmetric(a.hpss_path, b.hpss_path);
    }
}

/// Whether `a` is read no later than `b`.
pub fn reads_before(a: &HpssFile, b: &HpssFile) -> (r: bool)
    ensures
        r == seek_le(a@, b@),
{
    if a.tape != b.tape {
        text_precedes(a.tape.as_str(), b.tape.as_str())
    } else if a.tape_num != b.tape_num {
        a.tape_num < b.tape_num
    } else if a.tape_offset != b.tape_offset {
        a.tape_offset < b.tape_offset
    } else {
        text_precedes(a.hpss_path.as_str(), b.hpss_path.as_str())
    }
}

/// Whether the files stand in reading order.
pub open spec fn in_seek_order(files: Seq<HpssFile>) -> bool {
    forall|i: int, j: int| 0 <= i < j < files.len() ==> seek_le(files[i]@, files[j]@)
}

/// The files of a sequence that stand at the place of `probe`, in their
/// order.
pub open spec fn at_place(files: Seq<HpssFile>, probe: HpssFileView) -> Seq<HpssFile> {
    files.filter(|f: HpssFile| same_place(f@, probe))
}

/// Whether `after` holds the files of `before` sorted into reading order,
/// with files of the same place in the order they had before.
pub open spec fn is_sorted_form(before: Seq<HpssFile>, after: Seq<HpssFile>) -> bool {
    &&& in_seek_order(after)
    &&& after.to_multiset() == before.to_multiset()
    &&& forall|probe: HpssFileView| #[trigger] at_place(after, probe) == at_place(before, probe)
}

/// The files of a place among the files of a sequence: the first file
/// leads them where it stands at the place, and the rest of the sequence
/// gives the others.
proof fn lemma_at_place_first(files: Seq<HpssFile>, probe: HpssFileView)
    requires
        files.len() > 0,
    ensures
        at_place(files, probe) == if same_place(files[0]@, probe) {
            seq![files[0]] + at_place(files.drop_first(), probe)
        } else {
            at_place(files.drop_first(), probe)
        },
{
    let pred = |f: HpssFile| same_place(f@, probe);
    let head = seq![files[0]];
    assert(files =~= head + files.drop_first());
    Seq::filter_distributes_over_add(head, files.drop_first(), pred);
    reveal_with_fuel(Seq::filter, 2);
    assert(head.drop_last() =~= Seq::<HpssFile>::empty());
    if same_place(files[0]@, probe) {
        assert(head.filter(pred) =~= head);
    } else {
        assert(head.filter(pred) =~= Seq::<HpssFile>::empty());
        assert(Seq::<HpssFile>::empty() + at_place(files.drop_first(), probe) =~= at_place(
            files.drop_first(),
            probe,
        ));
    }
}

/// Two sequences in reading order that hold the same files, those of each
/// place in the same order, are the same sequence.
proof fn lemma_same_order_same_sequence(a: Seq<HpssFile>, b: Seq<HpssFile>)
    requires
        in_seek_order(a),
        in_seek_order(b),
        a.to_multiset() == b.to_multiset(),
        forall|probe: HpssFileView| #[trigger] at_place(a, probe) == at_place(b, probe),
    ensures
        a == b,
    decreases a.len(),
{
    broadcast use vstd::seq_lib::group_to_multiset_ensures;

    assert(a.len() == b.len()) by {
        a.to_multiset_ensures();
        b.to_multiset_ensures();
    }
    if a.len() == 0 {
        assert(a =~= b);
    } else {
        let x = a[0];
        let y = b[0];
        assert(seek_le(y@, x@)) by {
            assert(a.contains(x));
            assert(b.to_multiset().count(x) > 0);
            assert(b.contains(x));
            let j = choose|j: int| 0 <= j < b.len() && b[j] == x;
            if j == 0 {
                lemma_seek_le_reflexive(x@);
            }
        }
        assert(seek_le(x@, y@)) by {
            assert(b.contains(y));
            assert(a.to_multiset().count(y) > 0);
            assert(a.contains(y));
            let j = choose|j: int| 0 <= j < a.len() && a[j] == y;
            if j == 0 {
                lemma_seek_le_reflexive(y@);
            }
        }
        lemma_seek_le_antisymmetric(x@, y@);
        lemma_at_place_first(a, x@);
        lemma_at_place_first(b, x@);
        assert(at_place(a, x@)[0] == x);
        assert(at_place(b, x@)[0] == y);
        assert(x == y);
        let rest_a = a.drop_first();
        let rest_b = b.drop_first();
        assert(rest_a =~= a.remove(0));
        assert(rest_b =~= b.remove(0));
        assert(rest_a.to_multiset() == rest_b.to_multiset());
        assert forall|i: int, j: int| 0 <= i < j < rest_a.len() implies seek_le(
            rest_a[i]@,
            rest_a[j]@,
        ) by {
            assert(seek_le(a[i + 1]@, a[j + 1]@));
        }
        assert forall|i: int, j: int| 0 <= i < j < rest_b.len() implies seek_le(
            rest_b[i]@,
            rest_b[j]@,
        ) by {
            assert(seek_le(b[i + 1]@, b[j + 1]@));
        }
        assert forall|probe: HpssFileView| #[trigger]
            at_place(rest_a, probe) == at_place(rest_b, probe) by {
            lemma_at_place_first(a, probe);
            lemma_at_place_first(b, probe);
            assert(at_place(a, probe) == at_place(b, probe));
            if same_place(x@, probe) {
                let with_a = seq![x] + at_place(rest_a, probe);
                let with_b = seq![x] + at_place(rest_b, probe);
                assert(with_a == with_b);
                assert(at_place(rest_a, probe) =~= with_a.drop_first());
                assert(at_place(rest_b, probe) =~= with_b.drop_first());
            }
        }
        lemma_same_order_same_sequence(rest_a, rest_b);
        assert(a =~= seq![x] + rest_a);
        assert(b =~= seq![y] + rest_b);
    }
}

/// There is one sorted form: the order of the result and the order kept
/// among files of the same place leave no choice.
pub proof fn lemma_sorted_form_is_unique(before: Seq<HpssFile>, a: Seq<HpssFile>, b: Seq<HpssFile>)
    requires
        is_sorted_form(before, a),
        is_sorted_form(before, b),
    ensures
        a == b,
{
    assert forall|probe: HpssFileView| #[trigger] at_place(a, probe) == at_place(b, probe) by {
        assert(at_place(a, probe) == at_place(before, probe));
        assert(at_place(b, probe) == at_place(before, probe));
    }
    lemma_same_order_same_sequence(a, b);
}

/// The files that stand at the positions `order` of `files`.
pub open spec fn pick(files: Seq<HpssFile>, order: Seq<usize>) -> Seq<HpssFile> {
    order.map_values(|k: usize| files[k as int])
}

/// Whether every position of `order` lies within `lo..hi`.
pub open spec fn within(order: Seq<usize>, lo: int, hi: int) -> bool {
    forall|k: int| 0 <= k < order.len() ==> lo <= #[trigger] order[k] < hi
}

/// Sorting the halves of a sequence and merging them sorts the sequence.
proof fn lemma_sorted_halves(
    a: Seq<HpssFile>,
    b: Seq<HpssFile>,
    sa: Seq<HpssFile>,
    sb: Seq<HpssFile>,
    merged: Seq<HpssFile>,
)
    requires
        is_sorted_form(a, sa),
        is_sorted_form(b, sb),
        in_seek_order(merged),
        merged.to_multiset() == sa.to_multiset().add(sb.to_multiset()),
        forall|probe: HpssFileView| #[trigger]
            at_place(merged, probe) == at_place(sa, probe) + at_place(sb, probe),
    ensures
        is_sorted_form(a + b, merged),
{
    vstd::seq_lib::lemma_multiset_commutative(a, b);
    assert forall|probe: HpssFileView| #[trigger]
        at_place(merged, probe) == at_place(a + b, probe) by {
        Seq::filter_distributes_over_add(a, b, |f: HpssFile| same_place(f@, probe));
        assert(at_place(sa, probe) == at_place(a, probe));
        assert(at_place(sb, probe) == at_place(b, probe));
    }
}

/// Appending a file to a sequence appends it to the files of its own place
/// and to those of no other.
proof fn lemma_at_place_push(files: Seq<HpssFile>, file: HpssFile, probe: HpssFileView)
    ensures
        at_place(files.push(file), probe) == if same_place(file@, probe) {
            at_place(files, probe).push(file)
        } else {
            at_place(files, probe)
        },
{
    reveal_with_fuel(Seq::filter, 1);
    assert(files.push(file).drop_last() =~= files);
}

/// Where no file of a sequence stands at a place, the sequence has no file
/// of that place.
proof fn lemma_at_place_empty(files: Seq<HpssFile>, probe: HpssFileView)
    requires
        forall|k: int| 0 <= k < files.len() ==> !same_place(#[trigger] files[k]@, probe),
    ensures
        at_place(files, probe) == Seq::<HpssFile>::empty(),
    decreases files.len(),
{
    reveal_with_fuel(Seq::filter, 1);
    if files.len() > 0 {
        lemma_at_place_empty(files.drop_last(), probe);
    }
}

/// Merges two orders of positions, each in reading order, into one. Where a
/// file of `left` and a file of `right` stand at the same place, the one of
/// `left` comes first.
fn merge_orders(files: &Vec<HpssFile>, left: &Vec<usize>, right: &Vec<usize>) -> (out: Vec<usize>)
    requires
        within(left@, 0, files@.len() as int),
        within(right@, 0, files@.len() as int),
        in_seek_order(pick(files@, left@)),
        in_seek_order(pick(files@, right@)),
        left@.len() + right@.len() <= usize::MAX,
    ensures
        out@.len() == left@.len() + right@.len(),
        within(out@, 0, files@.len() as int),
        in_seek_order(pick(files@, out@)),
        pick(files@, out@).to_multiset() == pick(files@, left@).to_multiset().add(
            pick(files@, right@).to_multiset(),
        ),
        forall|probe: HpssFileView| #[trigger]
            at_place(pick(files@, out@), probe) == at_place(pick(files@, left@), probe) + at_place(
                pick(files@, right@),
                probe,
            ),
        forall|k: int|
            0 <= k < out@.len() ==> left@.contains(#[trigger] out@[k]) || right@.contains(out@[k]),
{
    let ghost l = pick(files@, left@);
    let ghost r = pick(files@, right@);
    let mut out: Vec<usize> = Vec::new();
    let mut i: usize = 0;
    let mut j: usize = 0;
    proof {
        assert(pick(files@, out@) =~= Seq::<HpssFile>::empty());
        assert(l.take(0) =~= Seq::<HpssFile>::empty());
        assert(r.take(0) =~= Seq::<HpssFile>::empty());
        assert(Seq::<HpssFile>::empty().to_multiset() =~= Multiset::<HpssFile>::empty()) by {
            broadcast use vstd::seq_lib::group_to_multiset_ensures;

        }
        assert(Multiset::<HpssFile>::empty().add(Multiset::<HpssFile>::empty())
            =~= Multiset::<HpssFile>::empty());
        assert forall|probe: HpssFileView| #[trigger]
            at_place(pick(files@, out@), probe) == at_place(l.take(0), probe) + at_place(
                r.take(0),
                probe,
            ) by {
            lemma_at_place_empty(Seq::<HpssFile>::empty(), probe);
        }
    }
    while i < left.len() || j < right.len()
        invariant
            l == pick(files@, left@),
            r == pick(files@, right@),
            within(left@, 0, files@.len() as int),
            within(right@, 0, files@.len() as int),
            in_seek_order(l),
            in_seek_order(r),
            left@.len() + right@.len() <= usize::MAX,
            0 <= i <= left@.len(),
            0 <= j <= right@.len(),
            out@.len() == i + j,
            within(out@, 0, files@.len() as int),
            in_seek_order(pick(files@, out@)),
            forall|k: int|
                0 <= k < out@.len() ==> left@.contains(#[trigger] out@[k]) || right@.contains(
                    out@[k],
                ),
            forall|k: int, m: int|
                0 <= k < out@.len() && i <= m < l.len() ==> seek_le(
                    #[trigger] pick(files@, out@)[k]@,
                    #[trigger] l[m]@,
                ),
            forall|k: int, m: int|
                0 <= k < out@.len() && j <= m < r.len() ==> seek_le(
                    #[trigger] pick(files@, out@)[k]@,
                    #[trigger] r[m]@,
                ),
            forall|k: int, m: int|
                0 <= k < j && i <= m < l.len() ==> !seek_le(#[trigger] l[m]@, #[trigger] r[k]@),
            pick(files@, out@).to_multiset() == l.take(i as int).to_multiset().add(
                r.take(j as int).to_multiset(),
            ),
            forall|probe: HpssFileView| #[trigger]
                at_place(pick(files@, out@), probe) == at_place(l.take(i as int), probe)
                    + at_place(r.take(j as int), probe),
        decreases left@.len() + right@.len() - i - j,
    {
        let ghost so_far = pick(files@, out@);
        let take_left = if i >= left.len() {
            false
        } else if j >= right.len() {
            true
        } else {
            reads_before(&files[left[i]], &files[right[j]])
        };
        if take_left {
            let k = left[i];
            proof {
                let file = files@[k as int];
                assert(l[i as int] == file);
                assert(pick(files@, out@.push(k)) =~= so_far.push(file));
                assert(l.take(i + 1) =~= l.take(i as int).push(file));
                broadcast use vstd::seq_lib::group_to_multiset_ensures;

                assert(so_far.push(file).to_multiset() =~= l.take(i + 1).to_multiset().add(
                    r.take(j as int).to_multiset(),
                ));
                assert forall|a: int, b: int| 0 <= a < b < so_far.len() + 1 implies seek_le(
                    so_far.push(file)[a]@,
                    so_far.push(file)[b]@,
                ) by {
                    if b == so_far.len() {
                        assert(seek_le(so_far[a]@, l[i as int]@));
                    }
                }
                assert forall|a: int, m: int|
                    0 <= a < so_far.len() + 1 && i + 1 <= m < l.len() implies seek_le(
                    #[trigger] so_far.push(file)[a]@,
                    #[trigger] l[m]@,
                ) by {
                    if a == so_far.len() {
                        assert(seek_le(l[i as int]@, l[m]@));
                    } else {
                        assert(seek_le(so_far[a]@, l[m]@));
                    }
                }
                assert forall|a: int, m: int|
                    0 <= a < so_far.len() + 1 && j <= m < r.len() implies seek_le(
                    #[trigger] so_far.push(file)[a]@,
                    #[trigger] r[m]@,
                ) by {
                    if a == so_far.len() {
                        assert(seek_le(l[i as int]@, r[j as int]@));
                        if m > j {
                            assert(seek_le(r[j as int]@, r[m]@));
                            lemma_seek_le_transitive(l[i as int]@, r[j as int]@, r[m]@);
                        }
                    } else {
                        assert(seek_le(so_far[a]@, r[m]@));
                    }
                }
                assert forall|probe: HpssFileView| #[trigger]
                    at_place(so_far.push(file), probe) == at_place(l.take(i + 1), probe)
                        + at_place(r.take(j as int), probe) by {
                    lemma_at_place_push(so_far, file, probe);
                    lemma_at_place_push(l.take(i as int), file, probe);
                    if same_place(file@, probe) {
                        assert forall|n: int| 0 <= n < r.take(j as int).len() implies !same_place(
                            #[trigger] r.take(j as int)[n]@,
                            probe,
                        ) by {
                            assert(!seek_le(l[i as int]@, r[n]@));
                            if same_place(r[n]@, probe) {
                                lemma_seek_le_reflexive(r[n]@);
                            }
                        }
                        lemma_at_place_empty(r.take(j as int), probe);
                        assert(at_place(l.take(i as int), probe).push(file) + Seq::<
                            HpssFile,
                        >::empty() =~= at_place(l.take(i as int), probe).push(file));
                        assert(at_place(l.take(i as int), probe) + Seq::<HpssFile>::empty()
                            =~= at_place(l.take(i as int), probe));
                    }
                }
                assert(left@.contains(k));
            }
            out.push(k);
            i += 1;
        } else {
            let k = right[j];
            proof {
                let file = files@[k as int];
                assert(r[j as int] == file);
                assert(pick(files@, out@.push(k)) =~= so_far.push(file));
                assert(r.take(j + 1) =~= r.take(j as int).push(file));
                broadcast use vstd::seq_lib::group_to_multiset_ensures;

                assert(so_far.push(file).to_multiset() =~= l.take(i as int).to_multiset().add(
                    r.take(j + 1).to_multiset(),
                ));
                assert forall|a: int, b: int| 0 <= a < b < so_far.len() + 1 implies seek_le(
                    so_far.push(file)[a]@,
                    so_far.push(file)[b]@,
                ) by {
                    if b == so_far.len() {
                        assert(seek_le(so_far[a]@, r[j as int]@));
                    }
                }
                assert forall|a: int, m: int|
                    0 <= a < so_far.len() + 1 && j + 1 <= m < r.len() implies seek_le(
                    #[trigger] so_far.push(file)[a]@,
                    #[trigger] r[m]@,
                ) by {
                    if a == so_far.len() {
                        assert(seek_le(r[j as int]@, r[m]@));
                    } else {
                        assert(seek_le(so_far[a]@, r[m]@));
                    }
                }
                assert forall|a: int, m: int|
                    0 <= a < so_far.len() + 1 && i <= m < l.len() implies seek_le(
                    #[trigger] so_far.push(file)[a]@,
                    #[trigger] l[m]@,
                ) by {
                    if a == so_far.len() {
                        assert(!seek_le(l[i as int]@, r[j as int]@));
                        lemma_seek_le_total(l[i as int]@, r[j as int]@);
                        if m > i {
                            assert(seek_le(l[i as int]@, l[m]@));
                            lemma_seek_le_transitive(r[j as int]@, l[i as int]@, l[m]@);
                        }
                    } else {
                        assert(seek_le(so_far[a]@, l[m]@));
                    }
                }
                assert forall|n: int, m: int| 0 <= n < j + 1 && i <= m < l.len() implies !seek_le(
                    #[trigger] l[m]@,
                    #[trigger] r[n]@,
                ) by {
                    if n == j {
                        assert(!seek_le(l[i as int]@, r[j as int]@));
                        if m > i && seek_le(l[m]@, r[j as int]@) {
                            assert(seek_le(l[i as int]@, l[m]@));
                            lemma_seek_le_transitive(l[i as int]@, l[m]@, r[j as int]@);
                        }
                    }
                }
                assert forall|probe: HpssFileView| #[trigger]
                    at_place(so_far.push(file), probe) == at_place(l.take(i as int), probe)
                        + at_place(r.take(j + 1), probe) by {
                    lemma_at_place_push(so_far, file, probe);
                    lemma_at_place_push(r.take(j as int), file, probe);
                    if same_place(file@, probe) {
                        assert((at_place(l.take(i as int), probe) + at_place(
                            r.take(j as int),
                            probe,
                        )).push(file) =~= at_place(l.take(i as int), probe) + at_place(
                            r.take(j as int),
                            probe,
                        ).push(file));
                    }
                }
                assert(right@.contains(k));
            }
            out.push(k);
            j += 1;
        }
    }
    proof {
        assert(l.take(i as int) =~= l);
        assert(r.take(j as int) =~= r);
    }
    out
}

/// The positions `lo..hi` of `files`, arranged in reading order.
fn order_range(files: &Vec<HpssFile>, lo: usize, hi: usize) -> (order: Vec<usize>)
    requires
        lo <= hi <= files@.len(),
    ensures
        order@.len() == hi - lo,
        within(order@, lo as int, hi as int),
        is_sorted_form(files@.subrange(lo as int, hi as int), pick(files@, order@)),
    decreases hi - lo,
{
    let mut order: Vec<usize> = Vec::new();
    if hi - lo == 0 {
        assert(pick(files@, order@) =~= files@.subrange(lo as int, hi as int));
        return order;
    }
    if hi - lo == 1 {
        order.push(lo);
        assert(pick(files@, order@) =~= files@.subrange(lo as int, hi as int));
        return order;
    }
    let mid: usize = lo + (hi - lo) / 2;
    let left = order_range(files, lo, mid);
    let right = order_range(files, mid, hi);
    let merged = merge_orders(files, &left, &right);
    proof {
        let a = files@.subrange(lo as int, mid as int);
        let b = files@.subrange(mid as int, hi as int);
        assert(a + b =~= files@.subrange(lo as int, hi as int));
        lemma_sorted_halves(
            a,
            b,
            pick(files@, left@),
            pick(files@, right@),
            pick(files@, merged@),
        );
        broadcast use vstd::seq_lib::group_to_multiset_ensures;

        assert(pick(files@, merged@).len() == merged@.len());
        assert((a + b).len() == hi - lo);
        assert forall|k: int| 0 <= k < merged@.len() implies lo <= #[trigger] merged@[k] < hi by {
            if left@.contains(merged@[k]) {
                let n = choose|n: int| 0 <= n < left@.len() && left@[n] == merged@[k];
                assert(lo <= left@[n] < mid);
            } else {
                let n = choose|n: int| 0 <= n < right@.len() && right@[n] == merged@[k];
                assert(mid <= right@[n] < hi);
            }
        }
    }
    merged
}

/// Sorts the files into reading order. Files that stand at the same place of
/// the order keep the order they came in.
pub fn sort_for_reading(files: &mut Vec<HpssFile>)
    ensures
        is_sorted_form(old(files)@, final(files)@),
{
    let order = order_range(files, 0, files.len());
    let mut sorted: Vec<HpssFile> = Vec::new();
    let mut k: usize = 0;
    assert(files@.subrange(0, files@.len() as int) =~= files@);
    while k < order.len()
        invariant
            0 <= k <= order@.len(),
            within(order@, 0, files@.len() as int),
            sorted@ == pick(files@, order@.take(k as int)),
        decreases order@.len() - k,
    {
        let file = files[order[k]].clone();
        assert(pick(files@, order@.take(k + 1)) =~= pick(files@, order@.take(k as int)).push(
            file,
        ));
        sorted.push(file);
        k += 1;
    }
    assert(order@.take(order@.len() as int) =~= order@);
    *files = sorted;
}

/// The contents of a sequence of groups.
pub open spec fn group_contents(groups: Seq<Vec<HpssFile>>) -> Seq<Seq<HpssFile>> {
    groups.map_values(|g: Vec<HpssFile>| g@)
}

/// Whether `groups` cuts `files` into its runs of equal tape label: the
/// groups, one after the other, are the files; no group is empty; the files
/// of a group share their label; and neighbouring groups differ in it.
pub open spec fn is_tape_grouping(files: Seq<HpssFile>, groups: Seq<Seq<HpssFile>>) -> bool {
    &&& groups.flatten() == files
    &&& forall|g: int| 0 <= g < groups.len() ==> (#[trigger] groups[g]).len() > 0
    &&& forall|g: int, i: int|
        0 <= g < groups.len() && 0 <= i < groups[g].len() ==> (#[trigger] groups[g][i])@.tape
            == groups[g][0]@.tape
    &&& forall|g: int|
        0 <= g < groups.len() - 1 ==> (#[trigger] groups[g])[0]@.tape != groups[g + 1][0]@.tape
}

/// How many files stand before group `g` in the groups laid end to end.
pub open spec fn start_of(groups: Seq<Seq<HpssFile>>, g: int) -> int
    decreases g,
{
    if g <= 0 {
        0
    } else {
        start_of(groups, g - 1) + groups[g - 1].len()
    }
}

/// File `i` of group `g` stands at place `start_of(groups, g) + i` of the
/// first `n` groups laid end to end.
proof fn lemma_flatten_place(groups: Seq<Seq<HpssFile>>, n: int, g: int, i: int)
    requires
        0 <= g < n <= groups.len(),
        0 <= i < groups[g].len(),
    ensures
        start_of(groups, n) == groups.take(n).flatten().len(),
        0 <= start_of(groups, g) + i < groups.take(n).flatten().len(),
        groups.take(n).flatten()[start_of(groups, g) + i] == groups[g][i],
    decreases n,
{
    let head = groups.take(n - 1);
    head.lemma_flatten_push(groups[n - 1]);
    assert(groups.take(n) =~= head.push(groups[n - 1]));
    lemma_start_is_length(groups, n - 1);
    if g < n - 1 {
        lemma_flatten_place(groups, n - 1, g, i);
    }
}

/// The first `n` groups laid end to end hold `start_of(groups, n)` files.
proof fn lemma_start_is_length(groups: Seq<Seq<HpssFile>>, n: int)
    requires
        0 <= n <= groups.len(),
    ensures
        start_of(groups, n) == groups.take(n).flatten().len(),
    decreases n,
{
    if n > 0 {
        let head = groups.take(n - 1);
        head.lemma_flatten_push(groups[n - 1]);
        assert(groups.take(n) =~= head.push(groups[n - 1]));
        lemma_start_is_length(groups, n - 1);
    } else {
        assert(groups.take(0) =~= Seq::<Seq<HpssFile>>::empty());
    }
}

/// A later group starts no earlier than an earlier group ends.
proof fn lemma_start_grows(groups: Seq<Seq<HpssFile>>, g: int, h: int)
    requires
        0 <= g < h <= groups.len(),
    ensures
        start_of(groups, g) + groups[g].len() <= start_of(groups, h),
    decreases h,
{
    if g + 1 < h {
        lemma_start_grows(groups, g, h - 1);
    }
}

/// Whether each group is in reading order and the labels of the groups
/// ascend strictly.
pub open spec fn groups_in_order(groups: Seq<Seq<HpssFile>>) -> bool {
    &&& forall|g: int| 0 <= g < groups.len() ==> in_seek_order(#[trigger] groups[g])
    &&& forall|g: int, h: int|
        0 <= g < h < groups.len() ==> {
            &&& text_le((#[trigger] groups[g])[0]@.tape, (#[trigger] groups[h])[0]@.tape)
            &&& groups[g][0]@.tape != groups[h][0]@.tape
        }
}

/// The tape groups of files in reading order are each in reading order, and
/// they come in strictly ascending order of their labels: no label has two
/// groups.
pub proof fn lemma_groups_in_order(files: Seq<HpssFile>, groups: Seq<Seq<HpssFile>>)
    requires
        in_seek_order(files),
        is_tape_grouping(files, groups),
    ensures
        groups_in_order(groups),
{
    let n = groups.len() as int;
    assert(groups.take(n) =~= groups);
    assert forall|g: int| 0 <= g < groups.len() implies in_seek_order(#[trigger] groups[g]) by {
        assert forall|i: int, j: int| 0 <= i < j < groups[g].len() implies seek_le(
            groups[g][i]@,
            groups[g][j]@,
        ) by {
            lemma_flatten_place(groups, n, g, i);
            lemma_flatten_place(groups, n, g, j);
        }
    }
    assert forall|g: int, h: int| 0 <= g < h < groups.len() implies text_le(
        (#[trigger] groups[g])[0]@.tape,
        (#[trigger] groups[h])[0]@.tape,
    ) by {
        lemma_flatten_place(groups, n, g, 0);
        lemma_flatten_place(groups, n, h, 0);
        lemma_start_grows(groups, g, h);
        let a = groups[g][0]@;
        let b = groups[h][0]@;
        assert(seek_le(a, b));
        lemma_text_le_reflexive(a.tape);
    }
    assert forall|g: int, h: int| 0 <= g < h < groups.len() implies (#[trigger] groups[g])[0]@.tape
        != (#[trigger] groups[h])[0]@.tape by {
        if g + 1 < h {
            let a = groups[g][0]@.tape;
            let b = groups[g + 1][0]@.tape;
            let c = groups[h][0]@.tape;
            assert(text_le(a, b));
            assert(text_le(groups[g + 1][0]@.tape, groups[h][0]@.tape));
            if a == c {
                lemma_text_le_antisymmetric(a, b);
            }
        }
        assert(groups[g][0]@.tape != groups[g + 1][0]@.tape);
    }
}

/// Sorts the files into reading order and cuts them into one group for each
/// tape. The groups come in the order of the sorted files: each group is in
/// reading order, and the labels of the groups ascend.
pub fn group_files_by_tape(hpss_files: &mut Vec<HpssFile>) -> (grouped: Vec<Vec<HpssFile>>)
    ensures
        is_sorted_form(old(hpss_files)@, final(hpss_files)@),
        is_tape_grouping(final(hpss_files)@, group_contents(grouped@)),
        groups_in_order(group_contents(grouped@)),
{
    sort_for_reading(hpss_files);
    let mut grouped: Vec<Vec<HpssFile>> = Vec::new();
    let mut current: Vec<HpssFile> = Vec::new();
    let mut i: usize = 0;
    proof {
        assert(group_contents(grouped@) =~= Seq::<Seq<HpssFile>>::empty());
        assert(group_contents(grouped@).flatten() + current@ =~= hpss_files@.take(0));
    }
    while i < hpss_files.len()
        invariant
            0 <= i <= hpss_files@.len(),
            group_contents(grouped@).flatten() + current@ == hpss_files@.take(i as int),
            i > 0 ==> current@.len() > 0,
            forall|k: int|
                0 <= k < current@.len() ==> (#[trigger] current@[k])@.tape == current@[0]@.tape,
            is_tape_grouping(group_contents(grouped@).flatten(), group_contents(grouped@)),
            grouped@.len() > 0 && current@.len() > 0 ==> group_contents(grouped@).last()[0]@.tape
                != current@[0]@.tape,
        decreases hpss_files@.len() - i,
    {
        let file = hpss_files[i].clone();
        let ghost before = group_contents(grouped@);
        let ghost run = current@;
        assert(file == hpss_files@[i as int]);
        assert(hpss_files@.take(i + 1) =~= hpss_files@.take(i as int).push(file));
        if current.len() == 0 || current[0].tape == file.tape {
            current.push(file);
            assert(before.flatten() + run.push(file) =~= (before.flatten() + run).push(file));
        } else {
            proof {
                before.lemma_flatten_push(run);
                assert(group_contents(grouped@.push(current)) =~= before.push(run));
                let after = before.push(run);
                assert forall|g: int, k: int|
                    0 <= g < after.len() && 0 <= k < after[g].len() implies (#[trigger] after[g][k])@.tape
                    == after[g][0]@.tape by {
                    if g < before.len() {
                        assert(after[g] == before[g]);
                    }
                }
                assert forall|g: int| 0 <= g < after.len() - 1 implies (#[trigger] after[g])[0]@.tape
                    != after[g + 1][0]@.tape by {
                    if g + 1 < before.len() {
                        assert(after[g] == before[g]);
                        assert(after[g + 1] == before[g + 1]);
                    } else {
                        assert(after[g] == before.last());
                    }
                }
                assert forall|g: int| 0 <= g < after.len() implies (#[trigger] after[g]).len()
                    > 0 by {
                    if g < before.len() {
                        assert(after[g] == before[g]);
                    }
                }
            }
            grouped.push(current);
            current = Vec::new();
            current.push(file);
            proof {
                assert(current@ =~= seq![file]);
                assert(group_contents(grouped@).flatten() + current@ =~= hpss_files@.take(i + 1));
            }
        }
        i += 1;
    }
    if current.len() > 0 {
        proof {
            let before = group_contents(grouped@);
            let run = current@;
            before.lemma_flatten_push(run);
            assert(group_contents(grouped@.push(current)) =~= before.push(run));
            let after = before.push(run);
            assert forall|g: int, k: int|
                0 <= g < after.len() && 0 <= k < after[g].len() implies (#[trigger] after[g][k])@.tape
                == after[g][0]@.tape by {
                if g < before.len() {
                    assert(after[g] == before[g]);
                }
            }
            assert forall|g: int| 0 <= g < after.len() - 1 implies (#[trigger] after[g])[0]@.tape
                != after[g + 1][0]@.tape by {
                if g + 1 < before.len() {
                    assert(after[g] == before[g]);
                    assert(after[g + 1] == before[g + 1]);
                } else {
                    assert(after[g] == before.last());
                }
            }
            assert forall|g: int| 0 <= g < after.len() implies (#[trigger] after[g]).len() > 0 by {
                if g < before.len() {
                    assert(after[g] == before[g]);
                }
            }
            assert(hpss_files@.take(i as int) =~= hpss_files@);
        }
        grouped.push(current);
    } else {
        proof {
            assert(hpss_files@.take(i as int) =~= hpss_files@);
            assert(group_contents(grouped@).flatten() + current@ =~= group_contents(
                grouped@,
            ).flatten());
        }
    }
    proof {
        lemma_groups_in_order(hpss_files@, group_contents(grouped@));
    }
    grouped
}

} // verus!
