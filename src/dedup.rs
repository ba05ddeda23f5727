//! Ordering candidate images by identifier, descending, with each
//! identifier kept once.

use crate::image::{records_view, ImageRecord, ImageView};
use crate::text::{
    compare_text, lemma_text_greater_asymmetric, lemma_text_greater_irreflexive,
    lemma_text_greater_total, lemma_text_greater_transitive, text_greater,
};
use std::cmp::Ordering;
use vstd::prelude::*;

verus! {

/// `m[j]` is the first entry of `m` with its identifier.
pub open spec fn first_with_id(m: Seq<ImageView>, j: int) -> bool {
    &&& 0 <= j < m.len()
    &&& forall|k: int| 0 <= k < j ==> m[k].id != m[j].id
}

/// `x` is the first entry of `m` with its identifier.
pub open spec fn is_first_entry(m: Seq<ImageView>, x: ImageView) -> bool {
    exists|j: int| first_with_id(m, j) && m[j] == x
}

/// Identifiers strictly decrease along `r`.
pub open spec fn strictly_descending(r: Seq<ImageView>) -> bool {
    forall|i: int, j: int| 0 <= i < j < r.len() ==> text_greater(r[i].id, r[j].id)
}

/// Some entry of `r` has identifier `id`.
pub open spec fn has_id(r: Seq<ImageView>, id: Seq<char>) -> bool {
    exists|i: int| #![trigger r[i]] 0 <= i < r.len() && r[i].id == id
}

/// `r` is `m` sorted by identifier, descending, with each identifier kept
/// once, from its first entry in `m`.
pub open spec fn is_dedup_sort_of(m: Seq<ImageView>, r: Seq<ImageView>) -> bool {
    &&& strictly_descending(r)
    &&& forall|i: int| 0 <= i < r.len() ==> is_first_entry(m, #[trigger] r[i])
    &&& forall|j: int| 0 <= j < m.len() ==> has_id(r, #[trigger] m[j].id)
}

proof fn lemma_descending_same_ids(a: Seq<ImageView>, b: Seq<ImageView>)
    requires
        strictly_descending(a),
        strictly_descending(b),
        forall|i: int| 0 <= i < a.len() ==> has_id(b, #[trigger] a[i].id),
        forall|i: int| 0 <= i < b.len() ==> has_id(a, #[trigger] b[i].id),
    ensures
        a.len() == b.len(),
        forall|i: int| 0 <= i < a.len() ==> a[i].id == b[i].id,
    decreases a.len(),
{
    if a.len() == 0 {
        if b.len() > 0 {
            assert(has_id(a, b[0].id));
        }
    } else {
        assert(has_id(b, a[0].id));
        if b.len() == 0 {
        } else {
            let k = choose|k: int| 0 <= k < b.len() && b[k].id == a[0].id;
            assert(has_id(a, b[0].id));
            let l = choose|l: int| 0 <= l < a.len() && a[l].id == b[0].id;
            lemma_text_greater_irreflexive(a[0].id);
            if k > 0 {
                if l > 0 {
                    lemma_text_greater_transitive(a[0].id, a[l].id, b[k].id);
                }
                assert(false);
            }
            let ta = a.drop_first();
            let tb = b.drop_first();
            assert forall|i: int| 0 <= i < ta.len() implies has_id(tb, #[trigger] ta[i].id) by {
                assert(ta[i] == a[i + 1]);
                assert(has_id(b, a[i + 1].id));
                let j = choose|j: int| 0 <= j < b.len() && b[j].id == a[i + 1].id;
                lemma_text_greater_irreflexive(a[i + 1].id);
                assert(j != 0);
                assert(tb[j - 1] == b[j]);
            }
            assert forall|i: int| 0 <= i < tb.len() implies has_id(ta, #[trigger] tb[i].id) by {
                assert(tb[i] == b[i + 1]);
                assert(has_id(a, b[i + 1].id));
                let j = choose|j: int| 0 <= j < a.len() && a[j].id == b[i + 1].id;
                lemma_text_greater_irreflexive(b[i + 1].id);
                assert(j != 0);
                assert(ta[j - 1] == a[j]);
            }
            lemma_descending_same_ids(ta, tb);
            assert forall|i: int| 0 <= i < a.len() implies a[i].id == b[i].id by {
                if i > 0 {
                    assert(ta[i - 1] == a[i]);
                    assert(tb[i - 1] == b[i]);
                }
            }
        }
    }
}

/// The result of deduplicating and sorting is determined by the input: two
/// lists that both are `m` deduplicated and sorted are the same list.
pub proof fn lemma_dedup_sort_unique(m: Seq<ImageView>, r1: Seq<ImageView>, r2: Seq<ImageView>)
    requires
        is_dedup_sort_of(m, r1),
        is_dedup_sort_of(m, r2),
    ensures
        r1 == r2,
{
    assert forall|i: int| 0 <= i < r1.len() implies has_id(r2, #[trigger] r1[i].id) by {
        let j = choose|j: int| first_with_id(m, j) && r1[i] == m[j];
        assert(has_id(r2, m[j].id));
    }
    assert forall|i: int| 0 <= i < r2.len() implies has_id(r1, #[trigger] r2[i].id) by {
        let j = choose|j: int| first_with_id(m, j) && r2[i] == m[j];
        assert(has_id(r1, m[j].id));
    }
    lemma_descending_same_ids(r1, r2);
    assert forall|i: int| 0 <= i < r1.len() implies r1[i] == r2[i] by {
        let j1 = choose|j: int| first_with_id(m, j) && r1[i] == m[j];
        let j2 = choose|j: int| first_with_id(m, j) && r2[i] == m[j];
        assert(m[j1].id == m[j2].id);
        if j1 < j2 {
            assert(m[j1].id != m[j2].id);
        } else if j2 < j1 {
            assert(m[j2].id != m[j1].id);
        }
    }
    assert(r1 =~= r2);
}

/// A list that is already deduplicated and sorted is its own
/// deduplicated, sorted form.
pub proof fn lemma_dedup_sort_of_sorted(r: Seq<ImageView>)
    requires
        strictly_descending(r),
    ensures
        is_dedup_sort_of(r, r),
{
    assert forall|i: int| 0 <= i < r.len() implies is_first_entry(r, #[trigger] r[i]) by {
        assert forall|k: int| 0 <= k < i implies r[k].id != r[i].id by {
            lemma_text_greater_irreflexive(r[i].id);
            assert(text_greater(r[k].id, r[i].id));
        }
        assert(first_with_id(r, i));
    }
    assert forall|j: int| 0 <= j < r.len() implies has_id(r, #[trigger] r[j].id) by {
        assert(r[j].id == r[j].id);
    }
}

/// Deduplicating and sorting is idempotent: applied to its own output it
/// gives that output back.
pub proof fn lemma_dedup_sort_idempotent(m: Seq<ImageView>, r: Seq<ImageView>, r2: Seq<ImageView>)
    requires
        is_dedup_sort_of(m, r),
        is_dedup_sort_of(r, r2),
    ensures
        r2 == r,
{
    lemma_dedup_sort_of_sorted(r);
    lemma_dedup_sort_unique(r, r, r2);
}

/// Each identifier of the input stands exactly once in the output, the
/// output holds no other identifier, and it is sorted descending.
pub proof fn lemma_dedup_sort_each_id_once(m: Seq<ImageView>, r: Seq<ImageView>)
    requires
        is_dedup_sort_of(m, r),
    ensures
        forall|j: int| 0 <= j < m.len() ==> has_id(r, #[trigger] m[j].id),
        forall|i: int, k: int|
            0 <= i < r.len() && 0 <= k < r.len() && #[trigger] r[i].id == #[trigger] r[k].id ==> i
                == k,
        forall|i: int| 0 <= i < r.len() ==> has_id(m, #[trigger] r[i].id),
        forall|i: int, k: int| 0 <= i < k < r.len() ==> text_greater(r[i].id, r[k].id),
{
    assert forall|i: int, k: int|
        0 <= i < r.len() && 0 <= k < r.len() && #[trigger] r[i].id == #[trigger] r[k].id implies i
        == k by {
        lemma_text_greater_irreflexive(r[i].id);
    }
    assert forall|i: int| 0 <= i < r.len() implies has_id(m, #[trigger] r[i].id) by {
        let j = choose|j: int| first_with_id(m, j) && r[i] == m[j];
    }
}

/// Sorts `records` by identifier, descending, and keeps the first record of
/// each identifier.
pub fn dedup_sort(records: &Vec<ImageRecord>) -> (r: Vec<ImageRecord>)
    ensures
        is_dedup_sort_of(records_view(records@), records_view(r@)),
{
    let ghost m = records_view(records@);
    let mut out: Vec<ImageRecord> = Vec::new();
    let mut j: usize = 0;
    assert(records_view(out@) =~= Seq::<ImageView>::empty());
    while j < records.len()
        invariant
            j <= records@.len(),
            m == records_view(records@),
            is_dedup_sort_of(m.take(j as int), records_view(out@)),
        decreases records@.len() - j,
    {
        let ghost old_r = records_view(out@);
        let ghost mj = m.take(j as int);
        let ghost mj1 = m.take(j + 1);
        let x = &records[j];
        assert(x@ == m[j as int]);
        let mut p: usize = 0;
        let mut found = false;
        let mut done = false;
        while !done && p < out.len()
            invariant
                p <= out@.len(),
                old_r == records_view(out@),
                x@ == m[j as int],
                forall|k: int| 0 <= k < p ==> text_greater(old_r[k].id, x@.id),
                done ==> p < out@.len() && (found ==> old_r[p as int].id == x@.id) && (!found
                    ==> text_greater(x@.id, old_r[p as int].id)),
                !done ==> !found,
            decreases out@.len() - p + (if done { 0int } else { 1int }),
        {
            assert(old_r[p as int] == out@[p as int]@);
            match compare_text(out[p].id.as_str(), x.id.as_str()) {
                Ordering::Greater => {
                    p = p + 1;
                },
                Ordering::Equal => {
                    found = true;
                    done = true;
                },
                Ordering::Less => {
                    done = true;
                },
            }
        }
        assert forall|k: int| 0 <= k < j implies #[trigger] mj1[k] == mj[k] && mj1[k] == m[k] by {}
        assert(mj1[j as int] == m[j as int]);
        if found {
            assert(old_r[p as int].id == x@.id);
            assert forall|i: int| 0 <= i < old_r.len() implies is_first_entry(mj1, #[trigger] old_r[i]) by {
                let jj = choose|jj: int| first_with_id(mj, jj) && old_r[i] == mj[jj];
                assert(first_with_id(mj1, jj));
            }
            assert forall|jj: int| 0 <= jj < mj1.len() implies has_id(old_r, #[trigger] mj1[jj].id) by {
                if jj < j {
                    assert(has_id(old_r, mj[jj].id));
                }
            }
        } else {
            let ghost xv = x@;
            proof {
                // x's identifier is not yet in the output
                assert forall|k: int| 0 <= k < old_r.len() implies old_r[k].id != xv.id by {
                    if k < p {
                        lemma_text_greater_irreflexive(xv.id);
                    } else {
                        // x sorts above old_r[p], which sorts at or above old_r[k]
                        lemma_text_greater_irreflexive(xv.id);
                        if k > p {
                            lemma_text_greater_transitive(xv.id, old_r[p as int].id, old_r[k].id);
                        }
                    }
                }
                assert(first_with_id(mj1, j as int)) by {
                    assert forall|k: int| 0 <= k < j implies mj1[k].id != mj1[j as int].id by {
                        assert(has_id(old_r, mj[k].id));
                    }
                }
            }
            let y = x.clone();
            out.insert(p, y);
            let ghost new_r = records_view(out@);
            assert(new_r =~= old_r.insert(p as int, xv));
            assert forall|a: int, b: int| 0 <= a < b < new_r.len() implies text_greater(
                new_r[a].id,
                new_r[b].id,
            ) by {
                if a < p && b == p {
                } else if a < p && b > p {
                    assert(new_r[b] == old_r[b - 1]);
                } else if a == p {
                    assert(new_r[b] == old_r[b - 1]);
                    if b - 1 > p {
                        lemma_text_greater_transitive(xv.id, old_r[p as int].id, old_r[b - 1].id);
                    }
                } else if a > p {
                    assert(new_r[a] == old_r[a - 1]);
                    assert(new_r[b] == old_r[b - 1]);
                }
            }
            assert forall|i: int| 0 <= i < new_r.len() implies is_first_entry(mj1, #[trigger] new_r[i]) by {
                if i == p {
                    assert(new_r[i] == mj1[j as int]);
                } else {
                    let oi = if i < p { i } else { i - 1 };
                    assert(new_r[i] == old_r[oi]);
                    let jj = choose|jj: int| first_with_id(mj, jj) && old_r[oi] == mj[jj];
                    assert(first_with_id(mj1, jj));
                }
            }
            assert forall|jj: int| 0 <= jj < mj1.len() implies has_id(new_r, #[trigger] mj1[jj].id) by {
                if jj < j {
                    assert(has_id(old_r, mj[jj].id));
                    let i = choose|i: int| 0 <= i < old_r.len() && old_r[i].id == mj[jj].id;
                    if i < p {
                        assert(new_r[i] == old_r[i]);
                    } else {
                        assert(new_r[i + 1] == old_r[i]);
                    }
                } else {
                    assert(new_r[p as int].id == mj1[jj].id);
                }
            }
        }
        j = j + 1;
    }
    assert(m.take(records@.len() as int) =~= m);
    out
}

} // verus!
