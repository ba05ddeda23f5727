//! Text primitives over the character sequences that strings view as:
//! substring search and the code-point order that `String`'s `Ord` uses.

use std::cmp::Ordering;
use vstd::prelude::*;
use vstd::string::*;

verus! {

/// `q` occurs in `t` starting at character position `i`.
pub open spec fn occurs_at(t: Seq<char>, q: Seq<char>, i: int) -> bool {
    0 <= i && i + q.len() <= t.len() && t.subrange(i, i + q.len()) == q
}

/// `q` is a substring of `t`.
pub open spec fn contains_text(t: Seq<char>, q: Seq<char>) -> bool {
    exists|i: int| occurs_at(t, q, i)
}

/// Strict lexicographic order by code point: `a` sorts after `b`.
/// A proper prefix sorts before the longer text.
pub open spec fn text_greater(a: Seq<char>, b: Seq<char>) -> bool
    decreases a.len(),
{
    if a.len() == 0 {
        false
    } else if b.len() == 0 {
        true
    } else if a[0] != b[0] {
        a[0] > b[0]
    } else {
        text_greater(a.drop_first(), b.drop_first())
    }
}

pub proof fn lemma_text_greater_irreflexive(a: Seq<char>)
    ensures
        !text_greater(a, a),
    decreases a.len(),
{
    if a.len() > 0 {
        lemma_text_greater_irreflexive(a.drop_first());
    }
}

pub proof fn lemma_text_greater_asymmetric(a: Seq<char>, b: Seq<char>)
    ensures
        text_greater(a, b) ==> !text_greater(b, a),
    decreases a.len(),
{
    if a.len() > 0 && b.len() > 0 && a[0] == b[0] {
        lemma_text_greater_asymmetric(a.drop_first(), b.drop_first());
    }
}

pub proof fn lemma_text_greater_transitive(a: Seq<char>, b: Seq<char>, c: Seq<char>)
    requires
        text_greater(a, b),
        text_greater(b, c),
    ensures
        text_greater(a, c),
    decreases a.len(),
{
    if a.len() > 0 && b.len() > 0 && c.len() > 0 && a[0] == b[0] && b[0] == c[0] {
        lemma_text_greater_transitive(a.drop_first(), b.drop_first(), c.drop_first());
    }
}

pub proof fn lemma_text_greater_total(a: Seq<char>, b: Seq<char>)
    ensures
        a == b || text_greater(a, b) || text_greater(b, a),
    decreases a.len(),
{
    if a.len() == 0 && b.len() == 0 {
        assert(a =~= b);
    } else if a.len() > 0 && b.len() > 0 && a[0] == b[0] {
        lemma_text_greater_total(a.drop_first(), b.drop_first());
        if a.drop_first() == b.drop_first() {
            assert forall|k: int| 0 <= k < a.len() implies a[k] == b[k] by {
                if k > 0 {
                    assert(a[k] == a.drop_first()[k - 1]);
                    assert(b[k] == b.drop_first()[k - 1]);
                }
            }
            assert(a.drop_first().len() == a.len() - 1);
            assert(b.drop_first().len() == b.len() - 1);
            assert(a.len() == b.len());
            assert(a =~= b);
        }
    }
}

/// Whether `q` occurs in `t`, as `str::contains` answers it.
pub fn text_contains(t: &str, q: &str) -> (r: bool)
    ensures
        r == contains_text(t@, q@),
{
    let tl: usize = t.unicode_len();
    let ql: usize = q.unicode_len();
    if ql > tl {
        assert forall|i: int| !occurs_at(t@, q@, i) by {}
        return false;
    }
    let mut i: usize = 0;
    while i <= tl - ql
        invariant
            tl == t@.len(),
            ql == q@.len(),
            ql <= tl,
            i <= tl - ql + 1,
            forall|k: int| 0 <= k < i ==> !occurs_at(t@, q@, k),
        decreases tl - ql + 1 - i,
    {
        let mut j: usize = 0;
        while j < ql && t.get_char(i + j) == q.get_char(j)
            invariant
                tl == t@.len(),
                ql == q@.len(),
                i + ql <= tl,
                j <= ql,
                forall|m: int| 0 <= m < j ==> t@[i + m] == q@[m],
            decreases ql - j,
        {
            j = j + 1;
        }
        if j == ql {
            assert(t@.subrange(i as int, i + ql) =~= q@);
            assert(occurs_at(t@, q@, i as int));
            return true;
        }
        assert(t@.subrange(i as int, i + ql)[j as int] != q@[j as int]);
        i = i + 1;
    }
    assert forall|k: int| !occurs_at(t@, q@, k) by {
        if 0 <= k && k + ql <= tl {
            assert(k < i);
        }
    }
    false
}

/// Three-way comparison by code point, as `Ord for str` orders.
pub fn compare_text(a: &str, b: &str) -> (r: Ordering)
    ensures
        (r == Ordering::Greater) == text_greater(a@, b@),
        (r == Ordering::Less) == text_greater(b@, a@),
        (r == Ordering::Equal) == (a@ == b@),
{
    proof {
        lemma_text_greater_irreflexive(a@);
        lemma_text_greater_asymmetric(a@, b@);
        lemma_text_greater_total(a@, b@);
    }
    let al: usize = a.unicode_len();
    let bl: usize = b.unicode_len();
    let mut i: usize = 0;
    assert(a@.skip(0) =~= a@);
    assert(b@.skip(0) =~= b@);
    assert(a@.subrange(0, 0) =~= b@.subrange(0, 0));
    while i < al && i < bl
        invariant
            al == a@.len(),
            bl == b@.len(),
            i <= al,
            i <= bl,
            a@.subrange(0, i as int) == b@.subrange(0, i as int),
            text_greater(a@, b@) == text_greater(a@.skip(i as int), b@.skip(i as int)),
            text_greater(b@, a@) == text_greater(b@.skip(i as int), a@.skip(i as int)),
        decreases al - i,
    {
        let ca = a.get_char(i);
        let cb = b.get_char(i);
        if ca != cb {
            if ca > cb {
                return Ordering::Greater;
            } else {
                return Ordering::Less;
            }
        }
        assert(a@.skip(i as int).drop_first() =~= a@.skip(i + 1));
        assert(b@.skip(i as int).drop_first() =~= b@.skip(i + 1));
        assert(a@.subrange(0, i + 1) =~= a@.subrange(0, i as int).push(ca));
        assert(b@.subrange(0, i + 1) =~= b@.subrange(0, i as int).push(cb));
        i = i + 1;
    }
    if i < al {
        Ordering::Greater
    } else if i < bl {
        Ordering::Less
    } else {
        assert(a@ =~= a@.subrange(0, i as int));
        assert(b@ =~= b@.subrange(0, i as int));
        Ordering::Equal
    }
}

} // verus!
