use vstd::prelude::*;

verus! {

/// The sum of the numbers of `s`.
pub open spec fn sum(s: Seq<nat>) -> nat
    decreases s.len(),
{
    if s.len() == 0 {
        0
    } else {
        sum(s.drop_last()) + s.last()
    }
}

/// The number of marks set in `marks`.
pub open spec fn count(marks: Seq<bool>) -> nat
    decreases marks.len(),
{
    if marks.len() == 0 {
        0
    } else {
        count(marks.drop_last()) + if marks.last() { 1nat } else { 0nat }
    }
}

/// A sum grows by its next number.
pub proof fn lemma_sum_step(s: Seq<nat>, i: int)
    requires
        0 <= i < s.len(),
    ensures
        sum(s.take(i + 1)) == sum(s.take(i)) + s[i],
{
    assert(s.take(i + 1).drop_last() =~= s.take(i));
}

/// A count grows by one at each mark.
pub proof fn lemma_count_step(marks: Seq<bool>, i: int)
    requires
        0 <= i < marks.len(),
    ensures
        count(marks.take(i + 1)) == count(marks.take(i)) + if marks[i] { 1nat } else { 0nat },
        count(marks.take(i)) <= i,
    decreases i,
{
    assert(marks.take(i + 1).drop_last() =~= marks.take(i));
    if i > 0 {
        lemma_count_step(marks, i - 1);
    }
}

/// A leading part of a sum is no more than the whole.
pub proof fn lemma_sum_take(s: Seq<nat>, i: int)
    requires
        0 <= i <= s.len(),
    ensures
        sum(s.take(i)) <= sum(s),
    decreases s.len() - i,
{
    if i < s.len() {
        lemma_sum_step(s, i);
        lemma_sum_take(s, i + 1);
    } else {
        assert(s.take(i) =~= s);
    }
}

/// Each number is no more than the sum.
pub proof fn lemma_sum_covers(s: Seq<nat>, i: int)
    requires
        0 <= i < s.len(),
    ensures
        s[i] <= sum(s),
{
    lemma_sum_step(s, i);
    lemma_sum_take(s, i + 1);
}

/// Where no number of `a` exceeds its partner in `b`, the sums compare alike.
pub proof fn lemma_sum_monotone(a: Seq<nat>, b: Seq<nat>)
    requires
        a.len() == b.len(),
        forall|i: int| 0 <= i < a.len() ==> a[i] <= b[i],
    ensures
        sum(a) <= sum(b),
    decreases a.len(),
{
    if a.len() > 0 {
        lemma_sum_monotone(a.drop_last(), b.drop_last());
    }
}

/// Where moreover one number of `a` is less than its partner, so is the sum.
pub proof fn lemma_sum_strict(a: Seq<nat>, b: Seq<nat>, k: int)
    requires
        a.len() == b.len(),
        forall|i: int| 0 <= i < a.len() ==> a[i] <= b[i],
        0 <= k < a.len(),
        a[k] < b[k],
    ensures
        sum(a) < sum(b),
    decreases a.len(),
{
    if k == a.len() - 1 {
        lemma_sum_monotone(a.drop_last(), b.drop_last());
    } else {
        lemma_sum_strict(a.drop_last(), b.drop_last(), k);
    }
}

/// The sum of sums taken place by place is the sum of the two sums.
pub proof fn lemma_sum_add(a: Seq<nat>, b: Seq<nat>, c: Seq<nat>)
    requires
        a.len() == b.len(),
        a.len() == c.len(),
        forall|i: int| 0 <= i < a.len() ==> c[i] == a[i] + b[i],
    ensures
        sum(c) == sum(a) + sum(b),
    decreases a.len(),
{
    if a.len() > 0 {
        lemma_sum_add(a.drop_last(), b.drop_last(), c.drop_last());
    }
}

/// A list that holds `k` at each mark and nothing elsewhere sums to `k` times
/// the number of marks.
pub proof fn lemma_sum_marked(marks: Seq<bool>, k: nat, s: Seq<nat>)
    requires
        s.len() == marks.len(),
        forall|i: int| 0 <= i < s.len() ==> s[i] == if marks[i] { k } else { 0 },
    ensures
        sum(s) == k * count(marks),
    decreases s.len(),
{
    if s.len() > 0 {
        lemma_sum_marked(marks.drop_last(), k, s.drop_last());
        let m = count(marks.drop_last());
        assert(k * (m + 1) == k * m + k) by (nonlinear_arith);
        assert(s.last() == if marks.last() { k } else { 0 });
    } else {
        assert(k * 0 == 0) by (nonlinear_arith);
    }
}

/// Where a mark is set, the count is not nothing; where the count is not
/// nothing, a mark is set.
pub proof fn lemma_count_positive(marks: Seq<bool>)
    ensures
        count(marks) > 0 <==> exists|i: int| 0 <= i < marks.len() && marks[i],
    decreases marks.len(),
{
    if marks.len() > 0 {
        lemma_count_positive(marks.drop_last());
        let rest = marks.drop_last();
        if count(marks) > 0 {
            if marks.last() {
                assert(marks[marks.len() - 1]);
            } else {
                let i = choose|i: int| 0 <= i < rest.len() && rest[i];
                assert(marks[i]);
            }
        }
        if exists|i: int| 0 <= i < marks.len() && marks[i] {
            let i = choose|i: int| 0 <= i < marks.len() && marks[i];
            if i < rest.len() {
                assert(rest[i]);
            }
        }
    }
}

/// Taking marks away leaves fewer, if one mark at least goes.
pub proof fn lemma_count_strict(a: Seq<bool>, b: Seq<bool>, k: int)
    requires
        a.len() == b.len(),
        forall|i: int| 0 <= i < a.len() ==> (a[i] ==> b[i]),
        0 <= k < a.len(),
        !a[k] && b[k],
    ensures
        count(a) < count(b),
    decreases a.len(),
{
    if k == a.len() - 1 {
        lemma_count_monotone(a.drop_last(), b.drop_last());
    } else {
        lemma_count_strict(a.drop_last(), b.drop_last(), k);
    }
}

/// A part of the marks counts no more than all of them.
pub proof fn lemma_count_monotone(a: Seq<bool>, b: Seq<bool>)
    requires
        a.len() == b.len(),
        forall|i: int| 0 <= i < a.len() ==> (a[i] ==> b[i]),
    ensures
        count(a) <= count(b),
    decreases a.len(),
{
    if a.len() > 0 {
        lemma_count_monotone(a.drop_last(), b.drop_last());
    }
}

} // verus!
