use vstd::prelude::*;
use crate::column::ColumnModel;
use crate::layout::{
    bump_first, cleared, fitted, natural_fit, outer_widths, required_width, shrink_marked,
    tier_marks, widen_marked, wrap_tier, wrapped, Columns, Measures,
};
use crate::sums::{
    count, lemma_count_step, lemma_sum_add, lemma_sum_covers, lemma_sum_marked, lemma_sum_monotone,
    lemma_sum_step, sum,
};

verus! {

/// No word of a cell is longer than the cell's text on one line.
pub open spec fn sound(sizes: Measures) -> bool {
    forall|r: int, c: int|
        0 <= r < sizes.len() && 0 <= c < sizes[r].len() ==> (#[trigger] sizes[r][c]).longest
            <= sizes[r][c].natural
}

/// The greatest natural width among the cells of column `c` in the first
/// `rows` rows.
pub open spec fn widest(sizes: Measures, c: int, rows: int) -> nat
    decreases rows,
{
    if rows <= 0 {
        0
    } else {
        let rest = widest(sizes, c, rows - 1);
        let w = sizes[rows - 1][c].natural;
        if w > rest { w } else { rest }
    }
}

/// The most that the column can ask for: the widest of its cells with the
/// column's padding, or its minimum width where that is more.
pub open spec fn ample(col: ColumnModel, sizes: Measures, c: int) -> nat {
    let least = col.minimum_width();
    let full = widest(sizes, c, sizes.len() as int) + col.horizontal_padding();
    if least > full { least } else { full }
}

/// For each column its left margin and the most that it can ask for.
pub open spec fn ample_widths(cols: Columns, sizes: Measures) -> Seq<nat> {
    Seq::new(cols.len(), |c: int| cols[c].left_margin + ample(cols[c], sizes, c))
}

/// The width of the table when every column is as wide as it can ask for: what
/// the data would take in a viewport without end.
pub open spec fn unconstrained_width(cols: Columns, sizes: Measures) -> nat {
    sum(ample_widths(cols, sizes))
}

/// No column is wider than it can ask for.
pub open spec fn tame(cols: Columns, sizes: Measures) -> bool {
    forall|c: int| 0 <= c < cols.len() ==> (#[trigger] cols[c]).width <= ample(cols[c], sizes, c)
}

/// The columns `a` are the columns `b` but for their widths.
pub open spec fn reshaped(a: Columns, b: Columns) -> bool {
    &&& a.len() == b.len()
    &&& forall|c: int| 0 <= c < a.len() ==> (#[trigger] a[c]) == b[c].with_width(a[c].width)
}

/// The widest cell of a column is no narrower than any of its cells.
pub proof fn lemma_widest_covers(sizes: Measures, c: int, rows: int, r: int)
    requires
        0 <= r < rows,
    ensures
        sizes[r][c].natural <= widest(sizes, c, rows),
    decreases rows,
{
    if r < rows - 1 {
        lemma_widest_covers(sizes, c, rows - 1, r);
    }
}

/// Natural fitting changes the width of a column only, and leaves it no wider
/// than it was or than the widest of its cells asks for or than its minimum.
pub proof fn lemma_fitted(col: ColumnModel, sizes: Measures, c: int, rows: int)
    ensures
        fitted(col, sizes, c, rows) == col.with_width(fitted(col, sizes, c, rows).width),
        fitted(col, sizes, c, rows).width <= col.width || fitted(col, sizes, c, rows).width
            <= col.minimum_width() || fitted(col, sizes, c, rows).width <= widest(sizes, c, rows)
            + col.horizontal_padding(),
    decreases rows,
{
    if rows > 0 {
        lemma_fitted(col, sizes, c, rows - 1);
    }
}

/// Wrapping changes the width of a column only.
pub proof fn lemma_wrapped_shape(col: ColumnModel, sizes: Measures, c: int, rows: int)
    ensures
        wrapped(col, sizes, c, rows) == col.with_width(wrapped(col, sizes, c, rows).width),
    decreases rows,
{
    if rows > 0 {
        lemma_wrapped_shape(col, sizes, c, rows - 1);
    }
}

/// Wrapping changes the width of a column only, and leaves it no wider than
/// the widest of its cells asks for or than its minimum.
pub proof fn lemma_wrapped(col: ColumnModel, sizes: Measures, c: int, rows: int)
    requires
        forall|r: int| 0 <= r < rows ==> (#[trigger] sizes[r])[c].longest <= sizes[r][c].natural,
    ensures
        wrapped(col, sizes, c, rows) == col.with_width(wrapped(col, sizes, c, rows).width),
        wrapped(col, sizes, c, rows).width <= col.minimum_width() || wrapped(
            col,
            sizes,
            c,
            rows,
        ).width <= widest(sizes, c, rows) + col.horizontal_padding(),
    decreases rows,
{
    if rows > 0 {
        lemma_wrapped(col, sizes, c, rows - 1);
        assert(sizes[rows - 1][c].longest <= sizes[rows - 1][c].natural);
    }
}

/// Tame columns require no more than the unconstrained width, and their
/// paddings are of machine size where that width is.
pub proof fn lemma_tame_required(cols: Columns, sizes: Measures)
    requires
        tame(cols, sizes),
    ensures
        required_width(cols) <= unconstrained_width(cols, sizes),
        forall|c: int|
            0 <= c < cols.len() ==> (#[trigger] cols[c]).horizontal_padding()
                <= unconstrained_width(cols, sizes),
        forall|c: int|
            0 <= c < cols.len() ==> ample(#[trigger] cols[c], sizes, c) <= unconstrained_width(
                cols,
                sizes,
            ),
{
    let outer = outer_widths(cols);
    let caps = ample_widths(cols, sizes);
    assert forall|c: int| 0 <= c < cols.len() implies outer[c] <= caps[c] by {
        assert(cols[c].width <= ample(cols[c], sizes, c));
    }
    lemma_sum_monotone(outer, caps);
    assert forall|c: int| 0 <= c < cols.len() implies ample(#[trigger] cols[c], sizes, c)
        <= unconstrained_width(cols, sizes) by {
        lemma_sum_covers(caps, c);
    }
}

/// What columns can ask for does not depend on their widths.
pub proof fn lemma_reshaped(a: Columns, b: Columns, sizes: Measures)
    requires
        reshaped(a, b),
    ensures
        unconstrained_width(a, sizes) == unconstrained_width(b, sizes),
        forall|c: int| 0 <= c < a.len() ==> ample(#[trigger] a[c], sizes, c) == ample(b[c], sizes, c),
{
    assert forall|c: int| 0 <= c < a.len() implies ample(#[trigger] a[c], sizes, c) == ample(
        b[c],
        sizes,
        c,
    ) by {
        assert(a[c] == b[c].with_width(a[c].width));
    }
    assert(ample_widths(a, sizes) =~= ample_widths(b, sizes)) by {
        assert forall|c: int| 0 <= c < a.len() implies ample_widths(a, sizes)[c] == ample_widths(
            b,
            sizes,
        )[c] by {
            assert(a[c] == b[c].with_width(a[c].width));
        }
    }
}

/// Natural fitting of tame columns gives tame columns, changed in width only.
pub proof fn lemma_natural_fit_tame(cols: Columns, sizes: Measures)
    requires
        tame(cols, sizes),
    ensures
        tame(natural_fit(cols, sizes), sizes),
        reshaped(natural_fit(cols, sizes), cols),
{
    let next = natural_fit(cols, sizes);
    assert forall|c: int| 0 <= c < cols.len() implies (#[trigger] next[c]) == cols[c].with_width(
        next[c].width,
    ) && next[c].width <= ample(next[c], sizes, c) by {
        lemma_fitted(cols[c], sizes, c, sizes.len() as int);
        assert(cols[c].width <= ample(cols[c], sizes, c));
    }
}

/// Wrapping a tier of tame columns gives tame columns, changed in width only.
pub proof fn lemma_wrap_tier_tame(cols: Columns, sizes: Measures, p: nat)
    requires
        tame(cols, sizes),
        sound(sizes),
        forall|r: int| 0 <= r < sizes.len() ==> (#[trigger] sizes[r]).len() == cols.len(),
    ensures
        tame(wrap_tier(cols, sizes, p), sizes),
        reshaped(wrap_tier(cols, sizes, p), cols),
{
    let next = wrap_tier(cols, sizes, p);
    assert forall|c: int| 0 <= c < cols.len() implies (#[trigger] next[c]) == cols[c].with_width(
        next[c].width,
    ) && next[c].width <= ample(next[c], sizes, c) by {
        assert(cols[c].width <= ample(cols[c], sizes, c));
        if tier_marks(cols, p)[c] {
            assert forall|r: int| 0 <= r < sizes.len() implies (#[trigger] sizes[r])[c].longest
                <= sizes[r][c].natural by {
                assert(sizes[r].len() == cols.len());
                assert(sizes[r][c].longest <= sizes[r][c].natural);
            }
            lemma_wrapped(cols[c], sizes, c, sizes.len() as int);
        }
    }
}

/// The paddings of machine size stay so where only widths change.
pub proof fn lemma_reshaped_paddings(a: Columns, b: Columns)
    requires
        reshaped(a, b),
    ensures
        forall|c: int|
            0 <= c < a.len() ==> (#[trigger] a[c]).horizontal_padding()
                == b[c].horizontal_padding(),
        forall|c: int| 0 <= c < a.len() ==> (#[trigger] a[c]).priority == b[c].priority,
{
    assert forall|c: int| 0 <= c < a.len() implies (#[trigger] a[c]).horizontal_padding()
        == b[c].horizontal_padding() && a[c].priority == b[c].priority by {
        assert(a[c] == b[c].with_width(a[c].width));
    }
}

/// Columns changed in width only, and then again, are changed in width only.
pub proof fn lemma_reshaped_twice(a: Columns, b: Columns, c: Columns)
    requires
        reshaped(a, b),
        reshaped(b, c),
    ensures
        reshaped(a, c),
{
    assert forall|i: int| 0 <= i < a.len() implies (#[trigger] a[i]) == c[i].with_width(
        a[i].width,
    ) by {
        assert(a[i] == b[i].with_width(a[i].width));
        assert(b[i] == c[i].with_width(b[i].width));
    }
}

/// A round of truncation changes widths only, and the table requires no more
/// after it than before.
pub proof fn lemma_shrink_marked(cols: Columns, marks: Seq<bool>, amount: nat)
    ensures
        reshaped(shrink_marked(cols, marks, amount), cols),
        required_width(shrink_marked(cols, marks, amount)) <= required_width(cols),
{
    let next = shrink_marked(cols, marks, amount);
    assert forall|c: int| 0 <= c < cols.len() implies outer_widths(next)[c] <= outer_widths(
        cols,
    )[c] by {}
    lemma_sum_monotone(outer_widths(next), outer_widths(cols));
}

/// What the first `k` marks are worth, one each.
pub open spec fn first_marks(marks: Seq<bool>, k: nat) -> Seq<nat> {
    Seq::new(marks.len(), |c: int| if marks[c] && count(marks.take(c)) < k { 1nat } else { 0nat })
}

/// The first `k` marks are `k` at most.
pub proof fn lemma_first_marks(marks: Seq<bool>, k: nat, i: int)
    requires
        0 <= i <= marks.len(),
    ensures
        sum(first_marks(marks, k).take(i)) == if count(marks.take(i)) < k {
            count(marks.take(i))
        } else {
            k
        },
    decreases i,
{
    if i > 0 {
        lemma_first_marks(marks, k, i - 1);
        lemma_sum_step(first_marks(marks, k), i - 1);
        lemma_count_step(marks, i - 1);
    } else {
        assert(first_marks(marks, k).take(0) =~= Seq::<nat>::empty());
        assert(marks.take(0) =~= Seq::<bool>::empty());
    }
}

/// Making the first `k` marked columns one wider changes widths only, and the
/// table then requires `k` more at most.
pub proof fn lemma_bump_first(cols: Columns, marks: Seq<bool>, k: nat)
    requires
        marks.len() == cols.len(),
    ensures
        reshaped(bump_first(cols, marks, k), cols),
        required_width(bump_first(cols, marks, k)) <= required_width(cols) + k,
        forall|c: int| 0 <= c < cols.len() && !marks[c] ==> bump_first(cols, marks, k)[c] == cols[c],
{
    let next = bump_first(cols, marks, k);
    let gain = first_marks(marks, k);
    let raised = Seq::new(cols.len(), |c: int| outer_widths(cols)[c] + gain[c]);
    assert forall|c: int| 0 <= c < cols.len() implies outer_widths(next)[c] <= raised[c] by {}
    lemma_sum_monotone(outer_widths(next), raised);
    lemma_sum_add(outer_widths(cols), gain, raised);
    lemma_first_marks(marks, k, marks.len() as int);
    assert(gain.take(marks.len() as int) =~= gain);
}

/// Widening marked columns that can grow changes widths only, and the table
/// then requires `share` more for each of them at most.
pub proof fn lemma_widen_marked(cols: Columns, marks: Seq<bool>, share: nat)
    requires
        marks.len() == cols.len(),
        forall|c: int| 0 <= c < cols.len() && marks[c] ==> (#[trigger] cols[c]).is_expandable(),
    ensures
        reshaped(widen_marked(cols, marks, share), cols),
        required_width(widen_marked(cols, marks, share)) <= required_width(cols) + share * count(
            marks,
        ),
        forall|c: int|
            0 <= c < cols.len() && !marks[c] ==> widen_marked(cols, marks, share)[c] == cols[c],
{
    let next = widen_marked(cols, marks, share);
    let gain = Seq::new(cols.len(), |c: int| if marks[c] { share } else { 0nat });
    let raised = Seq::new(cols.len(), |c: int| outer_widths(cols)[c] + gain[c]);
    assert forall|c: int| 0 <= c < cols.len() implies outer_widths(next)[c] <= raised[c] by {
        if marks[c] {
            assert(cols[c].is_expandable());
        }
    }
    lemma_sum_monotone(outer_widths(next), raised);
    lemma_sum_add(outer_widths(cols), gain, raised);
    lemma_sum_marked(marks, share, gain);
}

/// Equal shares of a surplus are together no more than the surplus.
pub proof fn lemma_shares(surplus: nat, parts: nat)
    requires
        parts > 0,
    ensures
        (surplus / parts) * parts <= surplus,
        surplus > parts ==> surplus / parts >= 1,
{
    assert((surplus / parts) * parts <= surplus) by (nonlinear_arith)
        requires
            parts > 0,
    ;
    assert(surplus > parts ==> surplus / parts >= 1) by (nonlinear_arith)
        requires
            parts > 0,
    ;
}

/// Columns with their widths forgotten are tame, and can ask for what they
/// could ask for before.
pub proof fn lemma_cleared(cols: Columns, sizes: Measures)
    ensures
        tame(cleared(cols), sizes),
        unconstrained_width(cleared(cols), sizes) == unconstrained_width(cols, sizes),
{
    assert(ample_widths(cleared(cols), sizes) =~= ample_widths(cols, sizes));
}

} // verus!
