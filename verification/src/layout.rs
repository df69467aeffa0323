use vstd::prelude::*;
use crate::column::ColumnModel;
use crate::error::ColonnadeError;
use crate::sums::{
    count, lemma_count_positive, lemma_count_strict, lemma_sum_covers, lemma_sum_strict, sum,
};

verus! {

/// What the layout needs to know of the text of one cell.
pub struct Measure {
    /// The width of the text on one line, white space normalized.
    pub natural: nat,
    /// The length of its longest word.
    pub longest: nat,
}

/// The measures of a table: one list for each row, one measure for each cell.
pub type Measures = Seq<Seq<Measure>>;

/// The columns of a table, from left to right.
pub type Columns = Seq<ColumnModel>;

/// The outer width of each column.
pub open spec fn outer_widths(cols: Columns) -> Seq<nat> {
    Seq::new(cols.len(), |c: int| cols[c].outer_width())
}

/// The amount of space required to display the data given the columns as
/// they are.
pub open spec fn required_width(cols: Columns) -> nat {
    sum(outer_widths(cols))
}

/// For each column its left margin and its minimum width, or one character where it
/// has none.
pub open spec fn least_widths(cols: Columns) -> Seq<nat> {
    Seq::new(
        cols.len(),
        |c: int|
            cols[c].left_margin + match cols[c].min_width {
                Some(m) => m,
                None => 1,
            },
    )
}

/// The absolute minimal space that might fit the table, assuming some data in
/// every column.
pub open spec fn minimal_width(cols: Columns) -> nat {
    sum(least_widths(cols))
}

/// The width of each column.
pub open spec fn widths(cols: Columns) -> Seq<nat> {
    Seq::new(cols.len(), |c: int| cols[c].width)
}

/// The widths of all columns together, margins and bounds aside.
pub open spec fn total_width(cols: Columns) -> nat {
    sum(widths(cols))
}

/// For each column how much narrower than the viewport it is.
pub open spec fn rooms(cols: Columns, viewport: nat) -> Seq<nat> {
    Seq::new(
        cols.len(),
        |c: int| if cols[c].width < viewport { (viewport - cols[c].width) as nat } else { 0 },
    )
}

/// How far the columns are from being as wide as the viewport each.
pub open spec fn headroom(cols: Columns, viewport: nat) -> nat {
    sum(rooms(cols, viewport))
}

/// Whether the widths of all columns have been resolved.
pub open spec fn all_adjusted(cols: Columns) -> bool {
    forall|c: int| 0 <= c < cols.len() ==> (#[trigger] cols[c]).adjusted
}

/// The columns with their widths forgotten.
pub open spec fn cleared(cols: Columns) -> Columns {
    Seq::new(cols.len(), |c: int| cols[c].cleared())
}

/// The columns marked as resolved.
pub open spec fn settled(cols: Columns) -> Columns {
    Seq::new(cols.len(), |c: int| cols[c].with_adjusted(true))
}

/// Every row has `n` cells.
pub open spec fn rectangular(sizes: Measures, n: nat) -> bool {
    forall|r: int| 0 <= r < sizes.len() ==> (#[trigger] sizes[r]).len() == n
}

/// The first row at or after `from` that has not `n` cells, if there is one.
pub open spec fn first_ragged(sizes: Measures, n: nat, from: int) -> Option<int>
    decreases sizes.len() - from,
{
    if from < 0 || from >= sizes.len() {
        None
    } else if sizes[from].len() != n {
        Some(from)
    } else {
        first_ragged(sizes, n, from + 1)
    }
}

/// The column after it was widened to the natural width of its cell in each of
/// the first `rows` rows, one after the other.
pub open spec fn fitted(col: ColumnModel, sizes: Measures, c: int, rows: int) -> ColumnModel
    decreases rows,
{
    if rows <= 0 {
        col
    } else {
        fitted(col, sizes, c, rows - 1).expand(
            sizes[rows - 1][c].natural + col.horizontal_padding(),
        )
    }
}

/// Every column widened to hold each of its cells on one line, as far as its
/// bounds allow.
pub open spec fn natural_fit(cols: Columns, sizes: Measures) -> Columns {
    Seq::new(cols.len(), |c: int| fitted(cols[c], sizes, c, sizes.len() as int))
}

/// The column brought down to its minimum and then widened to the longest word
/// of its cell in each of the first `rows` rows.
pub open spec fn wrapped(col: ColumnModel, sizes: Measures, c: int, rows: int) -> ColumnModel
    decreases rows,
{
    if rows <= 0 {
        col.shrink(0)
    } else {
        wrapped(col, sizes, c, rows - 1).expand(
            sizes[rows - 1][c].longest + col.horizontal_padding(),
        )
    }
}

/// The greatest priority number among the first `upto` columns that is below
/// `bound`, if there is one; with no bound, the greatest of all.
pub open spec fn highest_below(cols: Columns, bound: Option<nat>, upto: int) -> Option<nat>
    decreases upto,
{
    if upto <= 0 {
        None
    } else {
        let rest = highest_below(cols, bound, upto - 1);
        let p = cols[upto - 1].priority;
        if (bound is None || p < bound->0) && (rest is None || p > rest->0) {
            Some(p)
        } else {
            rest
        }
    }
}

/// The next tier of columns to give up space after the tier `p`.
pub open spec fn tier_after(cols: Columns, p: nat) -> Option<nat> {
    highest_below(cols, Some(p), cols.len() as int)
}

/// The first tier of columns to give up space: the least important ones.
pub open spec fn first_tier(cols: Columns) -> Option<nat> {
    highest_below(cols, None, cols.len() as int)
}

/// A number that falls from tier to tier.
pub open spec fn tier_rank(tier: Option<nat>) -> nat {
    match tier {
        Some(p) => p + 1,
        None => 0,
    }
}

/// The columns of priority `p` that can still shrink.
pub open spec fn tier_marks(cols: Columns, p: nat) -> Seq<bool> {
    Seq::new(cols.len(), |c: int| cols[c].priority == p && cols[c].is_shrinkable())
}

/// `n` marks, none of them set.
pub open spec fn no_marks(n: nat) -> Seq<bool> {
    Seq::new(n, |c: int| false)
}

/// The marks that are set in one of the two lists.
pub open spec fn either(a: Seq<bool>, b: Seq<bool>) -> Seq<bool> {
    Seq::new(a.len(), |c: int| a[c] || b[c])
}

/// The columns of the tier `p` wrapped to their longest words.
pub open spec fn wrap_tier(cols: Columns, sizes: Measures, p: nat) -> Columns {
    Seq::new(
        cols.len(),
        |c: int|
            if tier_marks(cols, p)[c] {
                wrapped(cols[c], sizes, c, sizes.len() as int)
            } else {
                cols[c]
            },
    )
}

/// The priority shrink pass from the tier `tier` on: tier after tier, the
/// least important first, the columns are wrapped to their longest words,
/// until the table fits the viewport or no tier is left. The result holds the
/// columns and the marks of those that were wrapped, `modified` among them.
pub open spec fn shrink_pass(
    cols: Columns,
    sizes: Measures,
    viewport: nat,
    tier: Option<nat>,
    modified: Seq<bool>,
) -> (Columns, Seq<bool>)
    decreases tier_rank(tier),
{
    match tier {
        None => (cols, modified),
        Some(p) => {
            let next = wrap_tier(cols, sizes, p);
            let touched = either(tier_marks(cols, p), modified);
            if required_width(next) <= viewport {
                (next, touched)
            } else {
                proof {
                    lemma_highest_below(next, Some(p), next.len() as int);
                }
                shrink_pass(next, sizes, viewport, tier_after(next, p), touched)
            }
        },
    }
}

/// The marked columns narrowed by `amount` each.
pub open spec fn shrink_marked(cols: Columns, marks: Seq<bool>, amount: nat) -> Columns {
    Seq::new(cols.len(), |c: int| if marks[c] { cols[c].shrink_by(amount) } else { cols[c] })
}

/// The marked columns whose width is not the same in `after` as in `before`.
pub open spec fn still_moving(before: Columns, after: Columns, marks: Seq<bool>) -> Seq<bool> {
    Seq::new(before.len(), |c: int| marks[c] && before[c].width != after[c].width)
}

/// What each marked column gives up in one round of truncation.
pub open spec fn cut(excess: nat, candidates: nat) -> nat {
    if excess <= candidates {
        1
    } else {
        excess / candidates
    }
}

/// The marked columns truncated round by round, each giving up an equal share
/// of what the table still exceeds the viewport by, until it fits or none of
/// them gives way any more.
pub open spec fn squeeze(cols: Columns, marks: Seq<bool>, viewport: nat) -> Columns
    decreases total_width(cols),
{
    if required_width(cols) <= viewport || count(marks) == 0 {
        cols
    } else {
        let amount = cut((required_width(cols) - viewport) as nat, count(marks));
        let next = shrink_marked(cols, marks, amount);
        let moving = still_moving(cols, next, marks);
        if count(moving) == 0 {
            next
        } else {
            proof {
                lemma_shrinking_narrows(cols, marks, amount);
            }
            squeeze(next, moving, viewport)
        }
    }
}

/// The forced truncation pass from the tier `tier` on: tier after tier, the
/// least important first, the columns that can shrink are truncated, until the
/// table fits the viewport or no tier is left.
pub open spec fn truncate_pass(cols: Columns, viewport: nat, tier: Option<nat>) -> Columns
    decreases tier_rank(tier),
{
    match tier {
        None => cols,
        Some(p) => {
            let next = squeeze(cols, tier_marks(cols, p), viewport);
            if required_width(next) <= viewport {
                next
            } else {
                proof {
                    lemma_highest_below(next, Some(p), next.len() as int);
                }
                truncate_pass(next, viewport, tier_after(next, p))
            }
        },
    }
}

/// The least priority number among the marked of the first `upto` columns.
pub open spec fn lowest_marked(cols: Columns, marks: Seq<bool>, upto: int) -> Option<nat>
    decreases upto,
{
    if upto <= 0 {
        None
    } else {
        let rest = lowest_marked(cols, marks, upto - 1);
        let p = cols[upto - 1].priority;
        if marks[upto - 1] && (rest is None || p < rest->0) {
            Some(p)
        } else {
            rest
        }
    }
}

/// The marked columns that can still grow.
pub open spec fn eligible(cols: Columns, marks: Seq<bool>) -> Seq<bool> {
    Seq::new(cols.len(), |c: int| marks[c] && cols[c].is_expandable())
}

/// The marked columns of priority `p`.
pub open spec fn of_priority(cols: Columns, marks: Seq<bool>, p: nat) -> Seq<bool> {
    Seq::new(cols.len(), |c: int| marks[c] && cols[c].priority == p)
}

/// The marked columns of another priority than `p`.
pub open spec fn not_of_priority(cols: Columns, marks: Seq<bool>, p: nat) -> Seq<bool> {
    Seq::new(cols.len(), |c: int| marks[c] && cols[c].priority != p)
}

/// The first `k` of the marked columns made one wider.
pub open spec fn bump_first(cols: Columns, marks: Seq<bool>, k: nat) -> Columns {
    Seq::new(
        cols.len(),
        |c: int|
            if marks[c] && count(marks.take(c)) < k {
                cols[c].with_width(cols[c].width + 1)
            } else {
                cols[c]
            },
    )
}

/// The marked columns widened by `share` each, as far as their bounds allow.
pub open spec fn widen_marked(cols: Columns, marks: Seq<bool>, share: nat) -> Columns {
    Seq::new(cols.len(), |c: int| if marks[c] { cols[c].expand_by(share) } else { cols[c] })
}

/// The space that the table leaves unused is shared out among `winners`, round
/// by round in equal parts among those that can still grow; once it is no more
/// than their number, the first of them get one position each.
pub open spec fn share_out(cols: Columns, viewport: nat, winners: Seq<bool>) -> Columns
    decreases headroom(cols, viewport),
{
    let able = eligible(cols, winners);
    if required_width(cols) >= viewport || count(able) == 0 {
        cols
    } else {
        let surplus = (viewport - required_width(cols)) as nat;
        if surplus <= count(able) {
            bump_first(cols, able, surplus)
        } else {
            proof {
                lemma_widening_fills(cols, viewport, winners);
            }
            share_out(widen_marked(cols, able, surplus / count(able)), viewport, able)
        }
    }
}

/// The give-back pass: the space that the table leaves unused goes to the
/// columns marked in `modified`, the most important tier first.
pub open spec fn give_back(cols: Columns, viewport: nat, modified: Seq<bool>) -> Columns
    decreases count(modified),
    when modified.len() == cols.len()
{
    if required_width(cols) >= viewport {
        cols
    } else {
        match lowest_marked(cols, modified, cols.len() as int) {
            None => cols,
            Some(p) => {
                let winners = of_priority(cols, modified, p);
                let surplus = (viewport - required_width(cols)) as nat;
                if surplus <= count(winners) {
                    bump_first(cols, winners, surplus)
                } else {
                    proof {
                        lemma_lowest_marked(cols, modified, cols.len() as int);
                        lemma_dropping_tier(cols, modified, p);
                    }
                    give_back(
                        share_out(cols, viewport, winners),
                        viewport,
                        not_of_priority(cols, modified, p),
                    )
                }
            },
        }
    }
}

/// The widths of the columns for the data measured in `sizes`, or the reason
/// why there are none.
///
/// A row that has not one cell for each column is refused. Columns that are
/// all adjusted stay as they are. Otherwise the widths are worked out afresh:
/// every column takes its natural width; if the table is then too wide, the
/// tiers are wrapped and, if need be, truncated; if wrapping left space over,
/// it is given back.
pub open spec fn resolve(cols: Columns, viewport: nat, sizes: Measures) -> Result<
    Columns,
    ColonnadeError,
> {
    match first_ragged(sizes, cols.len(), 0) {
        Some(r) => Err(
            ColonnadeError::InconsistentColumns(
                r as usize,
                sizes[r].len() as usize,
                cols.len() as usize,
            ),
        ),
        None => if all_adjusted(cols) {
            Ok(cols)
        } else if minimal_width(cols) > viewport {
            Err(ColonnadeError::InsufficientSpace)
        } else {
            let natural = natural_fit(cleared(cols), sizes);
            if required_width(natural) <= viewport {
                Ok(settled(natural))
            } else {
                let (wrapped, modified) = shrink_pass(
                    natural,
                    sizes,
                    viewport,
                    first_tier(natural),
                    no_marks(cols.len()),
                );
                if required_width(wrapped) > viewport {
                    let truncated = truncate_pass(wrapped, viewport, first_tier(wrapped));
                    if required_width(truncated) > viewport {
                        Err(ColonnadeError::InsufficientSpace)
                    } else {
                        Ok(settled(truncated))
                    }
                } else {
                    Ok(settled(give_back(wrapped, viewport, eligible(wrapped, modified))))
                }
            }
        },
    }
}

/// A tier found below a bound is below it.
pub proof fn lemma_highest_below(cols: Columns, bound: Option<nat>, upto: int)
    ensures
        bound is Some ==> tier_rank(highest_below(cols, bound, upto)) < tier_rank(bound),
    decreases upto,
{
    if upto > 0 {
        lemma_highest_below(cols, bound, upto - 1);
    }
}

/// A round of truncation widens no column, and narrows each that moves.
pub proof fn lemma_shrinking_narrows(cols: Columns, marks: Seq<bool>, amount: nat)
    ensures
        forall|c: int|
            0 <= c < cols.len() ==> (#[trigger] shrink_marked(cols, marks, amount)[c]).width
                <= cols[c].width,
        count(still_moving(cols, shrink_marked(cols, marks, amount), marks)) > 0 ==> total_width(
            shrink_marked(cols, marks, amount),
        ) < total_width(cols),
{
    let next = shrink_marked(cols, marks, amount);
    let moving = still_moving(cols, next, marks);
    assert forall|c: int| 0 <= c < cols.len() implies (#[trigger] next[c]).width
        <= cols[c].width by {}
    if count(moving) > 0 {
        lemma_count_positive(moving);
        let k = choose|k: int| 0 <= k < moving.len() && moving[k];
        assert(next[k].width < cols[k].width);
        assert forall|c: int| 0 <= c < cols.len() implies widths(next)[c] <= widths(cols)[c] by {
            assert(next[c].width <= cols[c].width);
        }
        lemma_sum_strict(widths(next), widths(cols), k);
    }
}

/// A column that can grow is no wider than the table requires.
pub proof fn lemma_expandable_within(cols: Columns, c: int)
    requires
        0 <= c < cols.len(),
        cols[c].is_expandable(),
    ensures
        cols[c].width <= required_width(cols),
{
    lemma_sum_covers(outer_widths(cols), c);
}

/// A round of sharing out brings the columns nearer to the viewport.
pub proof fn lemma_widening_fills(cols: Columns, viewport: nat, winners: Seq<bool>)
    requires
        required_width(cols) < viewport,
        viewport - required_width(cols) > count(eligible(cols, winners)),
        count(eligible(cols, winners)) > 0,
    ensures
        headroom(
            widen_marked(
                cols,
                eligible(cols, winners),
                ((viewport - required_width(cols)) as nat) / count(eligible(cols, winners)),
            ),
            viewport,
        ) < headroom(cols, viewport),
{
    let able = eligible(cols, winners);
    let surplus = (viewport - required_width(cols)) as nat;
    let share = surplus / count(able);
    assert(share >= 1) by (nonlinear_arith)
        requires
            surplus > count(able),
            count(able) > 0,
            share == surplus / count(able),
    ;
    let next = widen_marked(cols, able, share);
    lemma_count_positive(able);
    let k = choose|k: int| 0 <= k < able.len() && able[k];
    assert forall|c: int| 0 <= c < cols.len() implies rooms(next, viewport)[c] <= rooms(
        cols,
        viewport,
    )[c] by {
        if able[c] {
            lemma_expandable_within(cols, c);
        }
    }
    lemma_expandable_within(cols, k);
    assert(rooms(next, viewport)[k] < rooms(cols, viewport)[k]);
    lemma_sum_strict(rooms(next, viewport), rooms(cols, viewport), k);
}

/// The least priority among marked columns is the priority of one of them.
pub proof fn lemma_lowest_marked(cols: Columns, marks: Seq<bool>, upto: int)
    requires
        upto <= cols.len(),
    ensures
        match lowest_marked(cols, marks, upto) {
            Some(p) => {
                &&& exists|c: int| 0 <= c < upto && marks[c] && cols[c].priority == p
                &&& forall|c: int| 0 <= c < upto && marks[c] ==> p <= cols[c].priority
            },
            None => forall|c: int| 0 <= c < upto ==> !marks[c],
        },
    decreases upto,
{
    if upto > 0 {
        lemma_lowest_marked(cols, marks, upto - 1);
        let rest = lowest_marked(cols, marks, upto - 1);
        let p = cols[upto - 1].priority;
        if marks[upto - 1] && (rest is None || p < rest->0) {
            assert(marks[upto - 1] && cols[upto - 1].priority == p);
        } else if rest is Some {
            let c = choose|c: int| 0 <= c < upto - 1 && marks[c] && cols[c].priority == rest->0;
            assert(0 <= c < upto && marks[c] && cols[c].priority == rest->0);
        }
    }
}

/// Taking the tier of a marked column out of the marks leaves fewer marks.
pub proof fn lemma_dropping_tier(cols: Columns, marks: Seq<bool>, p: nat)
    requires
        marks.len() == cols.len(),
        exists|c: int| 0 <= c < cols.len() && marks[c] && cols[c].priority == p,
    ensures
        count(not_of_priority(cols, marks, p)) < count(marks),
{
    let c = choose|c: int| 0 <= c < cols.len() && marks[c] && cols[c].priority == p;
    lemma_count_strict(not_of_priority(cols, marks, p), marks, c);
}

/// Marking columns as resolved makes all of them adjusted, and changes nothing
/// in what the table requires.
pub proof fn lemma_settled(cols: Columns)
    ensures
        all_adjusted(settled(cols)),
        required_width(settled(cols)) == required_width(cols),
        settled(cols).len() == cols.len(),
{
    assert(outer_widths(settled(cols)) =~= outer_widths(cols));
}

} // verus!
