use vstd::prelude::*;
use crate::bounds::{
    lemma_bump_first, lemma_fitted, lemma_reshaped_twice, lemma_shares, lemma_shrink_marked,
    lemma_widen_marked, lemma_wrapped_shape, reshaped, widest,
};
use crate::column::{ColumnModel, Setting, VerticalAlignment};
use crate::compose::{
    after_line, aligned, all_spent, blank_height, blank_line, compose_row, fill, flat, joined,
    justify, lemma_line_lightens, lemma_trailing_blanks, pack, repeated, sinking, split_point,
    start_cells, trailing_blanks, wordless, wrap_lines, Cell, Line,
};
use crate::error::ColonnadeError;
use crate::layout::{
    all_adjusted, cleared, cut, either, eligible, first_ragged, first_tier, fitted, give_back,
    headroom, highest_below, least_widths, lemma_dropping_tier, lemma_highest_below,
    lemma_lowest_marked, lemma_settled, lemma_shrinking_narrows, lemma_widening_fills,
    lowest_marked, minimal_width, natural_fit, no_marks, not_of_priority, of_priority, outer_widths,
    required_width, resolve, settled, share_out, shrink_marked, shrink_pass, squeeze, still_moving,
    tier_after, tier_marks, tier_rank, total_width, truncate_pass, widen_marked, wrap_tier, wrapped,
    Columns, Measures,
};
use crate::sums::{count, lemma_count_positive, lemma_sum_monotone, sum};
use crate::text::{breaks_of, is_break, lemma_blank_text_has_no_words, spaces};

verus! {

/// The columns `a` are the columns `b` but for their widths and for whether
/// they are adjusted.
pub open spec fn same_settings(a: Columns, b: Columns) -> bool {
    &&& a.len() == b.len()
    &&& forall|c: int|
        0 <= c < a.len() ==> (#[trigger] a[c]) == b[c].with_width(a[c].width).with_adjusted(
            a[c].adjusted,
        )
}

/// Sharing out changes widths only, and never makes the table wider than the
/// viewport.
pub proof fn lemma_share_out(cols: Columns, viewport: nat, winners: Seq<bool>)
    requires
        winners.len() == cols.len(),
        required_width(cols) <= viewport,
    ensures
        reshaped(share_out(cols, viewport, winners), cols),
        required_width(share_out(cols, viewport, winners)) <= viewport,
    decreases headroom(cols, viewport),
{
    let able = eligible(cols, winners);
    if required_width(cols) >= viewport || count(able) == 0 {
    } else {
        let surplus = (viewport - required_width(cols)) as nat;
        if surplus <= count(able) {
            lemma_bump_first(cols, able, surplus);
        } else {
            let share = surplus / count(able);
            let next = widen_marked(cols, able, share);
            lemma_shares(surplus, count(able));
            lemma_widen_marked(cols, able, share);
            lemma_widening_fills(cols, viewport, winners);
            lemma_share_out(next, viewport, able);
            lemma_reshaped_twice(share_out(next, viewport, able), next, cols);
        }
    }
}

/// Giving back changes widths only, and never makes the table wider than the
/// viewport.
pub proof fn lemma_give_back(cols: Columns, viewport: nat, modified: Seq<bool>)
    requires
        modified.len() == cols.len(),
        required_width(cols) <= viewport,
    ensures
        reshaped(give_back(cols, viewport, modified), cols),
        required_width(give_back(cols, viewport, modified)) <= viewport,
    decreases count(modified),
{
    if required_width(cols) >= viewport {
    } else {
        match lowest_marked(cols, modified, cols.len() as int) {
            None => {},
            Some(p) => {
                let winners = of_priority(cols, modified, p);
                let surplus = (viewport - required_width(cols)) as nat;
                if surplus <= count(winners) {
                    lemma_bump_first(cols, winners, surplus);
                } else {
                    let next = share_out(cols, viewport, winners);
                    let others = not_of_priority(cols, modified, p);
                    lemma_lowest_marked(cols, modified, cols.len() as int);
                    lemma_dropping_tier(cols, modified, p);
                    lemma_share_out(cols, viewport, winners);
                    lemma_give_back(next, viewport, others);
                    lemma_reshaped_twice(give_back(next, viewport, others), next, cols);
                }
            },
        }
    }
}

/// Truncating marked columns changes widths only.
pub proof fn lemma_squeeze(cols: Columns, marks: Seq<bool>, viewport: nat)
    ensures
        reshaped(squeeze(cols, marks, viewport), cols),
    decreases total_width(cols),
{
    if required_width(cols) <= viewport || count(marks) == 0 {
    } else {
        let amount = cut((required_width(cols) - viewport) as nat, count(marks));
        let next = shrink_marked(cols, marks, amount);
        let moving = still_moving(cols, next, marks);
        lemma_shrink_marked(cols, marks, amount);
        if count(moving) > 0 {
            lemma_shrinking_narrows(cols, marks, amount);
            lemma_squeeze(next, moving, viewport);
            lemma_reshaped_twice(squeeze(next, moving, viewport), next, cols);
        }
    }
}

/// The forced truncation pass changes widths only.
pub proof fn lemma_truncate_pass(cols: Columns, viewport: nat, tier: Option<nat>)
    ensures
        reshaped(truncate_pass(cols, viewport, tier), cols),
    decreases tier_rank(tier),
{
    match tier {
        None => {},
        Some(p) => {
            let next = squeeze(cols, tier_marks(cols, p), viewport);
            lemma_squeeze(cols, tier_marks(cols, p), viewport);
            if required_width(next) > viewport {
                lemma_highest_below(next, Some(p), next.len() as int);
                lemma_truncate_pass(next, viewport, tier_after(next, p));
                lemma_reshaped_twice(
                    truncate_pass(next, viewport, tier_after(next, p)),
                    next,
                    cols,
                );
            }
        },
    }
}

/// The priority shrink pass changes widths only, and marks as many columns as
/// there are.
pub proof fn lemma_shrink_pass(
    cols: Columns,
    sizes: Measures,
    viewport: nat,
    tier: Option<nat>,
    modified: Seq<bool>,
)
    requires
        modified.len() == cols.len(),
    ensures
        reshaped(shrink_pass(cols, sizes, viewport, tier, modified).0, cols),
        shrink_pass(cols, sizes, viewport, tier, modified).1.len() == cols.len(),
    decreases tier_rank(tier),
{
    match tier {
        None => {},
        Some(p) => {
            let next = wrap_tier(cols, sizes, p);
            let touched = either(tier_marks(cols, p), modified);
            assert forall|c: int| 0 <= c < cols.len() implies (#[trigger] next[c])
                == cols[c].with_width(next[c].width) by {
                lemma_wrapped_shape(cols[c], sizes, c, sizes.len() as int);
            }
            if required_width(next) > viewport {
                lemma_highest_below(next, Some(p), next.len() as int);
                lemma_shrink_pass(next, sizes, viewport, tier_after(next, p), touched);
                lemma_reshaped_twice(
                    shrink_pass(next, sizes, viewport, tier_after(next, p), touched).0,
                    next,
                    cols,
                );
            }
        },
    }
}

/// Natural fitting changes widths only.
pub proof fn lemma_natural_fit(cols: Columns, sizes: Measures)
    ensures
        reshaped(natural_fit(cols, sizes), cols),
{
    let next = natural_fit(cols, sizes);
    assert forall|c: int| 0 <= c < cols.len() implies (#[trigger] next[c]) == cols[c].with_width(
        next[c].width,
    ) by {
        lemma_fitted(cols[c], sizes, c, sizes.len() as int);
    }
}

/// Columns changed in width only, then marked as resolved, have the settings
/// that they had.
proof fn lemma_settled_same(last: Columns, blank: Columns, cols: Columns)
    requires
        reshaped(last, blank),
        blank == cleared(cols),
    ensures
        same_settings(settled(last), cols),
{
    assert forall|c: int| 0 <= c < cols.len() implies (#[trigger] settled(last)[c])
        == cols[c].with_width(settled(last)[c].width).with_adjusted(settled(last)[c].adjusted) by {
        assert(last[c] == blank[c].with_width(last[c].width));
    }
}

/// Resolution changes nothing but the widths of the columns and their being
/// adjusted; afterwards all of them are adjusted; and where the widths were
/// worked out, the table is no wider than the viewport: the sum over the
/// columns of left margin and effective width is at most the viewport's width.
pub proof fn law_resolution_fits(cols: Columns, viewport: nat, sizes: Measures)
    requires
        resolve(cols, viewport, sizes) is Ok,
    ensures
        same_settings(resolve(cols, viewport, sizes)->Ok_0, cols),
        all_adjusted(resolve(cols, viewport, sizes)->Ok_0),
        !all_adjusted(cols) ==> required_width(resolve(cols, viewport, sizes)->Ok_0) <= viewport,
{
    if all_adjusted(cols) {
        assert(same_settings(cols, cols));
    } else {
        let blank = cleared(cols);
        let natural = natural_fit(blank, sizes);
        lemma_natural_fit(blank, sizes);
        if required_width(natural) <= viewport {
            lemma_settled(natural);
            lemma_settled_same(natural, blank, cols);
        } else {
            let (wrapped, modified) = shrink_pass(
                natural,
                sizes,
                viewport,
                first_tier(natural),
                no_marks(cols.len()),
            );
            lemma_shrink_pass(natural, sizes, viewport, first_tier(natural), no_marks(cols.len()));
            lemma_reshaped_twice(wrapped, natural, blank);
            if required_width(wrapped) > viewport {
                let truncated = truncate_pass(wrapped, viewport, first_tier(wrapped));
                lemma_truncate_pass(wrapped, viewport, first_tier(wrapped));
                lemma_reshaped_twice(truncated, wrapped, blank);
                lemma_settled(truncated);
                lemma_settled_same(truncated, blank, cols);
            } else {
                let able = eligible(wrapped, modified);
                let last = give_back(wrapped, viewport, able);
                lemma_give_back(wrapped, viewport, able);
                lemma_reshaped_twice(last, wrapped, blank);
                lemma_settled(last);
                lemma_settled_same(last, blank, cols);
            }
        }
    }
}

/// Resolution is idempotent: columns whose widths were resolved keep these
/// widths for any data of the right shape, be it the same or other data, until
/// a column is changed or the widths are forgotten.
pub proof fn law_resolution_is_stable(
    cols: Columns,
    viewport: nat,
    sizes: Measures,
    other_sizes: Measures,
)
    requires
        resolve(cols, viewport, sizes) is Ok,
        first_ragged(other_sizes, cols.len(), 0) is None,
    ensures
        resolve(resolve(cols, viewport, sizes)->Ok_0, viewport, other_sizes) == Ok::<
            Columns,
            ColonnadeError,
        >(resolve(cols, viewport, sizes)->Ok_0),
{
    law_resolution_fits(cols, viewport, sizes);
}

/// A line that is not a single fragment without content is, as plain text, its
/// margins and contents one after the other.
pub proof fn law_flat_line_is_joined(line: Line)
    requires
        !(line.len() == 1 && line[0].1.len() == 0),
    ensures
        flat(line) == joined(line),
{
}

/// Hyphenation boundary: of a first word that is too long for a column that
/// hyphenates, the line takes as many characters as the inner width of the
/// column less one, and a hyphen after them; where the inner width is one or
/// less it takes exactly one character, and no hyphen. The rest of the word,
/// if there is any, comes first among the words that are left.
pub proof fn law_hyphenation(col: ColumnModel, words: Seq<Seq<char>>)
    requires
        words.len() > 0,
        words[0].len() > col.inner_width(),
        col.hyphenate,
    ensures
        col.inner_width() > 1 ==> pack(col, words).0 == spaces(col.padding_left) + words[0].take(
            col.inner_width() - 1,
        ) + seq!['-'],
        col.inner_width() <= 1 ==> pack(col, words).0 == spaces(col.padding_left) + words[0].take(
            1,
        ),
        words[0].len() > split_point(col) ==> pack(col, words).1 == seq![
            words[0].skip(split_point(col) as int),
        ] + words.drop_first(),
        words[0].len() <= split_point(col) ==> pack(col, words).1 == words.drop_first(),
{
    let lead = spaces(col.padding_left);
    if col.inner_width() <= 1 {
        assert(lead + words[0].take(1) + Seq::<char>::empty() =~= lead + words[0].take(1));
    }
}

/// Blank rows: a row whose every cell is empty or holds only white space that
/// separates words gives as many lines as the greatest vertical padding of a
/// column, and one line at least; each line consists of the margin of every
/// column and of blanks as wide as the column.
pub proof fn law_blank_row(cols: Columns, gap: nat, row: Seq<Seq<char>>)
    requires
        forall|c: int, i: int|
            0 <= c < cols.len() && 0 <= i < row[c].len() ==> is_break(#[trigger] row[c][i]),
    ensures
        compose_row(cols, gap, row, true) == repeated(blank_line(cols), blank_height(cols)),
        compose_row(cols, gap, row, true).len() >= 1,
{
    assert forall|c: int| 0 <= c < cols.len() implies (#[trigger] start_cells(
        cols,
        row,
    )[c]).words.len() == 0 by {
        lemma_blank_text_has_no_words(row[c], breaks_of(row[c]));
    }
    assert(wordless(start_cells(cols, row)));
}

/// The bounds of a column stay in agreement whatever is set: a column that
/// does not refuse a change has, after it, a minimum width that is no more
/// than its maximum width, if it had so before. New columns have no bounds.
pub proof fn law_limits_agree(col: ColumnModel, setting: Setting, index: nat)
    requires
        col.limits_agree(),
        !col.refuses(setting),
    ensures
        col.with(setting).limits_agree(),
        ColumnModel::fresh(index).limits_agree(),
{
}

/// A column that shrinks never collapses: it keeps one character at least,
/// and its minimum width, and it does not grow.
pub proof fn law_shrink_by(col: ColumnModel, decrease: nat)
    requires
        col.is_shrinkable(),
    ensures
        col.shrink_by(decrease).width >= 1,
        col.shrink_by(decrease).width >= col.minimum_width(),
        col.shrink_by(decrease).width <= col.width,
        col.shrink_by(decrease) == col.with_width(col.shrink_by(decrease).width),
{
}

/// A column that is widened towards a target beyond its width stops at its
/// maximum width, if the target is beyond that; else it takes the target, or
/// its minimum width where that is more.
pub proof fn law_expand(col: ColumnModel, target: nat)
    requires
        target > col.width,
    ensures
        col.expand(target).width == if col.max_width is Some && col.max_width->0 < target {
            col.max_width->0
        } else if col.minimum_width() > target {
            col.minimum_width()
        } else {
            target
        },
        col.expand(target) == col.with_width(col.expand(target).width),
{
}

/// The greatest length of a longest word among the cells of column `c` in the
/// first `rows` rows.
pub open spec fn longest_in(sizes: Measures, c: int, rows: int) -> nat
    decreases rows,
{
    if rows <= 0 {
        0
    } else {
        let rest = longest_in(sizes, c, rows - 1);
        let w = sizes[rows - 1][c].longest;
        if w > rest { w } else { rest }
    }
}

/// The natural width of a column: a column without width, whose maximum width
/// is not below its minimum, has after natural fitting the width that the
/// widest of its cells asks for with the column's padding, or its minimum
/// where that is more, and its maximum width at most. It stays without width
/// if no cell asks for any.
pub proof fn law_natural_width(col: ColumnModel, sizes: Measures, c: int, rows: int)
    requires
        col.width == 0,
        col.max_width is Some ==> col.minimum_width() <= col.max_width->0,
    ensures
        fitted(col, sizes, c, rows).width == ({
            let asked = widest(sizes, c, rows) + col.horizontal_padding();
            if rows <= 0 || asked == 0 {
                0
            } else if col.max_width is Some && col.max_width->0 < asked {
                col.max_width->0
            } else if col.minimum_width() > asked {
                col.minimum_width()
            } else {
                asked
            }
        }),
    decreases rows,
{
    if rows > 0 {
        law_natural_width(col, sizes, c, rows - 1);
        lemma_fitted(col, sizes, c, rows - 1);
    }
}

/// The wrapped width of a column: a column whose maximum width is not below its
/// minimum has after wrapping the width that the longest word of its cells
/// asks for with the column's padding, at least its minimum width and at most
/// its maximum width.
pub proof fn law_wrapped_width(col: ColumnModel, sizes: Measures, c: int, rows: int)
    requires
        col.max_width is Some ==> col.minimum_width() <= col.max_width->0,
    ensures
        wrapped(col, sizes, c, rows).width == ({
            let asked = longest_in(sizes, c, rows) + col.horizontal_padding();
            if col.minimum_width() >= asked {
                col.minimum_width()
            } else if col.max_width is Some && col.max_width->0 < asked {
                col.max_width->0
            } else {
                asked
            }
        }),
    decreases rows,
{
    if rows > 0 {
        law_wrapped_width(col, sizes, c, rows - 1);
        lemma_wrapped_shape(col, sizes, c, rows - 1);
    }
}

/// The content of a column on a line is as wide as the column, unless its
/// text is wider: then it is the text.
pub proof fn law_justified_width(col: ColumnModel, phrase: Seq<char>)
    ensures
        justify(col, phrase).len() == if phrase.len() < col.width {
            col.width
        } else {
            phrase.len()
        },
        phrase.len() >= col.width ==> justify(col, phrase) == phrase,
{
}

/// Every line that the cells of a row take holds for every column its margin
/// and a content.
pub proof fn law_lines_are_complete(cols: Columns, cells: Seq<Cell>, i: int)
    requires
        cells.len() == cols.len(),
        0 <= i < wrap_lines(cols, cells).len(),
    ensures
        wrap_lines(cols, cells)[i].len() == cols.len(),
        forall|c: int|
            0 <= c < cols.len() ==> (#[trigger] wrap_lines(cols, cells)[i][c]).0 == spaces(
                cols[c].left_margin,
            ),
    decreases i,
{
    if !all_spent(cells) && i > 0 {
        lemma_line_lightens(cols, cells);
        law_lines_are_complete(cols, after_line(cols, cells), i - 1);
    }
}

/// The lines counted as trailing blank lines hold only blanks.
proof fn lemma_trailing_are_blank(lines: Seq<Line>, c: int, top: int, end: int, width: nat, k: int)
    requires
        0 <= k < trailing_blanks(lines, c, top, end, width),
    ensures
        lines[end - 1 - k][c].1 == spaces(width),
        top <= end - 1 - k,
    decreases k,
{
    if k > 0 {
        lemma_trailing_are_blank(lines, c, top, end - 1, width, k - 1);
    }
}

/// Vertical alignment moves the text of a column down and the blank lines
/// below it up: in the range where the text may move, the first lines are then
/// blank, as many as the text sinks, and below them stand the lines of the
/// range in their order. Outside that range nothing moves.
pub proof fn law_alignment(cols: Columns, lines: Seq<Line>, c: int, i: int)
    requires
        0 <= c < cols.len(),
        0 <= i < lines.len(),
    ensures
        ({
            let (top, end, shift) = sinking(cols[c], lines, c);
            &&& 0 <= top <= end <= lines.len()
            &&& 0 <= shift <= end - top
            &&& top <= i < top + shift ==> aligned(cols, lines)[i][c].1 == spaces(cols[c].width)
            &&& top + shift <= i < end ==> aligned(cols, lines)[i][c] == lines[i - shift][c]
            &&& !(top <= i < end) ==> aligned(cols, lines)[i][c] == lines[i][c]
        }),
{
    let col = cols[c];
    let (top, end, shift) = sinking(col, lines, c);
    let first = col.padding_top as int;
    let last = lines.len() - col.padding_bottom;
    if col.vertical_alignment != VerticalAlignment::Top && last > first {
        let movable = trailing_blanks(lines, c, first, last, col.width) as int;
        lemma_trailing_blanks(lines, c, first, last, col.width);
        if movable != last - first && top <= i < top + shift {
            lemma_trailing_are_blank(lines, c, first, last, col.width, top + shift - 1 - i);
        }
    }
}

/// For each column its left margin and the least width that truncation leaves it.
pub open spec fn floor_widths(cols: Columns) -> Seq<nat> {
    Seq::new(
        cols.len(),
        |c: int|
            cols[c].left_margin + if cols[c].minimum_width() > 1 {
                cols[c].minimum_width()
            } else {
                1
            },
    )
}

/// The width of the table when every column is as narrow as truncation can
/// make it: at its minimum width, and one character wide at least.
pub open spec fn narrowest_width(cols: Columns) -> nat {
    sum(floor_widths(cols))
}

/// The column is as narrow as truncation can make it.
pub open spec fn grounded(col: ColumnModel) -> bool {
    col.effective_width() <= col.minimum_width() || col.effective_width() <= 1
}

/// The tier found below a bound is the highest there.
proof fn lemma_highest_is_highest(cols: Columns, bound: Option<nat>, upto: int)
    requires
        upto <= cols.len(),
    ensures
        forall|c: int|
            0 <= c < upto && (bound is None || cols[c].priority < bound->0) ==> {
                &&& highest_below(cols, bound, upto) is Some
                &&& (#[trigger] cols[c]).priority <= highest_below(cols, bound, upto)->0
            },
    decreases upto,
{
    if upto > 0 {
        lemma_highest_is_highest(cols, bound, upto - 1);
    }
}

/// Truncating marked columns leaves the others alone and widens none; and
/// unless the table fits then, every marked column is as narrow as can be.
proof fn lemma_squeeze_grounds(cols: Columns, marks: Seq<bool>, viewport: nat)
    requires
        marks.len() == cols.len(),
    ensures
        squeeze(cols, marks, viewport).len() == cols.len(),
        forall|c: int|
            0 <= c < cols.len() && !marks[c] ==> (#[trigger] squeeze(cols, marks, viewport)[c])
                == cols[c],
        forall|c: int|
            0 <= c < cols.len() && grounded(cols[c]) ==> grounded(
                #[trigger] squeeze(cols, marks, viewport)[c],
            ),
        required_width(squeeze(cols, marks, viewport)) <= viewport || forall|c: int|
            0 <= c < cols.len() && marks[c] ==> grounded(
                #[trigger] squeeze(cols, marks, viewport)[c],
            ),
    decreases total_width(cols),
{
    if required_width(cols) <= viewport {
    } else if count(marks) == 0 {
        lemma_count_positive(marks);
    } else {
        let excess = (required_width(cols) - viewport) as nat;
        let amount = cut(excess, count(marks));
        lemma_shares(excess, count(marks));
        let next = shrink_marked(cols, marks, amount);
        let moving = still_moving(cols, next, marks);
        assert forall|c: int| 0 <= c < cols.len() && grounded(cols[c]) implies grounded(
            #[trigger] next[c],
        ) by {}
        assert forall|c: int| 0 <= c < cols.len() && marks[c] && !moving[c] implies grounded(
            #[trigger] next[c],
        ) by {}
        if count(moving) == 0 {
            lemma_count_positive(moving);
            assert forall|c: int| 0 <= c < cols.len() && marks[c] implies grounded(
                #[trigger] next[c],
            ) by {
                assert(!moving[c]);
            }
        } else {
            lemma_shrinking_narrows(cols, marks, amount);
            lemma_squeeze_grounds(next, moving, viewport);
            let last = squeeze(next, moving, viewport);
            assert forall|c: int| 0 <= c < cols.len() && !marks[c] implies (#[trigger] last[c])
                == cols[c] by {
                assert(!moving[c]);
                assert(last[c] == next[c]);
            }
            assert forall|c: int| 0 <= c < cols.len() && grounded(cols[c]) implies grounded(
                #[trigger] last[c],
            ) by {
                assert(grounded(next[c]));
            }
            if required_width(last) > viewport {
                assert forall|c: int| 0 <= c < cols.len() && marks[c] implies grounded(
                    #[trigger] last[c],
                ) by {
                    if !moving[c] {
                        assert(grounded(next[c]));
                        assert(last[c] == next[c]);
                    }
                }
            }
        }
    }
}

/// Where the columns of the tiers above `tier` are as narrow as can be, the
/// forced truncation pass makes the table fit, or leaves every column as
/// narrow as can be.
proof fn lemma_truncate_grounds(cols: Columns, viewport: nat, tier: Option<nat>)
    requires
        forall|c: int|
            0 <= c < cols.len() && (tier is None || cols[c].priority > tier->0) ==> grounded(
                #[trigger] cols[c],
            ),
    ensures
        required_width(truncate_pass(cols, viewport, tier)) <= viewport || forall|c: int|
            0 <= c < cols.len() ==> grounded(#[trigger] truncate_pass(cols, viewport, tier)[c]),
    decreases tier_rank(tier),
{
    match tier {
        None => {},
        Some(p) => {
            let marks = tier_marks(cols, p);
            let next = squeeze(cols, marks, viewport);
            lemma_squeeze_grounds(cols, marks, viewport);
            lemma_squeeze(cols, marks, viewport);
            if required_width(next) > viewport {
                let below = tier_after(next, p);
                lemma_highest_below(next, Some(p), next.len() as int);
                lemma_highest_is_highest(next, Some(p), next.len() as int);
                assert forall|c: int|
                    0 <= c < next.len() && (below is None || next[c].priority
                        > below->0) implies grounded(#[trigger] next[c]) by {
                    assert(next[c] == cols[c].with_width(next[c].width));
                    if cols[c].priority > p {
                        assert(grounded(cols[c]));
                    } else if cols[c].priority == p {
                        if !marks[c] {
                            assert(next[c] == cols[c]);
                        }
                    }
                }
                lemma_truncate_grounds(next, viewport, below);
                lemma_truncate_pass(next, viewport, below);
            }
        },
    }
}

/// Resolution succeeds wherever it can: for data of the right shape it fails
/// only if the table is wider than the viewport even with every column at its
/// minimum width, or at one character where its minimum is less.
pub proof fn law_resolution_succeeds(cols: Columns, viewport: nat, sizes: Measures)
    requires
        first_ragged(sizes, cols.len(), 0) is None,
        narrowest_width(cols) <= viewport,
    ensures
        resolve(cols, viewport, sizes) is Ok,
{
    if !all_adjusted(cols) {
        assert forall|c: int| 0 <= c < cols.len() implies least_widths(cols)[c] <= floor_widths(
            cols,
        )[c] by {}
        lemma_sum_monotone(least_widths(cols), floor_widths(cols));
        let blank = cleared(cols);
        let natural = natural_fit(blank, sizes);
        lemma_natural_fit(blank, sizes);
        if required_width(natural) > viewport {
            let (wrapped, modified) = shrink_pass(
                natural,
                sizes,
                viewport,
                first_tier(natural),
                no_marks(cols.len()),
            );
            lemma_shrink_pass(natural, sizes, viewport, first_tier(natural), no_marks(cols.len()));
            lemma_reshaped_twice(wrapped, natural, blank);
            if required_width(wrapped) > viewport {
                let truncated = truncate_pass(wrapped, viewport, first_tier(wrapped));
                lemma_truncate_pass(wrapped, viewport, first_tier(wrapped));
                lemma_reshaped_twice(truncated, wrapped, blank);
                lemma_highest_is_highest(wrapped, None, wrapped.len() as int);
                lemma_truncate_grounds(wrapped, viewport, first_tier(wrapped));
                if required_width(truncated) > viewport {
                    assert forall|c: int| 0 <= c < cols.len() implies outer_widths(truncated)[c]
                        <= floor_widths(cols)[c] by {
                        assert(grounded(truncated[c]));
                        assert(truncated[c] == blank[c].with_width(truncated[c].width));
                    }
                    lemma_sum_monotone(outer_widths(truncated), floor_widths(cols));
                }
            }
        }
    }
}

/// For each column its left margin and its minimum width.
pub open spec fn minimum_widths(cols: Columns) -> Seq<nat> {
    Seq::new(cols.len(), |c: int| cols[c].left_margin + cols[c].minimum_width())
}

/// Resolution needs room: where widths were worked out, the margins and the
/// minimum widths of the columns fit the viewport together, and so does the
/// least that the columns might need.
pub proof fn law_resolution_needs_room(cols: Columns, viewport: nat, sizes: Measures)
    requires
        resolve(cols, viewport, sizes) is Ok,
        !all_adjusted(cols),
    ensures
        sum(minimum_widths(cols)) <= viewport,
        minimal_width(cols) <= viewport,
{
    let last = resolve(cols, viewport, sizes)->Ok_0;
    law_resolution_fits(cols, viewport, sizes);
    assert forall|c: int| 0 <= c < cols.len() implies minimum_widths(cols)[c] <= outer_widths(
        last,
    )[c] by {
        assert(last[c] == cols[c].with_width(last[c].width).with_adjusted(last[c].adjusted));
    }
    lemma_sum_monotone(minimum_widths(cols), outer_widths(last));
}

/// The characters of the words one after the other, with nothing between
/// them.
pub open spec fn glued(words: Seq<Seq<char>>) -> Seq<char>
    decreases words.len(),
{
    if words.len() == 0 {
        Seq::empty()
    } else {
        glued(words.drop_last()) + words.last()
    }
}

/// The words one after the other, each after one blank.
pub open spec fn spaced(words: Seq<Seq<char>>) -> Seq<char>
    decreases words.len(),
{
    if words.len() == 0 {
        Seq::empty()
    } else {
        spaced(words.drop_last()) + seq![' '] + words.last()
    }
}

/// How many of the words fit the line of a column on which `used` characters
/// stand already.
pub open spec fn fitting(col: ColumnModel, used: nat, words: Seq<Seq<char>>) -> nat
    decreases words.len(),
{
    if words.len() == 0 || used + 1 + words[0].len() + col.padding_right > col.width {
        0
    } else {
        1 + fitting(col, used + 1 + words[0].len(), words.drop_first())
    }
}

/// The words, or the part of a word, that the next line of a cell takes from
/// `words`, which is not empty.
pub open spec fn line_words(col: ColumnModel, words: Seq<Seq<char>>) -> Seq<Seq<char>> {
    let word = words[0];
    if word.len() + col.padding_right == col.width {
        seq![word]
    } else if word.len() + col.padding_right > col.width {
        seq![word.take(if split_point(col) < word.len() { split_point(col) as int } else { word.len() as int })]
    } else {
        words.take(1 + fitting(col, col.padding_left + word.len(), words.drop_first()) as int)
    }
}

/// One word glued is that word.
proof fn lemma_glued_one(word: Seq<char>)
    ensures
        glued(seq![word]) == word,
{
    reveal_with_fuel(glued, 2);
    assert(seq![word].drop_last() =~= Seq::<Seq<char>>::empty());
    assert(glued(seq![word]) =~= word);
}

/// Gluing a word to words.
proof fn lemma_glued_first(words: Seq<Seq<char>>)
    requires
        words.len() > 0,
    ensures
        glued(words) == words[0] + glued(words.drop_first()),
        spaced(words) == seq![' '] + words[0] + spaced(words.drop_first()),
    decreases words.len(),
{
    if words.len() == 1 {
        assert(words.drop_last() =~= Seq::<Seq<char>>::empty());
        assert(words.drop_first() =~= Seq::<Seq<char>>::empty());
        assert(glued(words) =~= words[0] + glued(words.drop_first()));
        assert(spaced(words) =~= seq![' '] + words[0] + spaced(words.drop_first()));
    } else {
        lemma_glued_first(words.drop_last());
        assert(words.drop_last().drop_first() =~= words.drop_first().drop_last());
        assert(glued(words) =~= words[0] + glued(words.drop_first()));
        assert(spaced(words) =~= seq![' '] + words[0] + spaced(words.drop_first()));
    }
}

/// At whatever place a list of words is cut, its two parts glued are the words
/// glued.
proof fn lemma_glued_cut(words: Seq<Seq<char>>, k: int)
    requires
        0 <= k <= words.len(),
    ensures
        glued(words.take(k)) + glued(words.skip(k)) == glued(words),
    decreases k,
{
    if k == 0 {
        assert(words.take(0) =~= Seq::<Seq<char>>::empty());
        assert(words.skip(0) =~= words);
        assert(glued(words.take(k)) + glued(words.skip(k)) =~= glued(words));
    } else {
        lemma_glued_first(words);
        lemma_glued_cut(words.drop_first(), k - 1);
        lemma_glued_first(words.take(k));
        assert(words.take(k).drop_first() =~= words.drop_first().take(k - 1));
        assert(words.skip(k) =~= words.drop_first().skip(k - 1));
        assert(glued(words.take(k)) + glued(words.skip(k)) =~= glued(words));
    }
}

/// Filling a line adds the words that fit, each after one blank, and leaves
/// the others.
pub proof fn law_fill(col: ColumnModel, phrase: Seq<char>, words: Seq<Seq<char>>)
    ensures
        fitting(col, phrase.len(), words) <= words.len(),
        fill(col, phrase, words) == (
            phrase + spaced(words.take(fitting(col, phrase.len(), words) as int)),
            words.skip(fitting(col, phrase.len(), words) as int),
        ),
    decreases words.len(),
{
    let k = fitting(col, phrase.len(), words) as int;
    if words.len() == 0 || phrase.len() + 1 + words[0].len() + col.padding_right > col.width {
        assert(words.take(0) =~= Seq::<Seq<char>>::empty());
        assert(words.skip(0) =~= words);
        assert(phrase + spaced(words.take(0)) =~= phrase);
    } else {
        let next = phrase + seq![' '] + words[0];
        law_fill(col, next, words.drop_first());
        lemma_glued_first(words.take(k));
        assert(words.take(k).drop_first() =~= words.drop_first().take(k - 1));
        assert(words.skip(k) =~= words.drop_first().skip(k - 1));
        assert(next + spaced(words.drop_first().take(k - 1)) =~= phrase + spaced(words.take(k)));
    }
}

/// A line loses no text: the text of the line is the left padding of the
/// column, the words that the line takes with one blank between neighbours,
/// and a hyphen where a word was split in a column that hyphenates; and the
/// words that the line takes, followed by those that are left, are letter by
/// letter the words that were there.
pub proof fn law_line_keeps_text(col: ColumnModel, words: Seq<Seq<char>>)
    requires
        words.len() > 0,
    ensures
        line_words(col, words).len() > 0,
        pack(col, words).0 == spaces(col.padding_left) + line_words(col, words)[0] + spaced(
            line_words(col, words).drop_first(),
        ) + if words[0].len() + col.padding_right > col.width && col.hyphenating() {
            seq!['-']
        } else {
            Seq::<char>::empty()
        },
        glued(line_words(col, words)) + glued(pack(col, words).1) == glued(words),
{
    let lead = spaces(col.padding_left);
    let word = words[0];
    let rest = words.drop_first();
    let taken = line_words(col, words);
    let none = Seq::<char>::empty();
    lemma_glued_first(words);
    if word.len() + col.padding_right == col.width {
        assert(taken.drop_first() =~= Seq::<Seq<char>>::empty());
        lemma_glued_one(word);
        assert(lead + word =~= lead + word + spaced(taken.drop_first()) + none);
    } else if word.len() + col.padding_right > col.width {
        let k = if split_point(col) < word.len() { split_point(col) as int } else { word.len() as int };
        let head = word.take(k);
        let tail = word.skip(k);
        assert(taken.drop_first() =~= Seq::<Seq<char>>::empty());
        lemma_glued_one(head);
        assert(head + tail =~= word);
        if col.hyphenating() {
            assert(lead + head + seq!['-'] =~= lead + head + spaced(taken.drop_first()) + seq!['-']);
        } else {
            assert(lead + head + none =~= lead + head + spaced(taken.drop_first()) + none);
        }
        if tail.len() > 0 {
            let left = seq![tail] + rest;
            lemma_glued_first(left);
            assert(left.drop_first() =~= rest);
            assert(head + (tail + glued(rest)) =~= word + glued(rest));
        } else {
            assert(head =~= word);
        }
    } else {
        let k = fitting(col, col.padding_left + word.len(), rest) as int;
        law_fill(col, lead + word, rest);
        assert(taken.drop_first() =~= rest.take(k));
        assert(words.skip(1 + k) =~= rest.skip(k));
        lemma_glued_cut(words, 1 + k);
        assert(lead + word + spaced(rest.take(k)) =~= lead + word + spaced(rest.take(k)) + none);
    }
}

} // verus!
