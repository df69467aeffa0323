use vstd::prelude::*;
use crate::column::{lift, models, Column};
use crate::error::ColonnadeError;
use crate::bounds::{
    ample_widths, lemma_bump_first, lemma_cleared, lemma_natural_fit_tame, lemma_reshaped,
    lemma_reshaped_paddings, lemma_reshaped_twice, lemma_shares, lemma_shrink_marked,
    lemma_tame_required, lemma_widen_marked, lemma_widest_covers, lemma_wrap_tier_tame, reshaped,
    sound, tame, unconstrained_width, widest,
};
use crate::layout::{
    all_adjusted, bump_first, cleared, either, eligible, first_ragged, first_tier, fitted,
    give_back, headroom, highest_below, least_widths, lemma_dropping_tier, lemma_expandable_within,
    lemma_highest_below, lemma_lowest_marked, lemma_settled, lemma_shrinking_narrows,
    lemma_widening_fills, lowest_marked, minimal_width, natural_fit, no_marks, not_of_priority,
    of_priority, outer_widths, rectangular, required_width, resolve, settled, share_out,
    shrink_marked, shrink_pass, squeeze, still_moving, tier_marks, tier_rank, total_width,
    truncate_pass, widen_marked, wrap_tier, wrapped, Columns, Measure, Measures,
};
use crate::sums::{count, lemma_count_step, lemma_sum_covers, lemma_sum_step, lemma_sum_take, sum};

verus! {

/// The size of the text of one cell.
#[derive(Debug, Clone, Copy)]
pub struct CellSize {
    /// The width of the text on one line, white space normalized.
    pub natural: usize,
    /// The length of its longest word.
    pub longest: usize,
}

impl View for CellSize {
    type V = Measure;

    open spec fn view(&self) -> Measure {
        Measure { natural: self.natural as nat, longest: self.longest as nat }
    }
}

/// The measures that a table of cell sizes stands for.
pub open spec fn grid(sizes: Seq<Vec<CellSize>>) -> Measures {
    Seq::new(sizes.len(), |r: int| Seq::new(sizes[r]@.len(), |c: int| sizes[r]@[c]@))
}

/// The two horizontal paddings of each column are together a number of
/// machine size.
pub open spec fn paddings_fit(cols: Columns) -> bool {
    forall|c: int| 0 <= c < cols.len() ==> (#[trigger] cols[c]).horizontal_padding() <= usize::MAX
}

/// The amount of space required to display the data given the columns as
/// they are.
pub fn space_required(cols: &Vec<Column>) -> (r: usize)
    requires
        paddings_fit(models(cols@)),
        required_width(models(cols@)) <= usize::MAX,
    ensures
        r == required_width(models(cols@)),
{
    let ghost outer = outer_widths(models(cols@));
    let mut acc: usize = 0;
    let mut i: usize = 0;
    while i < cols.len()
        invariant
            i <= cols.len(),
            outer == outer_widths(models(cols@)),
            paddings_fit(models(cols@)),
            sum(outer) <= usize::MAX,
            acc == sum(outer.take(i as int)),
        decreases cols.len() - i,
    {
        proof {
            lemma_sum_step(outer, i as int);
            lemma_sum_take(outer, i + 1);
            assert(models(cols@)[i as int] == cols@[i as int]@);
        }
        acc = acc + cols[i].outer_width();
        i += 1;
    }
    assert(outer.take(i as int) =~= outer);
    acc
}

/// The amount of space required to display the data given the columns as
/// they are, if it is a number of machine size.
pub fn space_in_use(cols: &Vec<Column>) -> (r: Option<usize>)
    ensures
        r is Some <==> required_width(models(cols@)) <= usize::MAX,
        r is Some ==> r->Some_0 == required_width(models(cols@)),
{
    let ghost outer = outer_widths(models(cols@));
    let mut acc: u128 = 0;
    let mut i: usize = 0;
    while i < cols.len()
        invariant
            i <= cols.len(),
            outer == outer_widths(models(cols@)),
            acc == sum(outer.take(i as int)),
            acc <= usize::MAX,
        decreases cols.len() - i,
    {
        proof {
            lemma_sum_step(outer, i as int);
            lemma_sum_take(outer, i + 1);
            assert(models(cols@)[i as int] == cols@[i as int]@);
        }
        acc = acc + cols[i].wide_outer_width();
        if acc > usize::MAX as u128 {
            return None;
        }
        i += 1;
    }
    assert(outer.take(i as int) =~= outer);
    Some(acc as usize)
}

/// Whether the least that the columns might need is no more than `viewport`.
pub fn space_suffices(cols: &Vec<Column>, viewport: usize) -> (b: bool)
    ensures
        b == (minimal_width(models(cols@)) <= viewport),
{
    let ghost least = least_widths(models(cols@));
    let mut acc: u128 = 0;
    let mut i: usize = 0;
    while i < cols.len()
        invariant
            i <= cols.len(),
            least == least_widths(models(cols@)),
            acc == sum(least.take(i as int)),
            acc <= viewport,
        decreases cols.len() - i,
    {
        proof {
            lemma_sum_step(least, i as int);
            lemma_sum_take(least, i + 1);
            assert(models(cols@)[i as int] == cols@[i as int]@);
        }
        let floor: usize = match cols[i].lower_bound() {
            Some(m) => m,
            None => 1,
        };
        acc = acc + cols[i].margin_width() as u128 + floor as u128;
        if acc > viewport as u128 {
            return false;
        }
        i += 1;
    }
    assert(least.take(i as int) =~= least);
    true
}

/// Whether the widths of all columns have been resolved.
pub fn every_column_adjusted(cols: &Vec<Column>) -> (b: bool)
    ensures
        b == all_adjusted(models(cols@)),
{
    let mut i: usize = 0;
    while i < cols.len()
        invariant
            i <= cols.len(),
            forall|c: int| 0 <= c < i ==> (#[trigger] models(cols@)[c]).adjusted,
        decreases cols.len() - i,
    {
        if !cols[i].is_adjusted() {
            assert(!models(cols@)[i as int].adjusted);
            return false;
        }
        i += 1;
    }
    true
}

/// Forgets the widths of all columns.
pub fn clear_all(cols: &mut Vec<Column>)
    ensures
        models(final(cols)@) == cleared(models(old(cols)@)),
{
    let ghost before = models(cols@);
    let mut i: usize = 0;
    while i < cols.len()
        invariant
            i <= cols.len(),
            cols@.len() == before.len(),
            forall|c: int| 0 <= c < i ==> (#[trigger] cols@[c])@ == before[c].cleared(),
            forall|c: int| i <= c < cols@.len() ==> (#[trigger] cols@[c])@ == before[c],
        decreases cols.len() - i,
    {
        cols[i].clear();
        i += 1;
    }
    assert(models(cols@) =~= cleared(before));
}

/// Marks all columns as resolved.
pub fn settle_all(cols: &mut Vec<Column>)
    ensures
        models(final(cols)@) == settled(models(old(cols)@)),
{
    let ghost before = models(cols@);
    let mut i: usize = 0;
    while i < cols.len()
        invariant
            i <= cols.len(),
            cols@.len() == before.len(),
            forall|c: int| 0 <= c < i ==> (#[trigger] cols@[c])@ == before[c].with_adjusted(true),
            forall|c: int| i <= c < cols@.len() ==> (#[trigger] cols@[c])@ == before[c],
        decreases cols.len() - i,
    {
        cols[i].set_adjusted(true);
        i += 1;
    }
    assert(models(cols@) =~= settled(before));
}

/// The number of marks set.
pub fn count_marks(marks: &Vec<bool>) -> (n: usize)
    ensures
        n == count(marks@),
{
    let mut n: usize = 0;
    let mut i: usize = 0;
    while i < marks.len()
        invariant
            i <= marks.len(),
            n == count(marks@.take(i as int)),
            n <= i,
        decreases marks.len() - i,
    {
        proof {
            lemma_count_step(marks@, i as int);
        }
        if marks[i] {
            n += 1;
        }
        i += 1;
    }
    assert(marks@.take(i as int) =~= marks@);
    n
}

/// The greatest priority number among the columns that is below `bound`.
pub fn highest_priority_below(cols: &Vec<Column>, bound: Option<usize>) -> (r: Option<usize>)
    ensures
        lift(r) == highest_below(models(cols@), lift(bound), cols@.len() as int),
{
    let mut best: Option<usize> = None;
    let mut i: usize = 0;
    while i < cols.len()
        invariant
            i <= cols.len(),
            lift(best) == highest_below(models(cols@), lift(bound), i as int),
        decreases cols.len() - i,
    {
        let p: usize = cols[i].rank();
        assert(models(cols@)[i as int] == cols@[i as int]@);
        let under = match bound {
            Some(b) => p < b,
            None => true,
        };
        let over = match best {
            Some(b) => p > b,
            None => true,
        };
        if under && over {
            best = Some(p);
        }
        i += 1;
    }
    best
}

/// The first row that has not `n` cells, if there is one.
pub fn find_ragged(sizes: &Vec<Vec<CellSize>>, n: usize) -> (r: Option<usize>)
    ensures
        match r {
            Some(i) => {
                &&& first_ragged(grid(sizes@), n as nat, 0) == Some(i as int)
                &&& i < sizes@.len()
                &&& grid(sizes@)[i as int].len() != n
            },
            None => first_ragged(grid(sizes@), n as nat, 0) is None && rectangular(
                grid(sizes@),
                n as nat,
            ),
        },
{
    let mut i: usize = 0;
    while i < sizes.len()
        invariant
            i <= sizes.len(),
            first_ragged(grid(sizes@), n as nat, 0) == first_ragged(grid(sizes@), n as nat, i as int),
            forall|r: int| 0 <= r < i ==> (#[trigger] grid(sizes@)[r]).len() == n,
        decreases sizes.len() - i,
    {
        if sizes[i].len() != n {
            return Some(i);
        }
        i += 1;
    }
    None
}

/// Every cell of the table, with the padding of its column, has a natural
/// width of machine size.
pub open spec fn cells_fit(cols: Columns, sizes: Measures) -> bool {
    forall|r: int, c: int|
        0 <= r < sizes.len() && 0 <= c < cols.len() ==> (#[trigger] sizes[r][c]).natural
            + cols[c].horizontal_padding() <= usize::MAX
}

/// Where the unconstrained width is of machine size, so is each cell with its
/// padding.
pub proof fn lemma_cells_fit(cols: Columns, sizes: Measures)
    requires
        unconstrained_width(cols, sizes) <= usize::MAX,
    ensures
        cells_fit(cols, sizes),
        paddings_fit(cols),
{
    assert forall|r: int, c: int| 0 <= r < sizes.len() && 0 <= c < cols.len() implies (
    #[trigger] sizes[r][c]).natural + cols[c].horizontal_padding() <= usize::MAX by {
        lemma_widest_covers(sizes, c, sizes.len() as int, r);
        lemma_sum_covers(ample_widths(cols, sizes), c);
    }
    assert forall|c: int| 0 <= c < cols.len() implies (#[trigger] cols[c]).horizontal_padding()
        <= usize::MAX by {
        lemma_sum_covers(ample_widths(cols, sizes), c);
    }
}

/// Widens every column to hold each of its cells on one line, as far as its
/// bounds allow.
pub fn fit_naturally(cols: &mut Vec<Column>, sizes: &Vec<Vec<CellSize>>)
    requires
        rectangular(grid(sizes@), old(cols)@.len() as nat),
        cells_fit(models(old(cols)@), grid(sizes@)),
        paddings_fit(models(old(cols)@)),
    ensures
        models(final(cols)@) == natural_fit(models(old(cols)@), grid(sizes@)),
{
    let ghost base = models(cols@);
    let ghost g = grid(sizes@);
    let n: usize = cols.len();
    let mut c: usize = 0;
    while c < n
        invariant
            c <= n,
            n == cols@.len(),
            n == base.len(),
            g == grid(sizes@),
            rectangular(g, n as nat),
            cells_fit(base, g),
            paddings_fit(base),
            forall|j: int| 0 <= j < c ==> (#[trigger] cols@[j])@ == fitted(base[j], g, j, g.len() as int),
            forall|j: int| c <= j < n ==> (#[trigger] cols@[j])@ == base[j],
        decreases n - c,
    {
        assert(base[c as int].horizontal_padding() <= usize::MAX);
        let padding: usize = cols[c].horizontal_padding();
        let mut r: usize = 0;
        while r < sizes.len()
            invariant
                r <= sizes.len(),
                c < n,
                n == cols@.len(),
                n == base.len(),
                g == grid(sizes@),
                rectangular(g, n as nat),
                cells_fit(base, g),
                padding == base[c as int].horizontal_padding(),
                cols@[c as int]@.horizontal_padding() == padding,
                cols@[c as int]@ == fitted(base[c as int], g, c as int, r as int),
                forall|j: int| 0 <= j < c ==> (#[trigger] cols@[j])@ == fitted(base[j], g, j, g.len() as int),
                forall|j: int| c < j < n ==> (#[trigger] cols@[j])@ == base[j],
            decreases sizes.len() - r,
        {
            assert(g[r as int].len() == n);
            assert(g[r as int][c as int].natural + base[c as int].horizontal_padding() <= usize::MAX);
            let m: usize = sizes[r][c].natural + padding;
            cols[c].expand(m);
            r += 1;
        }
        c += 1;
    }
    assert(models(cols@) =~= natural_fit(base, g));
}

/// Wraps the columns of priority `p` that can shrink to their longest words,
/// and marks them in `modified`.
pub fn wrap_one_tier(
    cols: &mut Vec<Column>,
    sizes: &Vec<Vec<CellSize>>,
    p: usize,
    modified: &mut Vec<bool>,
)
    requires
        rectangular(grid(sizes@), old(cols)@.len() as nat),
        cells_fit(models(old(cols)@), grid(sizes@)),
        sound(grid(sizes@)),
        paddings_fit(models(old(cols)@)),
        old(modified)@.len() == old(cols)@.len(),
    ensures
        models(final(cols)@) == wrap_tier(models(old(cols)@), grid(sizes@), p as nat),
        final(modified)@ == either(tier_marks(models(old(cols)@), p as nat), old(modified)@),
{
    let ghost base = models(cols@);
    let ghost marks = modified@;
    let ghost g = grid(sizes@);
    let n: usize = cols.len();
    let mut c: usize = 0;
    while c < n
        invariant
            c <= n,
            n == cols@.len(),
            n == base.len(),
            n == modified@.len(),
            n == marks.len(),
            g == grid(sizes@),
            rectangular(g, n as nat),
            cells_fit(base, g),
            sound(g),
            paddings_fit(base),
            forall|j: int| 0 <= j < c ==> (#[trigger] cols@[j])@ == wrap_tier(base, g, p as nat)[j],
            forall|j: int| c <= j < n ==> (#[trigger] cols@[j])@ == base[j],
            forall|j: int| 0 <= j < c ==> (#[trigger] modified@[j]) == (tier_marks(base, p as nat)[j] || marks[j]),
            forall|j: int| c <= j < n ==> (#[trigger] modified@[j]) == marks[j],
        decreases n - c,
    {
        assert(base[c as int].horizontal_padding() <= usize::MAX);
        if cols[c].rank() == p && cols[c].is_shrinkable() {
            modified[c] = true;
            let padding: usize = cols[c].horizontal_padding();
            cols[c].shrink(0);
            let mut r: usize = 0;
            while r < sizes.len()
                invariant
                    r <= sizes.len(),
                    c < n,
                    n == cols@.len(),
                    n == base.len(),
                    n == modified@.len(),
                    n == marks.len(),
                    g == grid(sizes@),
                    rectangular(g, n as nat),
                    cells_fit(base, g),
                    sound(g),
                    padding == base[c as int].horizontal_padding(),
                    cols@[c as int]@.horizontal_padding() == padding,
                    cols@[c as int]@ == wrapped(base[c as int], g, c as int, r as int),
                    forall|j: int| 0 <= j < c ==> (#[trigger] cols@[j])@ == wrap_tier(base, g, p as nat)[j],
                    forall|j: int| c < j < n ==> (#[trigger] cols@[j])@ == base[j],
                    forall|j: int| 0 <= j < c ==> (#[trigger] modified@[j]) == (tier_marks(base, p as nat)[j] || marks[j]),
                    forall|j: int| c < j < n ==> (#[trigger] modified@[j]) == marks[j],
                    modified@[c as int],
                decreases sizes.len() - r,
            {
                assert(g[r as int].len() == n);
                assert(g[r as int][c as int].natural + base[c as int].horizontal_padding() <= usize::MAX);
                assert(g[r as int][c as int].longest <= g[r as int][c as int].natural);
                let m: usize = sizes[r][c].longest + padding;
                cols[c].expand(m);
                r += 1;
            }
        }
        c += 1;
    }
    assert(models(cols@) =~= wrap_tier(base, g, p as nat));
    assert(modified@ =~= either(tier_marks(base, p as nat), marks));
}

/// A list of `n` marks, none of them set.
pub fn blank_marks(n: usize) -> (marks: Vec<bool>)
    ensures
        marks@ == no_marks(n as nat),
{
    let mut marks: Vec<bool> = Vec::new();
    let mut i: usize = 0;
    while i < n
        invariant
            i <= n,
            marks@ == no_marks(i as nat),
        decreases n - i,
    {
        marks.push(false);
        assert(marks@ =~= no_marks((i + 1) as nat));
        i += 1;
    }
    marks
}

/// The priority shrink pass: tier after tier, the least important first, the
/// columns are wrapped to their longest words, until the table fits the
/// viewport or no tier is left. Returns the marks of the columns that were
/// wrapped.
pub fn wrap_tiers(cols: &mut Vec<Column>, sizes: &Vec<Vec<CellSize>>, viewport: usize) -> (modified:
    Vec<bool>)
    requires
        rectangular(grid(sizes@), old(cols)@.len() as nat),
        sound(grid(sizes@)),
        tame(models(old(cols)@), grid(sizes@)),
        unconstrained_width(models(old(cols)@), grid(sizes@)) <= usize::MAX,
    ensures
        (models(final(cols)@), modified@) == shrink_pass(
            models(old(cols)@),
            grid(sizes@),
            viewport as nat,
            first_tier(models(old(cols)@)),
            no_marks(old(cols)@.len() as nat),
        ),
        tame(models(final(cols)@), grid(sizes@)),
        reshaped(models(final(cols)@), models(old(cols)@)),
        modified@.len() == old(cols)@.len(),
{
    let ghost base = models(cols@);
    let ghost g = grid(sizes@);
    let ghost goal = shrink_pass(base, g, viewport as nat, first_tier(base), no_marks(base.len()));
    let n: usize = cols.len();
    let mut modified = blank_marks(n);
    let mut tier = highest_priority_below(cols, None);
    while tier.is_some()
        invariant
            n == cols@.len(),
            n == modified@.len(),
            g == grid(sizes@),
            rectangular(g, n as nat),
            sound(g),
            tame(models(cols@), g),
            reshaped(models(cols@), base),
            unconstrained_width(base, g) <= usize::MAX,
            shrink_pass(models(cols@), g, viewport as nat, lift(tier), modified@) == goal,
        decreases tier_rank(lift(tier)),
    {
        let p: usize = tier.unwrap();
        let ghost before = models(cols@);
        let ghost marks = modified@;
        proof {
            lemma_reshaped(before, base, g);
            lemma_cells_fit(before, g);
        }
        wrap_one_tier(cols, sizes, p, &mut modified);
        proof {
            lemma_wrap_tier_tame(before, g, p as nat);
            lemma_reshaped(models(cols@), before, g);
            lemma_tame_required(models(cols@), g);
            lemma_cells_fit(models(cols@), g);
        }
        if space_required(cols) <= viewport {
            tier = None;
        } else {
            tier = highest_priority_below(cols, Some(p));
            proof {
                lemma_highest_below(models(cols@), Some(p as nat), n as int);
            }
        }
    }
    modified
}

/// Marks the columns of priority `p` that can still shrink.
pub fn mark_tier(cols: &Vec<Column>, p: usize) -> (marks: Vec<bool>)
    requires
        paddings_fit(models(cols@)),
    ensures
        marks@ == tier_marks(models(cols@), p as nat),
{
    let mut marks: Vec<bool> = Vec::new();
    let mut c: usize = 0;
    while c < cols.len()
        invariant
            c <= cols.len(),
            paddings_fit(models(cols@)),
            marks@ == tier_marks(models(cols@), p as nat).take(c as int),
        decreases cols.len() - c,
    {
        assert(models(cols@)[c as int] == cols@[c as int]@);
        let mark = cols[c].rank() == p && cols[c].is_shrinkable();
        marks.push(mark);
        assert(marks@ =~= tier_marks(models(cols@), p as nat).take(c + 1));
        c += 1;
    }
    assert(tier_marks(models(cols@), p as nat).take(c as int) =~= tier_marks(
        models(cols@),
        p as nat,
    ));
    marks
}

/// Narrows the marked columns by `amount` each, and marks those that gave way.
pub fn shrink_marked_columns(cols: &mut Vec<Column>, marks: &Vec<bool>, amount: usize) -> (moving:
    Vec<bool>)
    requires
        marks@.len() == old(cols)@.len(),
        paddings_fit(models(old(cols)@)),
    ensures
        models(final(cols)@) == shrink_marked(models(old(cols)@), marks@, amount as nat),
        moving@ == still_moving(models(old(cols)@), models(final(cols)@), marks@),
{
    let ghost base = models(cols@);
    let n: usize = cols.len();
    let mut moving: Vec<bool> = Vec::new();
    let mut c: usize = 0;
    while c < n
        invariant
            c <= n,
            n == cols@.len(),
            n == base.len(),
            n == marks@.len(),
            paddings_fit(base),
            moving@.len() == c,
            forall|j: int|
                0 <= j < c ==> (#[trigger] cols@[j])@ == shrink_marked(base, marks@, amount as nat)[j],
            forall|j: int| c <= j < n ==> (#[trigger] cols@[j])@ == base[j],
            forall|j: int|
                0 <= j < c ==> (#[trigger] moving@[j]) == (marks@[j] && base[j].width
                    != cols@[j]@.width),
        decreases n - c,
    {
        assert(base[c as int].horizontal_padding() <= usize::MAX);
        let moved = if marks[c] {
            cols[c].shrink_by(amount)
        } else {
            false
        };
        moving.push(moved);
        c += 1;
    }
    assert(models(cols@) =~= shrink_marked(base, marks@, amount as nat));
    assert(moving@ =~= still_moving(base, models(cols@), marks@));
    moving
}

/// Truncates the marked columns round by round, each giving up an equal share
/// of what the table still exceeds the viewport by, until it fits or none of
/// them gives way any more.
pub fn squeeze_columns(cols: &mut Vec<Column>, marks: Vec<bool>, viewport: usize)
    requires
        marks@.len() == old(cols)@.len(),
        paddings_fit(models(old(cols)@)),
        required_width(models(old(cols)@)) <= usize::MAX,
    ensures
        models(final(cols)@) == squeeze(models(old(cols)@), marks@, viewport as nat),
        reshaped(models(final(cols)@), models(old(cols)@)),
        required_width(models(final(cols)@)) <= required_width(models(old(cols)@)),
{
    let ghost base = models(cols@);
    let ghost goal = squeeze(base, marks@, viewport as nat);
    let mut current = marks;
    loop
        invariant
            base == models(old(cols)@),
            goal == squeeze(base, marks@, viewport as nat),
            current@.len() == cols@.len(),
            paddings_fit(models(cols@)),
            required_width(models(cols@)) <= required_width(base),
            required_width(base) <= usize::MAX,
            reshaped(models(cols@), base),
            squeeze(models(cols@), current@, viewport as nat) == goal,
        decreases total_width(models(cols@)),
    {
        let ghost before = models(cols@);
        let need: usize = space_required(cols);
        let candidates: usize = count_marks(&current);
        if need <= viewport || candidates == 0 {
            return ;
        }
        let excess: usize = need - viewport;
        let amount: usize = if excess <= candidates {
            1
        } else {
            excess / candidates
        };
        let moving = shrink_marked_columns(cols, &current, amount);
        proof {
            lemma_shrink_marked(before, current@, amount as nat);
            lemma_shrinking_narrows(before, current@, amount as nat);
            lemma_reshaped_twice(models(cols@), before, base);
            lemma_reshaped_paddings(models(cols@), before);
        }
        if count_marks(&moving) == 0 {
            return ;
        }
        current = moving;
    }
}

/// The forced truncation pass: tier after tier, the least important first,
/// the columns that can shrink are truncated, until the table fits the
/// viewport or no tier is left.
pub fn truncate_tiers(cols: &mut Vec<Column>, viewport: usize)
    requires
        paddings_fit(models(old(cols)@)),
        required_width(models(old(cols)@)) <= usize::MAX,
    ensures
        models(final(cols)@) == truncate_pass(
            models(old(cols)@),
            viewport as nat,
            first_tier(models(old(cols)@)),
        ),
        reshaped(models(final(cols)@), models(old(cols)@)),
        required_width(models(final(cols)@)) <= required_width(models(old(cols)@)),
{
    let ghost base = models(cols@);
    let ghost goal = truncate_pass(base, viewport as nat, first_tier(base));
    let n: usize = cols.len();
    let mut tier = highest_priority_below(cols, None);
    assert(reshaped(models(cols@), base));
    while tier.is_some()
        invariant
            n == cols@.len(),
            paddings_fit(models(cols@)),
            required_width(models(cols@)) <= required_width(base),
            required_width(base) <= usize::MAX,
            reshaped(models(cols@), base),
            truncate_pass(models(cols@), viewport as nat, lift(tier)) == goal,
        decreases tier_rank(lift(tier)),
    {
        let p: usize = tier.unwrap();
        let ghost before = models(cols@);
        let marks = mark_tier(cols, p);
        squeeze_columns(cols, marks, viewport);
        proof {
            lemma_reshaped_twice(models(cols@), before, base);
            lemma_reshaped_paddings(models(cols@), before);
        }
        if space_required(cols) <= viewport {
            tier = None;
        } else {
            tier = highest_priority_below(cols, Some(p));
            proof {
                lemma_highest_below(models(cols@), Some(p as nat), n as int);
            }
        }
    }
}

/// Marks the marked columns that can still grow.
pub fn mark_eligible(cols: &Vec<Column>, marks: &Vec<bool>) -> (able: Vec<bool>)
    requires
        marks@.len() == cols@.len(),
    ensures
        able@ == eligible(models(cols@), marks@),
{
    let mut able: Vec<bool> = Vec::new();
    let mut c: usize = 0;
    while c < cols.len()
        invariant
            c <= cols.len(),
            marks@.len() == cols@.len(),
            able@ == eligible(models(cols@), marks@).take(c as int),
        decreases cols.len() - c,
    {
        assert(models(cols@)[c as int] == cols@[c as int]@);
        let mark = marks[c] && cols[c].is_expandable();
        able.push(mark);
        assert(able@ =~= eligible(models(cols@), marks@).take(c + 1));
        c += 1;
    }
    assert(eligible(models(cols@), marks@).take(c as int) =~= eligible(models(cols@), marks@));
    able
}

/// Marks the marked columns of priority `p`, and, apart, the marked columns of
/// any other priority.
pub fn split_by_priority(cols: &Vec<Column>, marks: &Vec<bool>, p: usize) -> (r: (
    Vec<bool>,
    Vec<bool>,
))
    requires
        marks@.len() == cols@.len(),
    ensures
        r.0@ == of_priority(models(cols@), marks@, p as nat),
        r.1@ == not_of_priority(models(cols@), marks@, p as nat),
{
    let mut same: Vec<bool> = Vec::new();
    let mut other: Vec<bool> = Vec::new();
    let mut c: usize = 0;
    while c < cols.len()
        invariant
            c <= cols.len(),
            marks@.len() == cols@.len(),
            same@ == of_priority(models(cols@), marks@, p as nat).take(c as int),
            other@ == not_of_priority(models(cols@), marks@, p as nat).take(c as int),
        decreases cols.len() - c,
    {
        assert(models(cols@)[c as int] == cols@[c as int]@);
        let here = cols[c].rank() == p;
        same.push(marks[c] && here);
        other.push(marks[c] && !here);
        assert(same@ =~= of_priority(models(cols@), marks@, p as nat).take(c + 1));
        assert(other@ =~= not_of_priority(models(cols@), marks@, p as nat).take(c + 1));
        c += 1;
    }
    assert(of_priority(models(cols@), marks@, p as nat).take(c as int) =~= of_priority(
        models(cols@),
        marks@,
        p as nat,
    ));
    assert(not_of_priority(models(cols@), marks@, p as nat).take(c as int) =~= not_of_priority(
        models(cols@),
        marks@,
        p as nat,
    ));
    (same, other)
}

/// The least priority number among the marked columns.
pub fn lowest_marked_priority(cols: &Vec<Column>, marks: &Vec<bool>) -> (r: Option<usize>)
    requires
        marks@.len() == cols@.len(),
    ensures
        lift(r) == lowest_marked(models(cols@), marks@, cols@.len() as int),
{
    let mut best: Option<usize> = None;
    let mut i: usize = 0;
    while i < cols.len()
        invariant
            i <= cols.len(),
            marks@.len() == cols@.len(),
            lift(best) == lowest_marked(models(cols@), marks@, i as int),
        decreases cols.len() - i,
    {
        let p: usize = cols[i].rank();
        assert(models(cols@)[i as int] == cols@[i as int]@);
        let under = match best {
            Some(b) => p < b,
            None => true,
        };
        if marks[i] && under {
            best = Some(p);
        }
        i += 1;
    }
    best
}

/// Makes the first `k` of the marked columns one wider.
pub fn bump_first_columns(cols: &mut Vec<Column>, marks: &Vec<bool>, k: usize)
    requires
        marks@.len() == old(cols)@.len(),
        forall|c: int|
            0 <= c < old(cols)@.len() && marks@[c] ==> (#[trigger] models(old(cols)@)[c]).width
                < usize::MAX,
    ensures
        models(final(cols)@) == bump_first(models(old(cols)@), marks@, k as nat),
{
    let ghost base = models(cols@);
    let n: usize = cols.len();
    let mut seen: usize = 0;
    let mut c: usize = 0;
    while c < n
        invariant
            c <= n,
            n == cols@.len(),
            n == base.len(),
            n == marks@.len(),
            seen == count(marks@.take(c as int)),
            seen <= c,
            forall|j: int| 0 <= j < n && marks@[j] ==> (#[trigger] base[j]).width < usize::MAX,
            forall|j: int|
                0 <= j < c ==> (#[trigger] cols@[j])@ == bump_first(base, marks@, k as nat)[j],
            forall|j: int| c <= j < n ==> (#[trigger] cols@[j])@ == base[j],
        decreases n - c,
    {
        proof {
            lemma_count_step(marks@, c as int);
        }
        if marks[c] {
            if seen < k {
                assert(base[c as int].width < usize::MAX);
                let w: usize = cols[c].current_width();
                cols[c].set_width(w + 1);
            }
            seen += 1;
        }
        c += 1;
    }
    assert(models(cols@) =~= bump_first(base, marks@, k as nat));
}

/// Widens the marked columns by `share` each, as far as their bounds allow.
pub fn widen_marked_columns(cols: &mut Vec<Column>, marks: &Vec<bool>, share: usize)
    requires
        marks@.len() == old(cols)@.len(),
        paddings_fit(models(old(cols)@)),
        forall|c: int|
            0 <= c < old(cols)@.len() && marks@[c] ==> (#[trigger] models(old(cols)@)[c]).width
                + share <= usize::MAX,
    ensures
        models(final(cols)@) == widen_marked(models(old(cols)@), marks@, share as nat),
{
    let ghost base = models(cols@);
    let n: usize = cols.len();
    let mut c: usize = 0;
    while c < n
        invariant
            c <= n,
            n == cols@.len(),
            n == base.len(),
            n == marks@.len(),
            paddings_fit(base),
            forall|j: int| 0 <= j < n && marks@[j] ==> (#[trigger] base[j]).width + share <= usize::MAX,
            forall|j: int|
                0 <= j < c ==> (#[trigger] cols@[j])@ == widen_marked(base, marks@, share as nat)[j],
            forall|j: int| c <= j < n ==> (#[trigger] cols@[j])@ == base[j],
        decreases n - c,
    {
        if marks[c] {
            assert(base[c as int].width + share <= usize::MAX);
            assert(base[c as int].horizontal_padding() <= usize::MAX);
            cols[c].expand_by(share);
        }
        c += 1;
    }
    assert(models(cols@) =~= widen_marked(base, marks@, share as nat));
}

/// Shares out the space that the table leaves unused among `winners`, round by
/// round in equal parts among those that can still grow; once it is no more
/// than their number, the first of them get one position each.
pub fn share_out_surplus(cols: &mut Vec<Column>, viewport: usize, winners: Vec<bool>)
    requires
        winners@.len() == old(cols)@.len(),
        paddings_fit(models(old(cols)@)),
        required_width(models(old(cols)@)) <= viewport,
    ensures
        models(final(cols)@) == share_out(models(old(cols)@), viewport as nat, winners@),
        reshaped(models(final(cols)@), models(old(cols)@)),
        required_width(models(final(cols)@)) <= viewport,
        forall|c: int|
            0 <= c < old(cols)@.len() && !winners@[c] ==> (#[trigger] models(final(cols)@)[c])
                == models(old(cols)@)[c],
{
    let ghost base = models(cols@);
    let ghost goal = share_out(base, viewport as nat, winners@);
    let mut current = winners;
    assert(reshaped(models(cols@), base));
    loop
        invariant
            base == models(old(cols)@),
            goal == share_out(base, viewport as nat, winners@),
            winners@.len() == cols@.len(),
            current@.len() == cols@.len(),
            paddings_fit(models(cols@)),
            required_width(models(cols@)) <= viewport,
            reshaped(models(cols@), base),
            forall|c: int| 0 <= c < cols@.len() && current@[c] ==> winners@[c],
            forall|c: int|
                0 <= c < cols@.len() && !winners@[c] ==> (#[trigger] models(cols@)[c]) == base[c],
            share_out(models(cols@), viewport as nat, current@) == goal,
        decreases headroom(models(cols@), viewport as nat),
    {
        let ghost before = models(cols@);
        let need: usize = space_required(cols);
        let able = mark_eligible(cols, &current);
        let parts: usize = count_marks(&able);
        if need >= viewport || parts == 0 {
            return ;
        }
        let surplus: usize = viewport - need;
        proof {
            assert forall|c: int| 0 <= c < before.len() && able@[c] implies (#[trigger] before[c]).width
                + surplus <= usize::MAX by {
                lemma_expandable_within(before, c);
            }
        }
        if surplus <= parts {
            bump_first_columns(cols, &able, surplus);
            proof {
                lemma_bump_first(before, able@, surplus as nat);
                lemma_reshaped_twice(models(cols@), before, base);
            }
            return ;
        }
        let share: usize = surplus / parts;
        proof {
            lemma_shares(surplus as nat, parts as nat);
            assert(share * parts <= surplus);
            assert forall|c: int| 0 <= c < before.len() && able@[c] implies (#[trigger] before[c]).width
                + share <= usize::MAX by {
                assert(before[c].width + surplus <= usize::MAX);
            }
        }
        widen_marked_columns(cols, &able, share);
        proof {
            lemma_widen_marked(before, able@, share as nat);
            lemma_widening_fills(before, viewport as nat, current@);
            lemma_reshaped_twice(models(cols@), before, base);
            lemma_reshaped_paddings(models(cols@), before);
        }
        current = able;
    }
}

/// The give-back pass: the space that the table leaves unused goes to the
/// columns marked in `modified`, the most important tier first.
pub fn give_back_surplus(cols: &mut Vec<Column>, viewport: usize, modified: Vec<bool>)
    requires
        modified@.len() == old(cols)@.len(),
        paddings_fit(models(old(cols)@)),
        required_width(models(old(cols)@)) <= viewport,
        forall|c: int|
            0 <= c < old(cols)@.len() && modified@[c] ==> (#[trigger] models(
                old(cols)@,
            )[c]).is_expandable(),
    ensures
        models(final(cols)@) == give_back(models(old(cols)@), viewport as nat, modified@),
        reshaped(models(final(cols)@), models(old(cols)@)),
        required_width(models(final(cols)@)) <= viewport,
{
    let ghost base = models(cols@);
    let ghost goal = give_back(base, viewport as nat, modified@);
    let mut current = modified;
    assert(reshaped(models(cols@), base));
    loop
        invariant
            base == models(old(cols)@),
            goal == give_back(base, viewport as nat, modified@),
            current@.len() == cols@.len(),
            paddings_fit(models(cols@)),
            required_width(models(cols@)) <= viewport,
            reshaped(models(cols@), base),
            forall|c: int|
                0 <= c < cols@.len() && current@[c] ==> (#[trigger] models(cols@)[c]).is_expandable(),
            give_back(models(cols@), viewport as nat, current@) == goal,
        decreases count(current@),
    {
        let ghost before = models(cols@);
        let need: usize = space_required(cols);
        if need >= viewport {
            return ;
        }
        let tier = lowest_marked_priority(cols, &current);
        if tier.is_none() {
            return ;
        }
        let p: usize = tier.unwrap();
        let (winners, others) = split_by_priority(cols, &current, p);
        let surplus: usize = viewport - need;
        if surplus <= count_marks(&winners) {
            proof {
                assert forall|c: int| 0 <= c < before.len() && winners@[c] implies (
                #[trigger] before[c]).width < usize::MAX by {
                    lemma_expandable_within(before, c);
                }
            }
            bump_first_columns(cols, &winners, surplus);
            proof {
                lemma_bump_first(before, winners@, surplus as nat);
                lemma_reshaped_twice(models(cols@), before, base);
            }
            return ;
        }
        share_out_surplus(cols, viewport, winners);
        proof {
            lemma_lowest_marked(before, current@, before.len() as int);
            lemma_dropping_tier(before, current@, p as nat);
            lemma_reshaped_twice(models(cols@), before, base);
            lemma_reshaped_paddings(models(cols@), before);
        }
        current = others;
    }
}

/// A copy of the columns.
pub fn copy_columns(cols: &Vec<Column>) -> (copy: Vec<Column>)
    ensures
        copy@ == cols@,
{
    let mut copy: Vec<Column> = Vec::new();
    let mut i: usize = 0;
    while i < cols.len()
        invariant
            i <= cols.len(),
            copy@ == cols@.take(i as int),
        decreases cols.len() - i,
    {
        copy.push(cols[i]);
        assert(copy@ =~= cols@.take(i + 1));
        i += 1;
    }
    assert(cols@.take(i as int) =~= cols@);
    copy
}

/// Works out the widths of the columns for the data measured in `sizes`.
///
/// A row that has not one cell for each column is refused. Columns that are
/// all adjusted stay as they are. Otherwise the widths are worked out afresh,
/// and the columns are marked as adjusted. Where this fails the columns stay
/// as they were.
pub fn resolve_columns(cols: &mut Vec<Column>, viewport: usize, sizes: &Vec<Vec<CellSize>>) -> (r:
    Result<(), ColonnadeError>)
    requires
        sound(grid(sizes@)),
        rectangular(grid(sizes@), old(cols)@.len() as nat) && !all_adjusted(models(old(cols)@))
            ==> unconstrained_width(models(old(cols)@), grid(sizes@)) <= usize::MAX,
    ensures
        match r {
            Ok(()) => {
                &&& resolve(models(old(cols)@), viewport as nat, grid(sizes@)) == Ok::<
                    Columns,
                    ColonnadeError,
                >(models(final(cols)@))
                &&& rectangular(grid(sizes@), old(cols)@.len() as nat)
                &&& all_adjusted(models(final(cols)@))
                &&& final(cols)@.len() == old(cols)@.len()
                &&& !all_adjusted(models(old(cols)@)) ==> required_width(models(final(cols)@))
                    <= viewport
                &&& all_adjusted(models(old(cols)@)) ==> final(cols)@ == old(cols)@
            },
            Err(e) => {
                &&& resolve(models(old(cols)@), viewport as nat, grid(sizes@)) == Err::<
                    Columns,
                    ColonnadeError,
                >(e)
                &&& final(cols)@ == old(cols)@
            },
        },
{
    let ghost base = models(cols@);
    let ghost g = grid(sizes@);
    let n: usize = cols.len();
    match find_ragged(sizes, n) {
        Some(i) => {
            assert(g[i as int].len() == sizes@[i as int]@.len());
            return Err(ColonnadeError::InconsistentColumns(i, sizes[i].len(), n));
        },
        None => {},
    }
    if every_column_adjusted(cols) {
        assert(models(cols@) =~= base);
        return Ok(());
    }
    if !space_suffices(cols, viewport) {
        return Err(ColonnadeError::InsufficientSpace);
    }
    let mut work = copy_columns(cols);
    clear_all(&mut work);
    let ghost blank = models(work@);
    proof {
        lemma_cleared(base, g);
        lemma_cells_fit(blank, g);
    }
    fit_naturally(&mut work, sizes);
    let ghost natural = models(work@);
    proof {
        lemma_natural_fit_tame(blank, g);
        lemma_reshaped(natural, blank, g);
        lemma_tame_required(natural, g);
        lemma_cells_fit(natural, g);
    }
    if space_required(&work) <= viewport {
        settle_all(&mut work);
        proof {
            lemma_settled(natural);
        }
        *cols = work;
        return Ok(());
    }
    let modified = wrap_tiers(&mut work, sizes, viewport);
    let ghost wrapped = models(work@);
    proof {
        lemma_reshaped(wrapped, natural, g);
        lemma_tame_required(wrapped, g);
        lemma_cells_fit(wrapped, g);
    }
    if space_required(&work) > viewport {
        truncate_tiers(&mut work, viewport);
        proof {
            lemma_reshaped_paddings(models(work@), wrapped);
        }
        if space_required(&work) > viewport {
            return Err(ColonnadeError::InsufficientSpace);
        }
    } else {
        let able = mark_eligible(&work, &modified);
        give_back_surplus(&mut work, viewport, able);
    }
    let ghost last = models(work@);
    settle_all(&mut work);
    proof {
        lemma_settled(last);
    }
    *cols = work;
    Ok(())
}

/// The greatest natural width among the cells of column `c`.
pub fn widest_cell(sizes: &Vec<Vec<CellSize>>, c: usize) -> (w: usize)
    requires
        forall|r: int| 0 <= r < sizes@.len() ==> c < (#[trigger] sizes@[r])@.len(),
    ensures
        w == widest(grid(sizes@), c as int, sizes@.len() as int),
{
    let mut w: usize = 0;
    let mut r: usize = 0;
    while r < sizes.len()
        invariant
            r <= sizes.len(),
            forall|i: int| 0 <= i < sizes@.len() ==> c < (#[trigger] sizes@[i])@.len(),
            w == widest(grid(sizes@), c as int, r as int),
        decreases sizes.len() - r,
    {
        assert(grid(sizes@)[r as int][c as int] == sizes@[r as int]@[c as int]@);
        if sizes[r][c].natural > w {
            w = sizes[r][c].natural;
        }
        r += 1;
    }
    w
}

/// Whether the width that the data would take in a viewport without end is a
/// number of machine size.
pub fn fits_unconstrained(cols: &Vec<Column>, sizes: &Vec<Vec<CellSize>>) -> (b: bool)
    requires
        rectangular(grid(sizes@), cols@.len() as nat),
    ensures
        b == (unconstrained_width(models(cols@), grid(sizes@)) <= usize::MAX),
{
    let ghost caps = ample_widths(models(cols@), grid(sizes@));
    let mut acc: u128 = 0;
    let mut c: usize = 0;
    while c < cols.len()
        invariant
            c <= cols.len(),
            rectangular(grid(sizes@), cols@.len() as nat),
            caps == ample_widths(models(cols@), grid(sizes@)),
            acc == sum(caps.take(c as int)),
            acc <= usize::MAX,
        decreases cols.len() - c,
    {
        proof {
            lemma_sum_step(caps, c as int);
            lemma_sum_take(caps, c + 1);
            assert(models(cols@)[c as int] == cols@[c as int]@);
            cols@[c as int].lemma_representable();
            assert forall|r: int| 0 <= r < sizes@.len() implies c < (#[trigger] sizes@[r])@.len() by {
                assert(grid(sizes@)[r].len() == cols@.len());
            }
        }
        let least: u128 = cols[c].wide_minimum_width();
        let full: u128 = widest_cell(sizes, c) as u128 + cols[c].wide_horizontal_padding();
        let most: u128 = if least > full { least } else { full };
        acc = acc + cols[c].margin_width() as u128 + most;
        if acc > usize::MAX as u128 {
            return false;
        }
        c += 1;
    }
    assert(caps.take(c as int) =~= caps);
    true
}

} // verus!
