use vstd::prelude::*;
use crate::bounds::{sound, unconstrained_width};
use crate::column::{models, Alignment, Choice, Column, ColumnModel, Setting, VerticalAlignment};
use crate::compose::{compose, flatten, Line};
use crate::composer::{compose_one_row, flatten_rows, lines_view, rows_view};
use crate::error::ColonnadeError;
use crate::layout::{
    all_adjusted, cleared, least_widths, minimal_width, rectangular, required_width, resolve,
    Measure, Measures,
};
use crate::resolver::{
    clear_all, copy_columns, every_column_adjusted, find_ragged, fits_unconstrained, grid,
    resolve_columns, space_in_use, space_suffices, CellSize,
};
use crate::text::{
    lemma_words_of, longest_word, longest_word_width, normalized_width, texts,
    width_after_normalization,
};

verus! {

/// The texts of a table of strings.
pub open spec fn table_texts(table: Seq<Vec<String>>) -> Seq<Seq<Seq<char>>> {
    Seq::new(table.len(), |r: int| texts(table[r]@))
}

/// The row with empty cells added at its end until it has `n` cells. A row of
/// `n` cells or more stays as it is.
pub open spec fn padded_row(row: Seq<Seq<char>>, n: nat) -> Seq<Seq<char>> {
    if row.len() < n {
        row + Seq::new((n - row.len()) as nat, |c: int| Seq::<char>::empty())
    } else {
        row
    }
}

/// The table with every short row padded to `n` cells.
pub open spec fn padded(table: Seq<Seq<Seq<char>>>, n: nat) -> Seq<Seq<Seq<char>>> {
    Seq::new(table.len(), |r: int| padded_row(table[r], n))
}

/// The measure of the text of one cell.
pub open spec fn measure(text: Seq<char>) -> Measure {
    Measure { natural: normalized_width(text), longest: longest_word_width(text) }
}

/// The measures of the texts of a table.
pub open spec fn measures(table: Seq<Seq<Seq<char>>>) -> Measures {
    Seq::new(table.len(), |r: int| Seq::new(table[r].len(), |c: int| measure(table[r][c])))
}

/// The columns of a new table of `n` columns: fresh ones, the first without a
/// left margin.
pub open spec fn fresh_columns(n: nat) -> Seq<ColumnModel> {
    Seq::new(
        n,
        |c: int|
            if c == 0 {
                ColumnModel { left_margin: 0, ..ColumnModel::fresh(0) }
            } else {
                ColumnModel::fresh(c as nat)
            },
    )
}

/// The columns after the change was made to each of them.
pub open spec fn each(cols: Seq<ColumnModel>, setting: Setting) -> Seq<ColumnModel> {
    Seq::new(cols.len(), |c: int| cols[c].with(setting))
}

/// The columns after the change was made to those before the column `k`.
pub open spec fn each_before(cols: Seq<ColumnModel>, setting: Setting, k: int) -> Seq<ColumnModel> {
    Seq::new(cols.len(), |c: int| if c < k { cols[c].with(setting) } else { cols[c] })
}

/// The first column at or after `from` that refuses the change; the number of
/// columns, if none does.
pub open spec fn first_refusing(cols: Seq<ColumnModel>, setting: Setting, from: int) -> int
    decreases cols.len() - from,
{
    if from < 0 || from >= cols.len() {
        cols.len() as int
    } else if cols[from].refuses(setting) {
        from
    } else {
        first_refusing(cols, setting, from + 1)
    }
}

/// Whether a column may refuse the change at all.
pub open spec fn may_be_refused(setting: Setting) -> bool {
    setting is MaxWidth || setting is MinWidth
}

/// A change that no column may refuse is refused by none.
pub proof fn lemma_none_refusing(cols: Seq<ColumnModel>, setting: Setting, from: int)
    requires
        !may_be_refused(setting),
    ensures
        first_refusing(cols, setting, from) == cols.len(),
    decreases cols.len() - from,
{
    if 0 <= from < cols.len() {
        lemma_none_refusing(cols, setting, from + 1);
    }
}

/// The mathematical content of a [`Colonnade`]: its columns, the width of the
/// viewport, and the number of blank lines between rows.
pub struct ColonnadeModel {
    /// The columns, from left to right.
    pub columns: Seq<ColumnModel>,
    /// The width of the viewport.
    pub width: nat,
    /// The number of blank lines between rows.
    pub spaces_between_rows: nat,
}

impl ColonnadeModel {
    /// The table with other columns.
    pub open spec fn with_columns(self, columns: Seq<ColumnModel>) -> ColonnadeModel {
        ColonnadeModel { columns, ..self }
    }

    /// Whether the least that the columns might need fits the viewport.
    pub open spec fn sufficient_space(self) -> bool {
        minimal_width(self.columns) <= self.width
    }

    /// Whether the widths of the columns are resolved.
    pub open spec fn adjusted(self) -> bool {
        all_adjusted(self.columns)
    }

    /// The table as the layout sees it: short rows padded, every cell measured.
    pub open spec fn sizes(self, table: Seq<Seq<Seq<char>>>) -> Measures {
        measures(padded(table, self.columns.len()))
    }

    /// The table can be laid out in numbers of machine size: where its widths
    /// have to be worked out, the width that its data would take in a viewport
    /// without end is such a number.
    pub open spec fn measurable(self, table: Seq<Seq<Seq<char>>>) -> bool {
        rectangular(self.sizes(table), self.columns.len()) && !self.adjusted()
            ==> unconstrained_width(self.columns, self.sizes(table)) <= usize::MAX
    }

    /// The table after its widths were resolved for the data, or the reason why
    /// they cannot be.
    pub open spec fn resolved(self, table: Seq<Seq<Seq<char>>>) -> Result<
        ColonnadeModel,
        ColonnadeError,
    > {
        match resolve(self.columns, self.width, self.sizes(table)) {
            Ok(columns) => Ok(self.with_columns(columns)),
            Err(e) => Err(e),
        }
    }

    /// The lines of the data in the columns as they are: for each row its
    /// lines, for each line the margin and the content of every column.
    pub open spec fn composed(self, table: Seq<Seq<Seq<char>>>) -> Seq<Seq<Line>> {
        compose(self.columns, self.spaces_between_rows, padded(table, self.columns.len()))
    }

    /// What a change to all columns that none of them refuses leaves behind:
    /// every column has it, and the answer is the table, or that the least
    /// that the columns need is now more than the viewport.
    pub open spec fn after(self, setting: Setting, r: Result<&mut Colonnade, ColonnadeError>) -> bool {
        let changed = self.with_columns(each(self.columns, setting));
        match r {
            Ok(t) => t@ == changed && changed.sufficient_space(),
            Err(e) => e == ColonnadeError::InsufficientSpace && !changed.sufficient_space(),
        }
    }

    /// What laying out the data leaves behind. On success the table is the
    /// resolved one, all its columns are adjusted, and the data comes back with
    /// short rows padded; where the widths were worked out, the table is no
    /// wider than the viewport. On failure the table is as it was.
    pub open spec fn lays_out(
        self,
        table: Seq<Seq<Seq<char>>>,
        after: ColonnadeModel,
        r: Result<Vec<Vec<String>>, ColonnadeError>,
    ) -> bool {
        match r {
            Ok(owned) => {
                &&& self.resolved(table) == Ok::<ColonnadeModel, ColonnadeError>(after)
                &&& table_texts(owned@) == padded(table, self.columns.len())
                &&& rectangular(self.sizes(table), self.columns.len())
                &&& after.columns.len() == self.columns.len()
                &&& after.adjusted()
                &&& !self.adjusted() ==> required_width(after.columns) <= after.width
                &&& self.adjusted() ==> after == self
            },
            Err(e) => self.resolved(table) == Err::<ColonnadeModel, ColonnadeError>(e) && after
                == self,
        }
    }

    /// What macerating the data leaves behind. On success the table is the
    /// resolved one, and the pieces are the lines of the data in its columns;
    /// all columns are adjusted, and where the widths were worked out, the
    /// table is no wider than the viewport. On failure the table is as it was.
    pub open spec fn macerates(
        self,
        table: Seq<Seq<Seq<char>>>,
        after: ColonnadeModel,
        r: Result<Vec<Vec<Vec<(String, String)>>>, ColonnadeError>,
    ) -> bool {
        match r {
            Ok(rows) => {
                &&& self.resolved(table) == Ok::<ColonnadeModel, ColonnadeError>(after)
                &&& rows_view(rows@) == after.composed(table)
                &&& after.adjusted()
                &&& !self.adjusted() ==> required_width(after.columns) <= after.width
            },
            Err(e) => self.resolved(table) == Err::<ColonnadeModel, ColonnadeError>(e) && after
                == self,
        }
    }

    /// What tabulating the data leaves behind. On success the table is the
    /// resolved one, and the strings are the lines of the data in its columns,
    /// each flattened to plain text; all columns are adjusted, and where the
    /// widths were worked out, the table is no wider than the viewport. On
    /// failure the table is as it was.
    pub open spec fn tabulates(
        self,
        table: Seq<Seq<Seq<char>>>,
        after: ColonnadeModel,
        r: Result<Vec<String>, ColonnadeError>,
    ) -> bool {
        match r {
            Ok(lines) => {
                &&& self.resolved(table) == Ok::<ColonnadeModel, ColonnadeError>(after)
                &&& texts(lines@) == flatten(after.composed(table))
                &&& after.adjusted()
                &&& !self.adjusted() ==> required_width(after.columns) <= after.width
            },
            Err(e) => self.resolved(table) == Err::<ColonnadeModel, ColonnadeError>(e) && after
                == self,
        }
    }
}

/// The viewport of a table and the spacing of its rows: all that a
/// [`Colonnade`] holds but its columns. They are set through the table.
#[derive(Debug, Clone, Copy)]
pub struct Frame {
    width: usize,
    spaces_between_rows: usize,
}

impl View for Frame {
    type V = ColonnadeModel;

    /// The table that the frame describes, without columns.
    closed spec fn view(&self) -> ColonnadeModel {
        ColonnadeModel {
            columns: Seq::empty(),
            width: self.width as nat,
            spaces_between_rows: self.spaces_between_rows as nat,
        }
    }
}

/// A struct holding formatting information. This is the object which tabulates
/// data.
#[derive(Debug)]
pub struct Colonnade {
    pub columns: Vec<Column>,
    /// the viewport and the spacing of the rows
    pub frame: Frame,
}

impl View for Colonnade {
    type V = ColonnadeModel;

    /// The table that the frame describes, with the columns that the table
    /// has.
    open spec fn view(&self) -> ColonnadeModel {
        self.frame@.with_columns(models(self.columns@))
    }
}

impl Clone for Colonnade {
    fn clone(&self) -> (copy: Self)
        ensures
            copy@ == self@,
    {
        Colonnade { columns: copy_columns(&self.columns), frame: self.frame }
    }
}

/// The least that a new table of `n` columns might need: one character for
/// each column, and a margin of one before each column but the first.
pub proof fn lemma_fresh_columns(n: nat)
    ensures
        minimal_width(fresh_columns(n)) == if n == 0 { 0 } else { 2 * n - 1 },
    decreases n,
{
    let least = least_widths(fresh_columns(n));
    if n > 0 {
        lemma_fresh_columns((n - 1) as nat);
        assert(least.drop_last() =~= least_widths(fresh_columns((n - 1) as nat)));
    }
}

/// The measures of texts are sound: no word is longer than its text.
pub proof fn lemma_measures_sound(table: Seq<Seq<Seq<char>>>)
    ensures
        sound(measures(table)),
{
    assert forall|r: int, c: int|
        0 <= r < measures(table).len() && 0 <= c < measures(table)[r].len() implies (
    #[trigger] measures(table)[r][c]).longest <= measures(table)[r][c].natural by {
        lemma_words_of(table[r][c]);
    }
}

impl Colonnade {
    /// The columns in the model are the models of the columns that the table
    /// holds, one for one.
    pub proof fn law_columns(&self)
        ensures
            self@.columns == models(self.columns@),
            self@.columns.len() == self.columns@.len(),
            forall|c: int|
                0 <= c < self.columns@.len() ==> self@.columns[c] == (#[trigger] self.columns@[c])@,
    {
    }

    /// Construct a `Colonnade` with default values: left alignment, no column
    /// size constraints, no blank lines between rows, 1 space margin between
    /// columns.
    ///
    /// `columns` is the number of columns of data to expect, `width` the
    /// viewport size in characters. A table without columns is refused, and so
    /// is one whose columns have not one character each in the viewport, with
    /// their margins.
    pub fn new(columns: usize, width: usize) -> (r: Result<Colonnade, ColonnadeError>)
        ensures
            match r {
                Ok(c) => {
                    &&& columns > 0
                    &&& 2 * columns - 1 <= width
                    &&& c@ == (ColonnadeModel {
                        columns: fresh_columns(columns as nat),
                        width: width as nat,
                        spaces_between_rows: 0,
                    })
                    &&& c@.sufficient_space()
                },
                Err(e) => if columns == 0 {
                    e == ColonnadeError::InsufficientColumns
                } else {
                    e == ColonnadeError::InsufficientSpace && 2 * columns - 1 > width
                },
            },
    {
        if columns == 0 {
            return Err(ColonnadeError::InsufficientColumns);
        }
        if 2 * (columns as u128) - 1 > width as u128 {
            return Err(ColonnadeError::InsufficientSpace);
        }
        let mut list: Vec<Column> = Vec::new();
        let mut i: usize = 0;
        while i < columns
            invariant
                i <= columns,
                list@.len() == i,
                forall|c: int| 0 <= c < i ==> (#[trigger] list@[c])@ == fresh_columns(columns as nat)[c],
            decreases columns - i,
        {
            let mut column = Column::default(i);
            if i == 0 {
                column.left_margin(0);
            }
            list.push(column);
            i += 1;
        }
        let spec = Colonnade { columns: list, frame: Frame { width, spaces_between_rows: 0 } };
        proof {
            assert(models(spec.columns@) =~= fresh_columns(columns as nat));
            lemma_fresh_columns(columns as nat);
        }
        Ok(spec)
    }

    /// The column at `index`, to be configured. An index beyond the columns is
    /// refused.
    pub fn column(&mut self, index: usize) -> (r: Result<&mut Column, ColonnadeError>)
        ensures
            match r {
                Ok(c) => {
                    &&& index < old(self)@.columns.len()
                    &&& c@ == old(self)@.columns[index as int]
                    &&& final(self)@ == old(self)@.with_columns(
                        old(self)@.columns.update(index as int, final(c)@),
                    )
                },
                Err(e) => {
                    &&& index >= old(self)@.columns.len()
                    &&& e == ColonnadeError::OutOfBounds
                    &&& final(self)@ == old(self)@
                },
            },
    {
        if index >= self.columns.len() {
            return Err(ColonnadeError::OutOfBounds);
        }
        proof {
            assert forall|c: Column|
                models(self.columns@.update(index as int, c)) == #[trigger] models(
                    self.columns@,
                ).update(index as int, c@) by {
                assert(models(self.columns@.update(index as int, c)) =~= models(
                    self.columns@,
                ).update(index as int, c@));
            }
        }
        Ok(&mut self.columns[index])
    }

    /// The number of columns.
    pub fn len(&self) -> (n: usize)
        ensures
            n == self@.columns.len(),
    {
        self.columns.len()
    }

    /// Whether the least that the columns might need fits the viewport.
    pub fn sufficient_space(&self) -> (b: bool)
        ensures
            b == self@.sufficient_space(),
    {
        space_suffices(&self.columns, self.frame.width)
    }

    /// Whether the widths of the columns are resolved.
    pub fn adjusted(&self) -> (b: bool)
        ensures
            b == self@.adjusted(),
    {
        every_column_adjusted(&self.columns)
    }

    /// The width that the table takes, once the widths of its columns are
    /// resolved: the left margins and the effective widths of all columns
    /// together. Nothing before.
    ///
    /// After a resolution this is no more than the viewport. Widths written
    /// into the columns by hand may make it more than a machine word holds:
    /// then there is nothing to return either.
    pub fn width(&self) -> (r: Option<usize>)
        ensures
            r is Some <==> self@.adjusted() && required_width(self@.columns) <= usize::MAX,
            r is Some ==> r->Some_0 == required_width(self@.columns),
    {
        if self.adjusted() {
            space_in_use(&self.columns)
        } else {
            None
        }
    }

    /// The width of the viewport.
    pub fn viewport(&self) -> (w: usize)
        ensures
            w == self@.width,
    {
        self.frame.width
    }

    /// Forgets the widths of all columns, so that they are worked out afresh
    /// for the next data.
    pub fn reset(&mut self)
        ensures
            final(self)@ == old(self)@.with_columns(cleared(old(self)@.columns)),
    {
        clear_all(&mut self.columns);
    }

    /// A copy of the table with every short row padded by empty strings to the
    /// number of columns.
    pub fn own_table(&self, table: &Vec<Vec<String>>) -> (owned: Vec<Vec<String>>)
        ensures
            table_texts(owned@) == padded(table_texts(table@), self@.columns.len()),
    {
        let n: usize = self.columns.len();
        let ghost goal = padded(table_texts(table@), n as nat);
        let mut owned: Vec<Vec<String>> = Vec::new();
        let mut r: usize = 0;
        while r < table.len()
            invariant
                r <= table.len(),
                n == self.columns@.len(),
                goal == padded(table_texts(table@), n as nat),
                owned@.len() == r,
                forall|i: int| 0 <= i < r ==> texts((#[trigger] owned@[i])@) == goal[i],
            decreases table.len() - r,
        {
            let ghost source = texts(table@[r as int]@);
            assert(table_texts(table@)[r as int] == source);
            let mut row: Vec<String> = Vec::new();
            let mut c: usize = 0;
            while c < table[r].len()
                invariant
                    c <= table@[r as int]@.len(),
                    r < table.len(),
                    source == texts(table@[r as int]@),
                    texts(row@) == source.take(c as int),
                decreases table@[r as int]@.len() - c,
            {
                let ghost so_far = texts(row@);
                row.push(table[r][c].clone());
                assert(texts(row@) =~= so_far.push(source[c as int]));
                assert(so_far.push(source[c as int]) =~= source.take(c + 1));
                c += 1;
            }
            assert(source.take(c as int) =~= source);
            assert(texts(row@) =~= source + Seq::new(0, |c: int| Seq::<char>::empty()));
            // pad rows as necessary
            while row.len() < n
                invariant
                    source.len() <= row@.len(),
                    source.len() < n ==> row@.len() <= n,
                    source.len() >= n ==> row@.len() == source.len(),
                    texts(row@) == source + Seq::new(
                        (row@.len() - source.len()) as nat,
                        |c: int| Seq::<char>::empty(),
                    ),
                decreases n - row@.len(),
            {
                let ghost so_far = texts(row@);
                row.push(String::new());
                assert(texts(row@) =~= so_far.push(Seq::<char>::empty()));
                assert(so_far.push(Seq::<char>::empty()) =~= source + Seq::new(
                    (row@.len() - source.len()) as nat,
                    |c: int| Seq::<char>::empty(),
                ));
            }
            assert(goal[r as int] == padded_row(source, n as nat));
            assert(texts(row@) =~= goal[r as int]);
            owned.push(row);
            r += 1;
        }
        assert(table_texts(owned@) =~= goal);
        owned
    }

    /// The characters required to represent `s` after whitespace
    /// normalization.
    pub fn width_after_normalization(s: &str) -> (n: usize)
        ensures
            n == normalized_width(s@),
    {
        width_after_normalization(s)
    }

    /// The sizes of the cells of a table.
    pub fn measure_table(table: &Vec<Vec<String>>) -> (sizes: Vec<Vec<CellSize>>)
        ensures
            grid(sizes@) == measures(table_texts(table@)),
    {
        let ghost goal = measures(table_texts(table@));
        let mut sizes: Vec<Vec<CellSize>> = Vec::new();
        let mut r: usize = 0;
        while r < table.len()
            invariant
                r <= table.len(),
                goal == measures(table_texts(table@)),
                sizes@.len() == r,
                forall|i: int|
                    0 <= i < r ==> Seq::new(
                        (#[trigger] sizes@[i])@.len(),
                        |c: int| sizes@[i]@[c]@,
                    ) == goal[i],
            decreases table.len() - r,
        {
            let ghost source = texts(table@[r as int]@);
            assert(table_texts(table@)[r as int] == source);
            let mut row: Vec<CellSize> = Vec::new();
            let mut c: usize = 0;
            while c < table[r].len()
                invariant
                    c <= table@[r as int]@.len(),
                    r < table.len(),
                    source == texts(table@[r as int]@),
                    row@.len() == c,
                    forall|j: int| 0 <= j < c ==> (#[trigger] row@[j])@ == measure(source[j]),
                decreases table@[r as int]@.len() - c,
            {
                let text = table[r][c].as_str();
                let size = CellSize {
                    natural: Colonnade::width_after_normalization(text),
                    longest: longest_word(text),
                };
                row.push(size);
                c += 1;
            }
            assert(Seq::new(row@.len(), |c: int| row@[c]@) =~= goal[r as int]);
            sizes.push(row);
            r += 1;
        }
        assert(grid(sizes@) =~= goal);
        sizes
    }

    /// Whether the table can be laid out in numbers of machine size, as
    /// [`Colonnade::lay_out`], [`Colonnade::macerate`] and
    /// [`Colonnade::tabulate`] ask of their callers.
    pub fn measurable(&self, table: &Vec<Vec<String>>) -> (b: bool)
        ensures
            b == self@.measurable(table_texts(table@)),
    {
        let owned = self.own_table(table);
        let sizes = Colonnade::measure_table(&owned);
        if find_ragged(&sizes, self.columns.len()).is_some() || self.adjusted() {
            return true;
        }
        fits_unconstrained(&self.columns, &sizes)
    }

    /// Determines the widths of the columns for the data, given the constraints
    /// of the columns, and returns the data with every short row padded to the
    /// number of columns.
    ///
    /// A row with more cells than there are columns is refused. Where the
    /// widths are resolved already, they stay. Where they cannot be resolved,
    /// the table stays as it was.
    pub fn lay_out(&mut self, table: &Vec<Vec<String>>) -> (r: Result<
        Vec<Vec<String>>,
        ColonnadeError,
    >)
        requires
            old(self)@.measurable(table_texts(table@)),
        ensures
            old(self)@.lays_out(table_texts(table@), final(self)@, r),
    {
        let owned = self.own_table(table);
        let sizes = Colonnade::measure_table(&owned);
        proof {
            lemma_measures_sound(table_texts(owned@));
        }
        match resolve_columns(&mut self.columns, self.frame.width, &sizes) {
            Ok(()) => Ok(owned),
            Err(e) => Err(e),
        }
    }

    /// Turns one row of text into its lines, each a list of margins and column
    /// texts, and adds them as one list to `buffer`.
    pub fn add_row(
        &self,
        buffer: &mut Vec<Vec<Vec<(String, String)>>>,
        row: &Vec<String>,
        last_row: bool,
    )
        requires
            row@.len() == self@.columns.len(),
        ensures
            rows_view(final(buffer)@) == rows_view(old(buffer)@).push(
                crate::compose::compose_row(
                    self@.columns,
                    self@.spaces_between_rows,
                    texts(row@),
                    last_row,
                ),
            ),
    {
        let ghost before = rows_view(buffer@);
        let lines = compose_one_row(&self.columns, self.frame.spaces_between_rows, row, last_row);
        let ghost these = lines_view(lines@);
        buffer.push(lines);
        assert(rows_view(buffer@) =~= before.push(these));
    }

    /// Chews up the text into a list of lists of lists of pairs of margin and
    /// text, for those that wish to decorate the pieces before putting them
    /// together: one list for each row, one for each line, one pair for each
    /// column. A line that separates rows is a single pair of a margin as wide
    /// as the table and no text.
    ///
    /// The widths of the columns are resolved first, if they are not yet.
    pub fn macerate(&mut self, table: &Vec<Vec<String>>) -> (r: Result<
        Vec<Vec<Vec<(String, String)>>>,
        ColonnadeError,
    >)
        requires
            old(self)@.measurable(table_texts(table@)),
        ensures
            old(self)@.macerates(table_texts(table@), final(self)@, r),
    {
        let owned = match self.lay_out(table) {
            Ok(owned) => owned,
            Err(e) => { return Err(e); },
        };
        let ghost goal = self@.composed(table_texts(table@));
        let mut buffer: Vec<Vec<Vec<(String, String)>>> = Vec::new();
        let mut i: usize = 0;
        assert(rows_view(buffer@) =~= goal.take(0));
        while i < owned.len()
            invariant
                i <= owned.len(),
                goal == compose(
                    self@.columns,
                    self@.spaces_between_rows,
                    table_texts(owned@),
                ),
                rectangular(measures(table_texts(owned@)), self@.columns.len()),
                rows_view(buffer@) == goal.take(i as int),
            decreases owned.len() - i,
        {
            assert(measures(table_texts(owned@))[i as int].len() == owned@[i as int]@.len());
            assert(table_texts(owned@)[i as int] == texts(owned@[i as int]@));
            let ghost so_far = rows_view(buffer@);
            self.add_row(&mut buffer, &owned[i], i + 1 == owned.len());
            assert(so_far.push(goal[i as int]) =~= goal.take(i + 1));
            i += 1;
        }
        assert(goal.take(i as int) =~= goal);
        Ok(buffer)
    }

    /// All lines of all rows as plain text: the pairs of each line one after
    /// the other, and the empty string for a line that separates rows.
    pub fn reconstitute_rows(maceration: &Vec<Vec<Vec<(String, String)>>>) -> (lines: Vec<String>)
        ensures
            texts(lines@) == flatten(rows_view(maceration@)),
    {
        flatten_rows(maceration)
    }

    /// Converts the raw data in `table` into a list of strings representing
    /// the data in tabular form: one string for each line, blank lines between
    /// rows included.
    ///
    /// The widths of the columns are resolved first, if they are not yet.
    pub fn tabulate(&mut self, table: &Vec<Vec<String>>) -> (r: Result<Vec<String>, ColonnadeError>)
        requires
            old(self)@.measurable(table_texts(table@)),
        ensures
            old(self)@.tabulates(table_texts(table@), final(self)@, r),
    {
        match self.macerate(table) {
            Ok(buffer) => Ok(Colonnade::reconstitute_rows(&buffer)),
            Err(e) => Err(e),
        }
    }
}

impl Colonnade {
    /// As [`Colonnade::lay_out`], for any table: where the table cannot be laid
    /// out in numbers of machine size, nothing is done and nothing returned.
    pub fn try_lay_out(&mut self, table: &Vec<Vec<String>>) -> (r: Option<
        Result<Vec<Vec<String>>, ColonnadeError>,
    >)
        ensures
            match r {
                Some(result) => {
                    &&& old(self)@.measurable(table_texts(table@))
                    &&& old(self)@.lays_out(table_texts(table@), final(self)@, result)
                },
                None => !old(self)@.measurable(table_texts(table@)) && final(self)@ == old(self)@,
            },
    {
        if !self.measurable(table) {
            return None;
        }
        Some(self.lay_out(table))
    }

    /// As [`Colonnade::macerate`], for any table: where the table cannot be
    /// laid out in numbers of machine size, nothing is done and nothing
    /// returned.
    pub fn try_macerate(&mut self, table: &Vec<Vec<String>>) -> (r: Option<
        Result<Vec<Vec<Vec<(String, String)>>>, ColonnadeError>,
    >)
        ensures
            match r {
                Some(result) => {
                    &&& old(self)@.measurable(table_texts(table@))
                    &&& old(self)@.macerates(table_texts(table@), final(self)@, result)
                },
                None => !old(self)@.measurable(table_texts(table@)) && final(self)@ == old(self)@,
            },
    {
        if !self.measurable(table) {
            return None;
        }
        Some(self.macerate(table))
    }

    /// As [`Colonnade::tabulate`], for any table: where the table cannot be
    /// laid out in numbers of machine size, nothing is done and nothing
    /// returned.
    pub fn try_tabulate(&mut self, table: &Vec<Vec<String>>) -> (r: Option<
        Result<Vec<String>, ColonnadeError>,
    >)
        ensures
            match r {
                Some(result) => {
                    &&& old(self)@.measurable(table_texts(table@))
                    &&& old(self)@.tabulates(table_texts(table@), final(self)@, result)
                },
                None => !old(self)@.measurable(table_texts(table@)) && final(self)@ == old(self)@,
            },
    {
        if !self.measurable(table) {
            return None;
        }
        Some(self.tabulate(table))
    }
}

/// Makes the change to the columns one after the other, up to the first that
/// refuses it; returns the error of that column, if there is one.
pub fn set_each(cols: &mut Vec<Column>, choice: Choice) -> (r: Option<ColonnadeError>)
    ensures
        models(final(cols)@) == each_before(
            models(old(cols)@),
            choice@,
            first_refusing(models(old(cols)@), choice@, 0),
        ),
        match r {
            None => {
                &&& first_refusing(models(old(cols)@), choice@, 0) == old(cols)@.len()
                &&& models(final(cols)@) == each(models(old(cols)@), choice@)
            },
            Some(e) => {
                &&& first_refusing(models(old(cols)@), choice@, 0) < old(cols)@.len()
                &&& e == ColonnadeError::MinGreaterThanMax(
                    models(old(cols)@)[first_refusing(models(old(cols)@), choice@, 0)].index as usize,
                )
            },
        },
        !may_be_refused(choice@) ==> r is None,
{
    let ghost base = models(cols@);
    let n: usize = cols.len();
    let mut i: usize = 0;
    while i < n
        invariant
            i <= n,
            n == cols@.len(),
            n == base.len(),
            base == models(old(cols)@),
            first_refusing(base, choice@, 0) == first_refusing(base, choice@, i as int),
            forall|c: int| 0 <= c < i ==> (#[trigger] cols@[c])@ == base[c].with(choice@),
            forall|c: int| i <= c < n ==> (#[trigger] cols@[c])@ == base[c],
        decreases n - i,
    {
        assert(cols@[i as int]@ == base[i as int]);
        match cols[i].apply(choice) {
            Err(e) => {
                assert(base[i as int].refuses(choice@));
                assert(first_refusing(base, choice@, i as int) == i);
                assert(models(cols@) =~= each_before(base, choice@, i as int));
                proof {
                    if !may_be_refused(choice@) {
                        lemma_none_refusing(base, choice@, 0);
                    }
                }
                return Some(e);
            },
            Ok(()) => {},
        }
        i += 1;
    }
    assert(models(cols@) =~= each_before(base, choice@, n as int));
    assert(models(cols@) =~= each(base, choice@));
    None
}

impl Colonnade {
    /// Specify a number of blank lines to insert between table rows.
    pub fn spaces_between_rows(&mut self, n: usize) -> (r: &mut Self)
        ensures
            r@ == (ColonnadeModel { spaces_between_rows: n as nat, ..old(self)@ }),
            *final(self) == *final(r),
    {
        self.frame.spaces_between_rows = n;
        self
    }

    /// Assign the same priority to all columns. By default, all columns have
    /// the lowest priority.
    ///
    /// Priority determines the order in which columns give up space when the
    /// viewport lacks sufficient space to display all columns without
    /// wrapping. Lower priority columns give up space first. Lower numbers
    /// confer higher priority; 0 is the highest priority.
    pub fn priority(&mut self, priority: usize) -> (r: &mut Self)
        ensures
            r@ == old(self)@.with_columns(
                each(old(self)@.columns, Setting::Priority(priority as nat)),
            ),
            *final(self) == *final(r),
    {
        let _ = set_each(&mut self.columns, Choice::Priority(priority));
        self
    }

    /// Assign the same maximum width to all columns. By default columns have
    /// no maximum width.
    ///
    /// The first column whose minimum width is above `max_width` refuses it:
    /// the columns before it have the maximum width then, that column and
    /// those after it stay as they were.
    pub fn max_width(&mut self, max_width: usize) -> (r: Result<&mut Self, ColonnadeError>)
        ensures
            match r {
                Ok(t) => {
                    &&& first_refusing(
                        old(self)@.columns,
                        Setting::MaxWidth(max_width as nat),
                        0,
                    ) == old(self)@.columns.len()
                    &&& t@ == old(self)@.with_columns(
                        each(old(self)@.columns, Setting::MaxWidth(max_width as nat)),
                    )
                    &&& *final(self) == *final(t)
                },
                Err(e) => {
                    let k = first_refusing(
                        old(self)@.columns,
                        Setting::MaxWidth(max_width as nat),
                        0,
                    );
                    &&& k < old(self)@.columns.len()
                    &&& e == ColonnadeError::MinGreaterThanMax(old(self)@.columns[k].index as usize)
                    &&& final(self)@ == old(self)@.with_columns(
                        each_before(old(self)@.columns, Setting::MaxWidth(max_width as nat), k),
                    )
                },
            },
    {
        match set_each(&mut self.columns, Choice::MaxWidth(max_width)) {
            Some(e) => Err(e),
            None => Ok(self),
        }
    }

    /// Assign the same minimum width to all columns, which also becomes their
    /// current width. By default columns have no minimum width.
    ///
    /// The first column whose maximum width is below `min_width` refuses it:
    /// the columns before it have the minimum width then, that column and
    /// those after it stay as they were. Where all columns have it and the
    /// least that they need is more than the viewport, this is reported, and
    /// the columns keep the minimum width all the same.
    pub fn min_width(&mut self, min_width: usize) -> (r: Result<&mut Self, ColonnadeError>)
        ensures
            match r {
                Ok(t) => {
                    &&& first_refusing(
                        old(self)@.columns,
                        Setting::MinWidth(min_width as nat),
                        0,
                    ) == old(self)@.columns.len()
                    &&& t@ == old(self)@.with_columns(
                        each(old(self)@.columns, Setting::MinWidth(min_width as nat)),
                    )
                    &&& t@.sufficient_space()
                    &&& *final(self) == *final(t)
                },
                Err(e) => {
                    let k = first_refusing(
                        old(self)@.columns,
                        Setting::MinWidth(min_width as nat),
                        0,
                    );
                    &&& final(self)@ == old(self)@.with_columns(
                        each_before(old(self)@.columns, Setting::MinWidth(min_width as nat), k),
                    )
                    &&& if k < old(self)@.columns.len() {
                        e == ColonnadeError::MinGreaterThanMax(old(self)@.columns[k].index as usize)
                    } else {
                        e == ColonnadeError::InsufficientSpace && !final(self)@.sufficient_space()
                    }
                },
            },
    {
        match set_each(&mut self.columns, Choice::MinWidth(min_width)) {
            Some(e) => { return Err(e); },
            None => {},
        }
        assert(each(old(self)@.columns, Setting::MinWidth(min_width as nat)) =~= each_before(
            old(self)@.columns,
            Setting::MinWidth(min_width as nat),
            old(self)@.columns.len() as int,
        ));
        if !self.sufficient_space() {
            Err(ColonnadeError::InsufficientSpace)
        } else {
            Ok(self)
        }
    }

    /// Assign the same maximum and minimum width to all columns, in place of
    /// any bounds they had. This cannot fail.
    pub fn fixed_width(&mut self, width: usize) -> (r: Result<&mut Self, ColonnadeError>)
        ensures
            r is Ok,
            r->Ok_0@ == old(self)@.with_columns(
                each(old(self)@.columns, Setting::FixedWidth(width as nat)),
            ),
            *final(self) == *final(r->Ok_0),
    {
        match set_each(&mut self.columns, Choice::FixedWidth(width)) {
            Some(e) => Err(e),
            None => Ok(self),
        }
    }

    /// Remove any maximum or minimum column widths.
    pub fn clear_limits(&mut self) -> (r: &mut Self)
        ensures
            r@ == old(self)@.with_columns(each(old(self)@.columns, Setting::NoLimits)),
            *final(self) == *final(r),
    {
        let _ = set_each(&mut self.columns, Choice::NoLimits);
        self
    }

    /// Assign all columns the same alignment. The default alignment is left.
    pub fn alignment(&mut self, alignment: Alignment) -> (r: &mut Self)
        ensures
            r@ == old(self)@.with_columns(each(old(self)@.columns, Setting::Align(alignment))),
            *final(self) == *final(r),
    {
        let _ = set_each(&mut self.columns, Choice::Align(alignment));
        self
    }

    /// Assign all columns the same vertical alignment. The default alignment
    /// is top.
    pub fn vertical_alignment(&mut self, vertical_alignment: VerticalAlignment) -> (r: &mut Self)
        ensures
            r@ == old(self)@.with_columns(
                each(old(self)@.columns, Setting::AlignVertically(vertical_alignment)),
            ),
            *final(self) == *final(r),
    {
        let _ = set_each(&mut self.columns, Choice::AlignVertically(vertical_alignment));
        self
    }

    /// Assign all columns the same left margin. The left margin is a number of
    /// blank spaces before the content of the column. By default the first
    /// column has a left margin of 0 and the other columns have a left margin
    /// of 1.
    ///
    /// Where the least that the columns need is then more than the viewport,
    /// this is reported, and the columns keep the margin all the same.
    pub fn left_margin(&mut self, left_margin: usize) -> (r: Result<&mut Self, ColonnadeError>)
        ensures
            old(self)@.after(Setting::LeftMargin(left_margin as nat), r),
            r is Ok ==> *final(self) == *final(r->Ok_0),
            r is Err ==> final(self)@ == old(self)@.with_columns(
                each(old(self)@.columns, Setting::LeftMargin(left_margin as nat)),
            ),
    {
        let _ = set_each(&mut self.columns, Choice::LeftMargin(left_margin));
        if !self.sufficient_space() {
            Err(ColonnadeError::InsufficientSpace)
        } else {
            Ok(self)
        }
    }

    /// Assign all columns the same padding on all four sides.
    ///
    /// Where the least that the columns need is more than the viewport, this
    /// is reported, and the columns keep the padding all the same.
    pub fn padding(&mut self, padding: usize) -> (r: Result<&mut Self, ColonnadeError>)
        ensures
            old(self)@.after(Setting::Padding(padding as nat), r),
            r is Ok ==> *final(self) == *final(r->Ok_0),
            r is Err ==> final(self)@ == old(self)@.with_columns(
                each(old(self)@.columns, Setting::Padding(padding as nat)),
            ),
    {
        let _ = set_each(&mut self.columns, Choice::Padding(padding));
        if !self.sufficient_space() {
            Err(ColonnadeError::InsufficientSpace)
        } else {
            Ok(self)
        }
    }

    /// Assign all columns the same horizontal padding: space before and after
    /// the column's text.
    ///
    /// Where the least that the columns need is more than the viewport, this
    /// is reported, and the columns keep the padding all the same.
    pub fn padding_horizontal(&mut self, padding: usize) -> (r: Result<&mut Self, ColonnadeError>)
        ensures
            old(self)@.after(Setting::PaddingHorizontal(padding as nat), r),
            r is Ok ==> *final(self) == *final(r->Ok_0),
            r is Err ==> final(self)@ == old(self)@.with_columns(
                each(old(self)@.columns, Setting::PaddingHorizontal(padding as nat)),
            ),
    {
        let _ = set_each(&mut self.columns, Choice::PaddingHorizontal(padding));
        if !self.sufficient_space() {
            Err(ColonnadeError::InsufficientSpace)
        } else {
            Ok(self)
        }
    }

    /// Assign all columns the same left padding: space before the column's
    /// text.
    ///
    /// Where the least that the columns need is more than the viewport, this
    /// is reported, and the columns keep the padding all the same.
    pub fn padding_left(&mut self, padding: usize) -> (r: Result<&mut Self, ColonnadeError>)
        ensures
            old(self)@.after(Setting::PaddingLeft(padding as nat), r),
            r is Ok ==> *final(self) == *final(r->Ok_0),
            r is Err ==> final(self)@ == old(self)@.with_columns(
                each(old(self)@.columns, Setting::PaddingLeft(padding as nat)),
            ),
    {
        let _ = set_each(&mut self.columns, Choice::PaddingLeft(padding));
        if !self.sufficient_space() {
            Err(ColonnadeError::InsufficientSpace)
        } else {
            Ok(self)
        }
    }

    /// Assign all columns the same right padding: space after the column's
    /// text.
    ///
    /// Where the least that the columns need is more than the viewport, this
    /// is reported, and the columns keep the padding all the same.
    pub fn padding_right(&mut self, padding: usize) -> (r: Result<&mut Self, ColonnadeError>)
        ensures
            old(self)@.after(Setting::PaddingRight(padding as nat), r),
            r is Ok ==> *final(self) == *final(r->Ok_0),
            r is Err ==> final(self)@ == old(self)@.with_columns(
                each(old(self)@.columns, Setting::PaddingRight(padding as nat)),
            ),
    {
        let _ = set_each(&mut self.columns, Choice::PaddingRight(padding));
        if !self.sufficient_space() {
            Err(ColonnadeError::InsufficientSpace)
        } else {
            Ok(self)
        }
    }

    /// Assign all columns the same vertical padding: blank lines before and
    /// after the column's text.
    pub fn padding_vertical(&mut self, padding: usize) -> (r: &mut Self)
        ensures
            r@ == old(self)@.with_columns(
                each(old(self)@.columns, Setting::PaddingVertical(padding as nat)),
            ),
            *final(self) == *final(r),
    {
        let _ = set_each(&mut self.columns, Choice::PaddingVertical(padding));
        self
    }

    /// Assign all columns the same top padding: blank lines before the
    /// column's text.
    pub fn padding_top(&mut self, padding: usize) -> (r: &mut Self)
        ensures
            r@ == old(self)@.with_columns(
                each(old(self)@.columns, Setting::PaddingTop(padding as nat)),
            ),
            *final(self) == *final(r),
    {
        let _ = set_each(&mut self.columns, Choice::PaddingTop(padding));
        self
    }

    /// Assign all columns the same bottom padding: blank lines after the
    /// column's text.
    pub fn padding_bottom(&mut self, padding: usize) -> (r: &mut Self)
        ensures
            r@ == old(self)@.with_columns(
                each(old(self)@.columns, Setting::PaddingBottom(padding as nat)),
            ),
            *final(self) == *final(r),
    {
        let _ = set_each(&mut self.columns, Choice::PaddingBottom(padding));
        self
    }

    /// Toggle whether words too wide to fit in a column are hyphenated when
    /// split. By default this is `true`.
    pub fn hyphenate(&mut self, hyphenate: bool) -> (r: &mut Self)
        ensures
            r@ == old(self)@.with_columns(each(old(self)@.columns, Setting::Hyphenate(hyphenate))),
            *final(self) == *final(r),
    {
        let _ = set_each(&mut self.columns, Choice::Hyphenate(hyphenate));
        self
    }
}

} // verus!
