use vstd::prelude::*;
use crate::column::{Alignment, ColumnModel, VerticalAlignment};
use crate::layout::{required_width, Columns};
use crate::sums::{lemma_sum_strict, sum};
use crate::text::{letters, spaces, words_of};

verus! {

/// What is left to lay out of one cell of a row: the blank lines still due
/// above its text, the words still to be placed, and the blank lines still due
/// below.
pub struct Cell {
    pub top: nat,
    pub words: Seq<Seq<char>>,
    pub bottom: nat,
}

/// A left margin and the content of one column on one line.
pub type Fragment = (Seq<char>, Seq<char>);

/// One line of the table: a fragment for each column, or the single fragment
/// of a separating line.
pub type Line = Seq<Fragment>;

/// How many characters of a word that is too long for the column go on the
/// line: as many as fit, with room for a hyphen where one is due, and one at
/// least.
pub open spec fn split_point(col: ColumnModel) -> nat {
    if col.hyphenating() {
        (col.inner_width() - 1) as nat
    } else if col.inner_width() <= 1 {
        1
    } else {
        col.inner_width()
    }
}

/// The phrase extended by as many of `words` as fit the column, each after one
/// blank, and the words that are left.
pub open spec fn fill(col: ColumnModel, phrase: Seq<char>, words: Seq<Seq<char>>) -> (
    Seq<char>,
    Seq<Seq<char>>,
)
    decreases words.len(),
{
    if words.len() == 0 {
        (phrase, words)
    } else if phrase.len() + 1 + words[0].len() + col.padding_right > col.width {
        (phrase, words)
    } else {
        fill(col, phrase + seq![' '] + words[0], words.drop_first())
    }
}

/// The text of one line of a cell, left padding included, and the words that
/// are left for the lines below. `words` is not empty.
///
/// A first word that fills the column stands alone. One that is too long is
/// split, with a hyphen where the column hyphenates, and its rest comes first
/// on the next line. Otherwise the words are packed greedily.
pub open spec fn pack(col: ColumnModel, words: Seq<Seq<char>>) -> (Seq<char>, Seq<Seq<char>>) {
    let lead = spaces(col.padding_left);
    let word = words[0];
    let rest = words.drop_first();
    if word.len() + col.padding_right == col.width {
        (lead + word, rest)
    } else if word.len() + col.padding_right > col.width {
        let k = if split_point(col) < word.len() { split_point(col) as int } else { word.len() as int };
        let head = word.take(k);
        let tail = word.skip(k);
        let mark = if col.hyphenating() { seq!['-'] } else { Seq::<char>::empty() };
        (lead + head + mark, if tail.len() > 0 { seq![tail] + rest } else { rest })
    } else {
        fill(col, lead + word, rest)
    }
}

/// The phrase padded out to the width of the column according to the column's
/// alignment. A phrase that is as wide as the column or wider stays as it is.
pub open spec fn justify(col: ColumnModel, phrase: Seq<char>) -> Seq<char> {
    if phrase.len() < col.width {
        let surplus = (col.width - phrase.len()) as nat;
        match col.alignment {
            Alignment::Left => phrase + spaces(surplus),
            Alignment::Center => spaces(surplus / 2) + phrase + spaces(
                (surplus - surplus / 2) as nat,
            ),
            Alignment::Right => {
                let after = if col.padding_right < surplus { col.padding_right } else { surplus };
                spaces((surplus - after) as nat) + phrase + spaces(after)
            },
        }
    } else {
        phrase
    }
}

/// The content of the column on the next line of the row, and what is then
/// left of the cell.
pub open spec fn next_content(col: ColumnModel, cell: Cell) -> (Seq<char>, Cell) {
    if cell.top > 0 {
        (spaces(col.width), Cell { top: (cell.top - 1) as nat, ..cell })
    } else if cell.words.len() == 0 {
        (
            spaces(col.width),
            Cell { bottom: if cell.bottom > 0 { (cell.bottom - 1) as nat } else { 0 }, ..cell },
        )
    } else {
        let (phrase, rest) = pack(col, cell.words);
        (justify(col, phrase), Cell { words: rest, ..cell })
    }
}

/// Nothing is left of the cell.
pub open spec fn spent(cell: Cell) -> bool {
    cell.top == 0 && cell.bottom == 0 && cell.words.len() == 0
}

/// Nothing is left of any cell.
pub open spec fn all_spent(cells: Seq<Cell>) -> bool {
    forall|c: int| 0 <= c < cells.len() ==> spent(#[trigger] cells[c])
}

/// A number that falls with every line taken from the cell.
pub open spec fn weight(cell: Cell) -> nat {
    cell.top + cell.bottom + letters(cell.words) + cell.words.len()
}

/// The weight of each cell.
pub open spec fn weights(cells: Seq<Cell>) -> Seq<nat> {
    Seq::new(cells.len(), |c: int| weight(cells[c]))
}

/// The next line of the row.
pub open spec fn line_of(cols: Columns, cells: Seq<Cell>) -> Line {
    Seq::new(
        cols.len(),
        |c: int| (spaces(cols[c].left_margin), next_content(cols[c], cells[c]).0),
    )
}

/// What is left of the cells after the next line of the row.
pub open spec fn after_line(cols: Columns, cells: Seq<Cell>) -> Seq<Cell> {
    Seq::new(cols.len(), |c: int| next_content(cols[c], cells[c]).1)
}

/// The lines that the cells of one row take, before vertical alignment: line
/// after line, until nothing is left of any cell.
pub open spec fn wrap_lines(cols: Columns, cells: Seq<Cell>) -> Seq<Line>
    decreases sum(weights(cells)),
    when cells.len() == cols.len()
{
    if all_spent(cells) {
        Seq::empty()
    } else {
        proof {
            lemma_line_lightens(cols, cells);
        }
        seq![line_of(cols, cells)] + wrap_lines(cols, after_line(cols, cells))
    }
}

/// How many lines at the end of the range from `top` to `end` hold only blanks
/// in column `c`.
pub open spec fn trailing_blanks(lines: Seq<Line>, c: int, top: int, end: int, width: nat) -> nat
    decreases end - top,
{
    if end <= top {
        0
    } else if lines[end - 1][c].1 == spaces(width) {
        1 + trailing_blanks(lines, c, top, end - 1, width)
    } else {
        0
    }
}

/// The range of lines in which the text of the column may move, from the first
/// to the second number, and how many lines it sinks there. Text that is
/// aligned to the top does not move, nor does a cell without text.
pub open spec fn sinking(col: ColumnModel, lines: Seq<Line>, c: int) -> (int, int, int) {
    let top = col.padding_top as int;
    let end = lines.len() - col.padding_bottom;
    if col.vertical_alignment == VerticalAlignment::Top || end <= top {
        (0, 0, 0)
    } else {
        let movable = trailing_blanks(lines, c, top, end, col.width) as int;
        if movable == end - top {
            (0, 0, 0)
        } else if col.vertical_alignment == VerticalAlignment::Middle {
            (top, end, movable / 2)
        } else {
            (top, end, movable)
        }
    }
}

/// The line whose fragment of column `c` stands on line `i` once the text of
/// the column has sunk.
pub open spec fn source_line(col: ColumnModel, lines: Seq<Line>, c: int, i: int) -> int {
    let (top, end, shift) = sinking(col, lines, c);
    if top <= i < end {
        if i - top >= shift {
            i - shift
        } else {
            i - shift + (end - top)
        }
    } else {
        i
    }
}

/// The lines of a row with the text of every column moved down as its vertical
/// alignment asks: the blank lines below the text, or half of them, come to
/// stand above it.
pub open spec fn aligned(cols: Columns, lines: Seq<Line>) -> Seq<Line> {
    Seq::new(
        lines.len(),
        |i: int| Seq::new(cols.len(), |c: int| lines[source_line(cols[c], lines, c, i)][c]),
    )
}

/// A line on which every column is blank.
pub open spec fn blank_line(cols: Columns) -> Line {
    Seq::new(cols.len(), |c: int| (spaces(cols[c].left_margin), spaces(cols[c].width)))
}

/// The line that separates two rows: blanks as wide as the table, as a margin
/// with no content.
pub open spec fn separator(cols: Columns) -> Line {
    seq![(spaces(required_width(cols)), Seq::<char>::empty())]
}

/// The line, `k` times.
pub open spec fn repeated(line: Line, k: nat) -> Seq<Line> {
    Seq::new(k, |i: int| line)
}

/// The greatest vertical padding among the first `upto` columns.
pub open spec fn greatest_vertical_padding(cols: Columns, upto: int) -> nat
    decreases upto,
{
    if upto <= 0 {
        0
    } else {
        let rest = greatest_vertical_padding(cols, upto - 1);
        let p = cols[upto - 1].vertical_padding();
        if p > rest { p } else { rest }
    }
}

/// The number of lines that a row without any text takes.
pub open spec fn blank_height(cols: Columns) -> nat {
    let p = greatest_vertical_padding(cols, cols.len() as int);
    if p == 0 { 1 } else { p }
}

/// The cells of a row before any line is taken from them.
pub open spec fn start_cells(cols: Columns, row: Seq<Seq<char>>) -> Seq<Cell> {
    Seq::new(
        cols.len(),
        |c: int|
            Cell {
                top: cols[c].padding_top,
                words: words_of(row[c]),
                bottom: cols[c].padding_bottom,
            },
    )
}

/// No cell holds a word.
pub open spec fn wordless(cells: Seq<Cell>) -> bool {
    forall|c: int| 0 <= c < cells.len() ==> (#[trigger] cells[c]).words.len() == 0
}

/// The lines of one row of the table. A row without text gives blank lines;
/// any other row is wrapped and aligned. A row that is not the last is
/// followed by `gap` separating lines.
pub open spec fn compose_row(cols: Columns, gap: nat, row: Seq<Seq<char>>, last: bool) -> Seq<
    Line,
> {
    let cells = start_cells(cols, row);
    let body = if wordless(cells) {
        repeated(blank_line(cols), blank_height(cols))
    } else {
        aligned(cols, wrap_lines(cols, cells))
    };
    if last {
        body
    } else {
        body + repeated(separator(cols), gap)
    }
}

/// The lines of the table, row by row.
pub open spec fn compose(cols: Columns, gap: nat, table: Seq<Seq<Seq<char>>>) -> Seq<Seq<Line>> {
    Seq::new(table.len(), |r: int| compose_row(cols, gap, table[r], r == table.len() - 1))
}

/// The fragments of a line one after the other.
pub open spec fn joined(line: Line) -> Seq<char>
    decreases line.len(),
{
    if line.len() == 0 {
        Seq::empty()
    } else {
        joined(line.drop_last()) + line.last().0 + line.last().1
    }
}

/// The line as plain text. A line of one fragment without content, as a
/// separating line is, gives the empty text.
pub open spec fn flat(line: Line) -> Seq<char> {
    if line.len() == 1 && line[0].1.len() == 0 {
        Seq::empty()
    } else {
        joined(line)
    }
}

/// Each of the lines as plain text.
pub open spec fn flat_lines(lines: Seq<Line>) -> Seq<Seq<char>> {
    Seq::new(lines.len(), |i: int| flat(lines[i]))
}

/// All lines of all rows as plain text.
pub open spec fn flatten(rows: Seq<Seq<Line>>) -> Seq<Seq<char>>
    decreases rows.len(),
{
    if rows.len() == 0 {
        Seq::empty()
    } else {
        flatten(rows.drop_last()) + flat_lines(rows.last())
    }
}

/// The letters of a list of words, counted from its first word.
pub proof fn lemma_letters_first(words: Seq<Seq<char>>)
    requires
        words.len() > 0,
    ensures
        letters(words) == words[0].len() + letters(words.drop_first()),
    decreases words.len(),
{
    if words.len() == 1 {
        assert(words.drop_last() =~= Seq::<Seq<char>>::empty());
        assert(words.drop_first() =~= Seq::<Seq<char>>::empty());
    } else {
        lemma_letters_first(words.drop_last());
        assert(words.drop_last().drop_first() =~= words.drop_first().drop_last());
    }
}

/// Filling a line takes words from the front and leaves the others as they
/// were.
pub proof fn lemma_fill(col: ColumnModel, phrase: Seq<char>, words: Seq<Seq<char>>)
    ensures
        letters(fill(col, phrase, words).1) + fill(col, phrase, words).1.len() <= letters(words)
            + words.len(),
        fill(col, phrase, words).0.len() >= phrase.len(),
    decreases words.len(),
{
    if words.len() > 0 && !(phrase.len() + 1 + words[0].len() + col.padding_right > col.width) {
        lemma_fill(col, phrase + seq![' '] + words[0], words.drop_first());
        lemma_letters_first(words);
    }
}

/// A line takes something from the words it is packed from.
pub proof fn lemma_pack(col: ColumnModel, words: Seq<Seq<char>>)
    requires
        words.len() > 0,
    ensures
        letters(pack(col, words).1) + pack(col, words).1.len() < letters(words) + words.len(),
{
    let word = words[0];
    let rest = words.drop_first();
    lemma_letters_first(words);
    if word.len() + col.padding_right == col.width {
    } else if word.len() + col.padding_right > col.width {
        let k = if split_point(col) < word.len() { split_point(col) as int } else { word.len() as int };
        let tail = word.skip(k);
        if tail.len() > 0 {
            let left = seq![tail] + rest;
            lemma_letters_first(left);
            assert(left.drop_first() =~= rest);
        }
    } else {
        lemma_fill(col, spaces(col.padding_left) + word, rest);
    }
}

/// A line leaves no cell heavier, and lightens each cell of which something is
/// left.
pub proof fn lemma_next_content(col: ColumnModel, cell: Cell)
    ensures
        weight(next_content(col, cell).1) <= weight(cell),
        !spent(cell) ==> weight(next_content(col, cell).1) < weight(cell),
{
    if cell.top == 0 && cell.words.len() > 0 {
        lemma_pack(col, cell.words);
    }
}

/// A line lightens the cells it is taken from, unless nothing is left of them.
pub proof fn lemma_line_lightens(cols: Columns, cells: Seq<Cell>)
    requires
        cells.len() == cols.len(),
        !all_spent(cells),
    ensures
        sum(weights(after_line(cols, cells))) < sum(weights(cells)),
{
    let next = after_line(cols, cells);
    let k = choose|k: int| 0 <= k < cells.len() && !spent(#[trigger] cells[k]);
    assert forall|c: int| 0 <= c < cells.len() implies weights(next)[c] <= weights(cells)[c] by {
        lemma_next_content(cols[c], cells[c]);
    }
    lemma_next_content(cols[k], cells[k]);
    lemma_sum_strict(weights(next), weights(cells), k);
}

/// Trailing blank lines are no more than the lines of the range.
pub proof fn lemma_trailing_blanks(lines: Seq<Line>, c: int, top: int, end: int, width: nat)
    requires
        top <= end,
    ensures
        trailing_blanks(lines, c, top, end, width) <= end - top,
    decreases end - top,
{
    if end > top {
        lemma_trailing_blanks(lines, c, top, end - 1, width);
    }
}

} // verus!
