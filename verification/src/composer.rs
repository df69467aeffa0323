use vstd::prelude::*;
use vstd::string::StringExecFns;
use crate::column::{models, Alignment, Column, VerticalAlignment};
use crate::compose::{
    after_line, aligned, all_spent, blank_height, blank_line, compose_row, fill, flat_lines,
    flatten, greatest_vertical_padding, joined, justify, lemma_line_lightens, lemma_trailing_blanks,
    line_of, next_content, pack, repeated, separator, sinking, source_line, spent, start_cells,
    trailing_blanks, weights, wordless, wrap_lines, Cell, Line,
};
use crate::layout::outer_widths;
use crate::sums::{lemma_sum_step, sum};
use crate::text::{
    append_blanks, append_chars, append_many_blanks, blank_chars, lemma_spaces_add, spaces,
    split_words, texts, words_view,
};

verus! {

/// What is left to lay out of one cell of a row.
pub struct Pending {
    pub top: usize,
    pub words: Vec<Vec<char>>,
    pub bottom: usize,
}

impl View for Pending {
    type V = Cell;

    open spec fn view(&self) -> Cell {
        Cell { top: self.top as nat, words: words_view(self.words@), bottom: self.bottom as nat }
    }
}

/// The cells that a list of pending cells stands for.
pub open spec fn cells_view(cells: Seq<Pending>) -> Seq<Cell> {
    Seq::new(cells.len(), |c: int| cells[c]@)
}

/// The line that a list of pairs of strings stands for.
pub open spec fn line_view(line: Seq<(String, String)>) -> Line {
    Seq::new(line.len(), |c: int| (line[c].0@, line[c].1@))
}

/// The lines that a list of lists of pairs of strings stands for.
pub open spec fn lines_view(lines: Seq<Vec<(String, String)>>) -> Seq<Line> {
    Seq::new(lines.len(), |i: int| line_view(lines[i]@))
}

/// Extends the phrase by as many of `words` as fit the column, each after one
/// blank, and takes them from `words`.
pub fn fill_line(col: &Column, phrase: &mut Vec<char>, words: &mut Vec<Vec<char>>)
    ensures
        (final(phrase)@, words_view(final(words)@)) == fill(
            col@,
            old(phrase)@,
            words_view(old(words)@),
        ),
{
    let ghost goal = fill(col@, phrase@, words_view(words@));
    let room: u128 = col.current_width() as u128;
    let after: u128 = col.right_pad() as u128;
    let mut full = false;
    while !full && words.len() > 0
        invariant
            room == col@.width,
            after == col@.padding_right,
            room <= usize::MAX,
            after <= usize::MAX,
            fill(col@, phrase@, words_view(words@)) == goal,
            full ==> goal == (phrase@, words_view(words@)),
        decreases words.len() + if full { 0nat } else { 1nat },
    {
        let ghost before = words_view(words@);
        assert(before[0] == words@[0]@);
        if phrase.len() as u128 + 1 + words[0].len() as u128 + after > room {
            full = true;
        } else {
            let mut word = words.remove(0);
            assert(words_view(words@) =~= before.drop_first());
            let ghost joined = phrase@ + seq![' '] + word@;
            phrase.push(' ');
            phrase.append(&mut word);
            assert(phrase@ =~= joined);
        }
    }
}

/// Takes from `words`, which is not empty, the text of one line of the column,
/// left padding included.
pub fn pack_line(col: &Column, words: &mut Vec<Vec<char>>) -> (phrase: Vec<char>)
    requires
        old(words)@.len() > 0,
    ensures
        (phrase@, words_view(final(words)@)) == pack(col@, words_view(old(words)@)),
{
    let ghost before = words_view(words@);
    assert(before[0] == words@[0]@);
    let mut phrase = blank_chars(col.left_pad());
    let mut word = words.remove(0);
    assert(words_view(words@) =~= before.drop_first());
    let taken: u128 = word.len() as u128 + col.right_pad() as u128;
    let room: u128 = col.current_width() as u128;
    if taken == room {
        phrase.append(&mut word);
    } else if taken > room {
        // the word overflows the column and must be split
        let hyphenating = col.hyphenating();
        let inner: usize = col.inner_width();
        let fit: usize = if hyphenating {
            inner - 1
        } else if inner <= 1 {
            1
        } else {
            inner
        };
        let k: usize = if fit < word.len() { fit } else { word.len() };
        let ghost whole = word@;
        let tail = word.split_off(k);
        assert(word@ =~= whole.take(k as int));
        assert(tail@ =~= whole.skip(k as int));
        phrase.append(&mut word);
        if hyphenating {
            phrase.push('-');
        }
        assert(phrase@ =~= spaces(col@.padding_left) + whole.take(k as int) + if col@.hyphenating() {
            seq!['-']
        } else {
            Seq::<char>::empty()
        });
        if tail.len() > 0 {
            let ghost rest = words_view(words@);
            let ghost left = tail@;
            words.insert(0, tail);
            assert(words_view(words@) =~= seq![left] + rest);
        }
    } else {
        phrase.append(&mut word);
        fill_line(col, &mut phrase, words);
    }
    phrase
}

/// Pads the phrase out to the width of the column according to the column's
/// alignment.
pub fn justify_phrase(col: &Column, phrase: &Vec<char>) -> (line: String)
    ensures
        line@ == justify(col@, phrase@),
{
    let width: usize = col.current_width();
    let mut line = String::new();
    if phrase.len() < width {
        let surplus: usize = width - phrase.len();
        match col.horizontal() {
            Alignment::Left => {
                append_chars(&mut line, phrase);
                append_blanks(&mut line, surplus);
                assert(line@ =~= phrase@ + spaces(surplus as nat));
            },
            Alignment::Center => {
                let left_bit: usize = surplus / 2;
                append_blanks(&mut line, left_bit);
                append_chars(&mut line, phrase);
                append_blanks(&mut line, surplus - left_bit);
                assert(line@ =~= spaces(left_bit as nat) + phrase@ + spaces(
                    (surplus - left_bit) as nat,
                ));
            },
            Alignment::Right => {
                let after: usize = if col.right_pad() < surplus {
                    col.right_pad()
                } else {
                    surplus
                };
                append_blanks(&mut line, surplus - after);
                append_chars(&mut line, phrase);
                append_blanks(&mut line, after);
                assert(line@ =~= spaces((surplus - after) as nat) + phrase@ + spaces(after as nat));
            },
        }
    } else {
        append_chars(&mut line, phrase);
        assert(line@ =~= phrase@);
    }
    line
}

/// Takes from the cell the content of the column on the next line of the row.
pub fn next_fragment(col: &Column, cell: &mut Pending) -> (content: String)
    ensures
        (content@, final(cell)@) == next_content(col@, old(cell)@),
{
    if cell.top > 0 {
        cell.top = cell.top - 1;
        col.blank_line()
    } else if cell.words.len() == 0 {
        // this cell is used up, but there are still words in others
        if cell.bottom > 0 {
            cell.bottom = cell.bottom - 1;
        }
        col.blank_line()
    } else {
        let phrase = pack_line(col, &mut cell.words);
        justify_phrase(col, &phrase)
    }
}

/// Whether nothing is left of any cell.
pub fn every_cell_spent(cells: &Vec<Pending>) -> (b: bool)
    ensures
        b == all_spent(cells_view(cells@)),
{
    let mut c: usize = 0;
    while c < cells.len()
        invariant
            c <= cells.len(),
            forall|j: int| 0 <= j < c ==> spent(#[trigger] cells_view(cells@)[j]),
        decreases cells.len() - c,
    {
        if cells[c].top != 0 || cells[c].bottom != 0 || cells[c].words.len() != 0 {
            assert(!spent(cells_view(cells@)[c as int]));
            return false;
        }
        c += 1;
    }
    true
}

/// Takes the next line of the row from the cells.
pub fn take_line(cols: &Vec<Column>, cells: &mut Vec<Pending>) -> (line: Vec<(String, String)>)
    requires
        old(cells)@.len() == cols@.len(),
    ensures
        line_view(line@) == line_of(models(cols@), cells_view(old(cells)@)),
        cells_view(final(cells)@) == after_line(models(cols@), cells_view(old(cells)@)),
        final(cells)@.len() == cols@.len(),
{
    let ghost base = cells_view(cells@);
    let ghost m = models(cols@);
    let n: usize = cols.len();
    let mut line: Vec<(String, String)> = Vec::new();
    let mut c: usize = 0;
    while c < n
        invariant
            c <= n,
            n == cols@.len(),
            n == cells@.len(),
            n == base.len(),
            m == models(cols@),
            line@.len() == c,
            forall|j: int|
                0 <= j < c ==> (#[trigger] line@[j]).0@ == spaces(m[j].left_margin) && line@[j].1@
                    == next_content(m[j], base[j]).0,
            forall|j: int| 0 <= j < c ==> (#[trigger] cells@[j])@ == next_content(m[j], base[j]).1,
            forall|j: int| c <= j < n ==> (#[trigger] cells@[j])@ == base[j],
        decreases n - c,
    {
        let margin = cols[c].margin();
        let content = next_fragment(&cols[c], &mut cells[c]);
        line.push((margin, content));
        c += 1;
    }
    assert(line_view(line@) =~= line_of(m, base));
    assert(cells_view(cells@) =~= after_line(m, base));
    line
}

/// The lines that the cells of one row take, before vertical alignment.
pub fn wrap_row(cols: &Vec<Column>, cells: Vec<Pending>) -> (lines: Vec<Vec<(String, String)>>)
    requires
        cells@.len() == cols@.len(),
    ensures
        lines_view(lines@) == wrap_lines(models(cols@), cells_view(cells@)),
        forall|i: int| 0 <= i < lines@.len() ==> (#[trigger] lines@[i])@.len() == cols@.len(),
{
    let ghost m = models(cols@);
    let ghost goal = wrap_lines(m, cells_view(cells@));
    let mut left = cells;
    let mut lines: Vec<Vec<(String, String)>> = Vec::new();
    assert(lines_view(lines@) + wrap_lines(m, cells_view(left@)) =~= goal);
    while !every_cell_spent(&left)
        invariant
            m == models(cols@),
            left@.len() == cols@.len(),
            lines_view(lines@) + wrap_lines(m, cells_view(left@)) == goal,
            forall|i: int| 0 <= i < lines@.len() ==> (#[trigger] lines@[i])@.len() == cols@.len(),
        decreases sum(weights(cells_view(left@))),
    {
        let ghost before = cells_view(left@);
        let ghost so_far = lines_view(lines@);
        proof {
            lemma_line_lightens(m, before);
        }
        let line = take_line(cols, &mut left);
        assert(line@.len() == cols@.len()) by {
            assert(line_view(line@).len() == line@.len());
        }
        lines.push(line);
        assert(lines_view(lines@) =~= so_far.push(line_of(m, before)));
        assert(so_far.push(line_of(m, before)) + wrap_lines(m, after_line(m, before)) =~= so_far + (
        seq![line_of(m, before)] + wrap_lines(m, after_line(m, before))));
    }
    assert(lines_view(lines@) + Seq::<Line>::empty() =~= lines_view(lines@));
    lines
}

/// How many lines at the end of the range from `top` to `end` hold only blanks
/// in column `c`, which is the column `col`.
pub fn count_trailing_blanks(
    lines: &Vec<Vec<(String, String)>>,
    col: &Column,
    c: usize,
    top: usize,
    end: usize,
) -> (n: usize)
    requires
        top <= end <= lines@.len(),
        forall|i: int| 0 <= i < lines@.len() ==> c < (#[trigger] lines@[i])@.len(),
    ensures
        n == trailing_blanks(lines_view(lines@), c as int, top as int, end as int, col@.width),
{
    let blank = col.blank_line();
    let ghost all = lines_view(lines@);
    let mut n: usize = 0;
    let mut pointer: usize = end;
    let mut open = true;
    while open && pointer > top
        invariant
            top <= pointer <= end,
            end <= lines@.len(),
            n == end - pointer,
            all == lines_view(lines@),
            blank@ == spaces(col@.width),
            forall|i: int| 0 <= i < lines@.len() ==> c < (#[trigger] lines@[i])@.len(),
            trailing_blanks(all, c as int, top as int, end as int, col@.width) == n + if open {
                trailing_blanks(all, c as int, top as int, pointer as int, col@.width)
            } else {
                0
            },
        decreases pointer + if open { 1nat } else { 0nat },
    {
        assert(all[pointer - 1][c as int].1 == lines@[pointer - 1]@[c as int].1@);
        if same_text(&lines[pointer - 1][c].1, &blank) {
            n += 1;
            pointer -= 1;
        } else {
            open = false;
        }
    }
    n
}

/// Whether two strings hold the same text.
pub fn same_text(a: &String, b: &String) -> (same: bool)
    ensures
        same == (a@ == b@),
{
    *a == *b
}

/// The range of lines in which the text of column `c` may move, and how many
/// lines it sinks there.
pub fn sinking_of(lines: &Vec<Vec<(String, String)>>, col: &Column, c: usize) -> (r: (
    usize,
    usize,
    usize,
))
    requires
        forall|i: int| 0 <= i < lines@.len() ==> c < (#[trigger] lines@[i])@.len(),
    ensures
        (r.0 as int, r.1 as int, r.2 as int) == sinking(col@, lines_view(lines@), c as int),
        r.0 <= r.1 <= lines@.len(),
        r.2 <= r.1 - r.0,
{
    let top: usize = col.top_pad();
    let below: usize = col.bottom_pad();
    let n: usize = lines.len();
    match col.vertical() {
        VerticalAlignment::Top => (0, 0, 0),
        other => {
            if n <= below || n - below <= top {
                return (0, 0, 0);
            }
            let end: usize = n - below;
            let movable: usize = count_trailing_blanks(lines, col, c, top, end);
            proof {
                lemma_trailing_blanks(lines_view(lines@), c as int, top as int, end as int, col@.width);
            }
            if movable == end - top {
                // the cell holds nothing but blank lines, so alignment is irrelevant
                (0, 0, 0)
            } else {
                match other {
                    VerticalAlignment::Middle => (top, end, movable / 2),
                    _ => (top, end, movable),
                }
            }
        },
    }
}

/// A copy of a fragment.
pub fn copy_fragment(fragment: &(String, String)) -> (copy: (String, String))
    ensures
        copy.0@ == fragment.0@,
        copy.1@ == fragment.1@,
{
    (fragment.0.clone(), fragment.1.clone())
}

/// Moves the text of every column down as its vertical alignment asks.
pub fn align_lines(cols: &Vec<Column>, lines: &Vec<Vec<(String, String)>>) -> (r: Vec<
    Vec<(String, String)>,
>)
    requires
        forall|i: int| 0 <= i < lines@.len() ==> (#[trigger] lines@[i])@.len() == cols@.len(),
    ensures
        lines_view(r@) == aligned(models(cols@), lines_view(lines@)),
{
    let ghost m = models(cols@);
    let ghost all = lines_view(lines@);
    let n: usize = cols.len();
    let mut moves: Vec<(usize, usize, usize)> = Vec::new();
    let mut c: usize = 0;
    while c < n
        invariant
            c <= n,
            n == cols@.len(),
            m == models(cols@),
            all == lines_view(lines@),
            moves@.len() == c,
            forall|i: int| 0 <= i < lines@.len() ==> (#[trigger] lines@[i])@.len() == n,
            forall|j: int|
                0 <= j < c ==> {
                    &&& ((#[trigger] moves@[j]).0 as int, moves@[j].1 as int, moves@[j].2 as int)
                        == sinking(m[j], all, j)
                    &&& moves@[j].0 <= moves@[j].1 <= lines@.len()
                    &&& moves@[j].2 <= moves@[j].1 - moves@[j].0
                },
        decreases n - c,
    {
        let r = sinking_of(lines, &cols[c], c);
        moves.push(r);
        c += 1;
    }
    let mut out: Vec<Vec<(String, String)>> = Vec::new();
    let mut i: usize = 0;
    while i < lines.len()
        invariant
            i <= lines@.len(),
            n == cols@.len(),
            m == models(cols@),
            all == lines_view(lines@),
            moves@.len() == n,
            out@.len() == i,
            forall|k: int| 0 <= k < lines@.len() ==> (#[trigger] lines@[k])@.len() == n,
            forall|j: int|
                0 <= j < n ==> {
                    &&& ((#[trigger] moves@[j]).0 as int, moves@[j].1 as int, moves@[j].2 as int)
                        == sinking(m[j], all, j)
                    &&& moves@[j].0 <= moves@[j].1 <= lines@.len()
                    &&& moves@[j].2 <= moves@[j].1 - moves@[j].0
                },
            forall|k: int| 0 <= k < i ==> line_view((#[trigger] out@[k])@) == aligned(m, all)[k],
        decreases lines@.len() - i,
    {
        let mut line: Vec<(String, String)> = Vec::new();
        let mut c: usize = 0;
        while c < n
            invariant
                c <= n,
                i < lines@.len(),
                n == cols@.len(),
                m == models(cols@),
                all == lines_view(lines@),
                moves@.len() == n,
                line@.len() == c,
                forall|k: int| 0 <= k < lines@.len() ==> (#[trigger] lines@[k])@.len() == n,
                forall|j: int|
                    0 <= j < n ==> {
                        &&& ((#[trigger] moves@[j]).0 as int, moves@[j].1 as int, moves@[j].2 as int)
                            == sinking(m[j], all, j)
                        &&& moves@[j].0 <= moves@[j].1 <= lines@.len()
                        &&& moves@[j].2 <= moves@[j].1 - moves@[j].0
                    },
                forall|j: int|
                    0 <= j < c ==> ((#[trigger] line@[j]).0@, line@[j].1@) == all[source_line(
                        m[j],
                        all,
                        j,
                        i as int,
                    )][j],
            decreases n - c,
        {
            let (top, end, shift) = moves[c];
            let source: usize = if top <= i && i < end {
                if i - top >= shift {
                    i - shift
                } else {
                    i + (end - top - shift)
                }
            } else {
                i
            };
            assert(source as int == source_line(m[c as int], all, c as int, i as int));
            assert(all[source as int][c as int] == (
                lines@[source as int]@[c as int].0@,
                lines@[source as int]@[c as int].1@,
            ));
            line.push(copy_fragment(&lines[source][c]));
            c += 1;
        }
        assert(line_view(line@) =~= aligned(m, all)[i as int]);
        out.push(line);
        i += 1;
    }
    assert(lines_view(out@) =~= aligned(m, all));
    out
}

/// The greatest vertical padding among the columns.
pub fn greatest_padding(cols: &Vec<Column>) -> (p: u128)
    ensures
        p == greatest_vertical_padding(models(cols@), cols@.len() as int),
{
    let mut p: u128 = 0;
    let mut c: usize = 0;
    while c < cols.len()
        invariant
            c <= cols.len(),
            p == greatest_vertical_padding(models(cols@), c as int),
        decreases cols.len() - c,
    {
        assert(models(cols@)[c as int] == cols@[c as int]@);
        let padding: u128 = cols[c].vertical_padding();
        if padding > p {
            p = padding;
        }
        c += 1;
    }
    p
}

/// A line on which every column is blank.
pub fn blank_fragments(cols: &Vec<Column>) -> (line: Vec<(String, String)>)
    ensures
        line_view(line@) == blank_line(models(cols@)),
{
    let mut line: Vec<(String, String)> = Vec::new();
    let mut c: usize = 0;
    while c < cols.len()
        invariant
            c <= cols.len(),
            line@.len() == c,
            forall|j: int|
                0 <= j < c ==> (#[trigger] line@[j]).0@ == spaces(cols@[j]@.left_margin)
                    && line@[j].1@ == spaces(cols@[j]@.width),
        decreases cols.len() - c,
    {
        line.push((cols[c].margin(), cols[c].blank_line()));
        c += 1;
    }
    assert(line_view(line@) =~= blank_line(models(cols@)));
    line
}

/// The lines of a row without any text.
pub fn blank_rows(cols: &Vec<Column>) -> (lines: Vec<Vec<(String, String)>>)
    ensures
        lines_view(lines@) == repeated(blank_line(models(cols@)), blank_height(models(cols@))),
{
    let ghost m = models(cols@);
    let mut height: u128 = greatest_padding(cols);
    if height == 0 {
        height = 1;
    }
    let mut lines: Vec<Vec<(String, String)>> = Vec::new();
    while (lines.len() as u128) < height
        invariant
            m == models(cols@),
            height == blank_height(m),
            lines@.len() <= height,
            forall|i: int| 0 <= i < lines@.len() ==> line_view((#[trigger] lines@[i])@) == blank_line(m),
        decreases height - lines@.len(),
    {
        lines.push(blank_fragments(cols));
    }
    assert(lines_view(lines@) =~= repeated(blank_line(m), blank_height(m)));
    lines
}

/// The line that separates two rows: blanks as wide as the table, as a margin
/// with no content.
pub fn separator_line(cols: &Vec<Column>) -> (line: Vec<(String, String)>)
    ensures
        line_view(line@) == separator(models(cols@)),
{
    let ghost outer = outer_widths(models(cols@));
    let mut margin = String::new();
    let mut c: usize = 0;
    assert(margin@ =~= spaces(0));
    assert(outer.take(0) =~= Seq::<nat>::empty());
    while c < cols.len()
        invariant
            c <= cols.len(),
            outer == outer_widths(models(cols@)),
            margin@ == spaces(sum(outer.take(c as int))),
        decreases cols.len() - c,
    {
        let ghost so_far = sum(outer.take(c as int));
        proof {
            lemma_sum_step(outer, c as int);
            assert(models(cols@)[c as int] == cols@[c as int]@);
            lemma_spaces_add(so_far, cols@[c as int]@.left_margin);
            lemma_spaces_add(
                so_far + cols@[c as int]@.left_margin,
                cols@[c as int]@.effective_width(),
            );
        }
        append_blanks(&mut margin, cols[c].margin_width());
        append_many_blanks(&mut margin, cols[c].wide_effective_width());
        c += 1;
    }
    assert(outer.take(c as int) =~= outer);
    let mut line: Vec<(String, String)> = Vec::new();
    line.push((margin, String::new()));
    assert(line_view(line@) =~= separator(models(cols@)));
    line
}

/// The cells of a row before any line is taken from them, and whether none of
/// them holds a word.
pub fn open_cells(cols: &Vec<Column>, row: &Vec<String>) -> (r: (Vec<Pending>, bool))
    requires
        row@.len() == cols@.len(),
    ensures
        cells_view(r.0@) == start_cells(models(cols@), texts(row@)),
        r.1 == wordless(cells_view(r.0@)),
        r.0@.len() == cols@.len(),
{
    let ghost goal = start_cells(models(cols@), texts(row@));
    let mut cells: Vec<Pending> = Vec::new();
    let mut empty = true;
    let mut c: usize = 0;
    while c < cols.len()
        invariant
            c <= cols.len(),
            row@.len() == cols@.len(),
            goal == start_cells(models(cols@), texts(row@)),
            cells@.len() == c,
            forall|j: int| 0 <= j < c ==> (#[trigger] cells@[j])@ == goal[j],
            empty ==> forall|j: int| 0 <= j < c ==> (#[trigger] goal[j]).words.len() == 0,
            !empty ==> exists|j: int| 0 <= j < c && (#[trigger] goal[j]).words.len() > 0,
        decreases cols.len() - c,
    {
        let words = split_words(row[c].as_str());
        if words.len() > 0 {
            empty = false;
        }
        let cell = Pending { top: cols[c].top_pad(), words, bottom: cols[c].bottom_pad() };
        assert(cell@ == goal[c as int]);
        assert(goal[c as int].words.len() == words_view(cell.words@).len());
        cells.push(cell);
        c += 1;
    }
    assert(cells_view(cells@) =~= goal);
    (cells, empty)
}

/// The lines of one row of the table. A row without text gives blank lines;
/// any other row is wrapped and aligned. A row that is not the last is
/// followed by `gap` separating lines.
pub fn compose_one_row(cols: &Vec<Column>, gap: usize, row: &Vec<String>, last_row: bool) -> (lines:
    Vec<Vec<(String, String)>>)
    requires
        row@.len() == cols@.len(),
    ensures
        lines_view(lines@) == compose_row(models(cols@), gap as nat, texts(row@), last_row),
{
    let ghost m = models(cols@);
    let (cells, empty) = open_cells(cols, row);
    let mut lines = if empty {
        blank_rows(cols)
    } else {
        let wrapped = wrap_row(cols, cells);
        align_lines(cols, &wrapped)
    };
    if !last_row {
        let ghost body = lines_view(lines@);
        let mut i: usize = 0;
        assert(lines_view(lines@) =~= body + repeated(separator(m), 0));
        while i < gap
            invariant
                i <= gap,
                m == models(cols@),
                lines_view(lines@) == body + repeated(separator(m), i as nat),
            decreases gap - i,
        {
            let ghost so_far = lines_view(lines@);
            lines.push(separator_line(cols));
            assert(lines_view(lines@) =~= so_far.push(separator(m)));
            assert(so_far.push(separator(m)) =~= body + repeated(separator(m), (i + 1) as nat));
            i += 1;
        }
    }
    lines
}

/// The rows that a list of lists of lines stands for.
pub open spec fn rows_view(rows: Seq<Vec<Vec<(String, String)>>>) -> Seq<Seq<Line>> {
    Seq::new(rows.len(), |r: int| lines_view(rows[r]@))
}

/// The fragments of a line one after the other, as one string.
pub fn join_fragments(line: &Vec<(String, String)>) -> (text: String)
    ensures
        text@ == joined(line_view(line@)),
{
    let ghost all = line_view(line@);
    let mut text = String::new();
    let mut c: usize = 0;
    assert(all.take(0) =~= Seq::<(Seq<char>, Seq<char>)>::empty());
    while c < line.len()
        invariant
            c <= line.len(),
            all == line_view(line@),
            text@ == joined(all.take(c as int)),
        decreases line.len() - c,
    {
        assert(all.take(c + 1).drop_last() =~= all.take(c as int));
        text.append(line[c].0.as_str());
        text.append(line[c].1.as_str());
        c += 1;
    }
    assert(all.take(c as int) =~= all);
    text
}

/// All lines of all rows as plain text: the fragments of each line one after
/// the other, and the empty string for a separating line.
pub fn flatten_rows(rows: &Vec<Vec<Vec<(String, String)>>>) -> (out: Vec<String>)
    ensures
        texts(out@) == flatten(rows_view(rows@)),
{
    let ghost all = rows_view(rows@);
    let mut out: Vec<String> = Vec::new();
    let mut r: usize = 0;
    assert(all.take(0) =~= Seq::<Seq<Line>>::empty());
    assert(texts(out@) =~= flatten(all.take(0)));
    while r < rows.len()
        invariant
            r <= rows.len(),
            all == rows_view(rows@),
            texts(out@) == flatten(all.take(r as int)),
        decreases rows.len() - r,
    {
        let ghost done = texts(out@);
        let ghost these = flat_lines(all[r as int]);
        assert(all.take(r + 1).drop_last() =~= all.take(r as int));
        let mut i: usize = 0;
        assert(texts(out@) =~= done + these.take(0));
        while i < rows[r].len()
            invariant
                i <= rows@[r as int]@.len(),
                r < rows.len(),
                all == rows_view(rows@),
                these == flat_lines(all[r as int]),
                texts(out@) == done + these.take(i as int),
            decreases rows@[r as int]@.len() - i,
        {
            let line = &rows[r][i];
            assert(all[r as int][i as int] == line_view(line@));
            let ghost so_far = texts(out@);
            let text = if line.len() == 1 && line[0].1.as_str().is_empty() {
                // an empty string instead of a fat line for a separating line
                String::new()
            } else {
                join_fragments(line)
            };
            assert(text@ == these[i as int]);
            out.push(text);
            assert(texts(out@) =~= so_far.push(these[i as int]));
            assert(so_far.push(these[i as int]) =~= done + these.take(i + 1));
            i += 1;
        }
        assert(these.take(i as int) =~= these);
        r += 1;
    }
    assert(all.take(r as int) =~= all);
    out
}

} // verus!
