use colonnade::composer::{align_lines, flatten_rows, wrap_row, Pending};
use colonnade::resolver::{resolve_columns, CellSize};
use colonnade::{Alignment, Column, ColonnadeError, VerticalAlignment};

/// Columns with default values, the first without a margin.
fn columns(n: usize) -> Vec<Column> {
    let mut columns: Vec<Column> = (0..n).map(Column::default).collect();
    columns[0].left_margin(0);
    columns
}

/// A cell whose text is `natural` wide and whose longest word is `longest` long.
fn size(natural: usize, longest: usize) -> CellSize {
    CellSize { natural, longest }
}

/// What is left of a cell that holds the given words and has no padding.
fn pending(words: &[&str]) -> Pending {
    Pending { top: 0, words: words.iter().map(|w| w.chars().collect()).collect(), bottom: 0 }
}

/// The contents of the given column, line by line.
fn contents(lines: &[Vec<(String, String)>], column: usize) -> Vec<String> {
    lines.iter().map(|line| line[column].1.clone()).collect()
}

fn widths(columns: &[Column]) -> Vec<usize> {
    columns.iter().map(|c| c.width).collect()
}

#[test]
fn columns_take_their_natural_widths() {
    let mut cols = columns(3);
    let sizes = vec![vec![size(4, 4), size(0, 0), size(7, 3)], vec![size(9, 2), size(0, 0), size(1, 1)]];
    assert_eq!(resolve_columns(&mut cols, 30, &sizes), Ok(()));
    assert_eq!(widths(&cols), vec![9, 0, 7]);
}

#[test]
fn natural_widths_respect_the_bounds() {
    let mut cols = columns(3);
    cols[0].max_width(5).unwrap();
    cols[1].min_width(4).unwrap();
    cols[2].padding_horizontal(2);
    let sizes = vec![vec![size(8, 8), size(2, 2), size(3, 3)]];
    assert_eq!(resolve_columns(&mut cols, 30, &sizes), Ok(()));
    assert_eq!(widths(&cols), vec![5, 4, 7]);
}

#[test]
fn the_least_important_tier_is_wrapped_first() {
    let mut cols = columns(3);
    cols[0].priority(0);
    cols[1].priority(1);
    cols[2].priority(1);
    let sizes = vec![vec![size(10, 4), size(10, 3), size(10, 5)]];
    // 32 are required and 25 are there: the tier of priority 1 is wrapped, which leaves 5 over
    assert_eq!(resolve_columns(&mut cols, 25, &sizes), Ok(()));
    // 5 is more than the two columns that were wrapped: each gets a share of 2, then one more
    // goes to the first of them
    assert_eq!(widths(&cols), vec![10, 6, 7]);
}

#[test]
fn what_is_left_over_goes_to_the_most_important_column() {
    let mut cols = columns(2);
    cols[0].priority(0);
    let sizes = vec![vec![size(16, 5), size(20, 5)]];
    assert_eq!(resolve_columns(&mut cols, 20, &sizes), Ok(()));
    assert_eq!(widths(&cols), vec![14, 5]);
}

#[test]
fn given_back_space_stops_at_the_maximum_width() {
    let mut cols = columns(2);
    cols[0].max_width(7).unwrap();
    let sizes = vec![vec![size(30, 5), size(30, 5)]];
    // both are wrapped to 5, which leaves 9 over: each gets a share of 4, the first stops at
    // 7, and the 3 that are then left over go to the second
    assert_eq!(resolve_columns(&mut cols, 20, &sizes), Ok(()));
    assert_eq!(widths(&cols), vec![7, 12]);
}

#[test]
fn truncation_goes_tier_by_tier() {
    let mut cols = columns(3);
    cols[0].priority(0);
    cols[1].priority(5);
    cols[2].priority(5);
    let sizes = vec![vec![size(10, 10), size(10, 10), size(10, 10)]];
    // 32 are required, 12 too many: the two columns of priority 5 give up 6 each
    assert_eq!(resolve_columns(&mut cols, 20, &sizes), Ok(()));
    assert_eq!(widths(&cols), vec![10, 4, 4]);
    // with 10, they stop at 1 each, and the first column gives up the rest
    let mut cols = columns(3);
    cols[0].priority(0);
    cols[1].priority(5);
    cols[2].priority(5);
    assert_eq!(resolve_columns(&mut cols, 10, &sizes), Ok(()));
    assert_eq!(widths(&cols), vec![6, 1, 1]);
}

#[test]
fn what_cannot_be_truncated_does_not_fit() {
    let mut cols = columns(2);
    cols[0].padding_horizontal(3);
    let sizes = vec![vec![size(1, 1), size(1, 1)]];
    assert_eq!(resolve_columns(&mut cols, 7, &sizes), Err(ColonnadeError::InsufficientSpace));
    assert_eq!(widths(&cols), vec![0, 0]);
    assert_eq!(resolve_columns(&mut cols, 8, &sizes), Ok(()));
    assert_eq!(widths(&cols), vec![6, 1]);
}

#[test]
fn rows_of_the_wrong_length_are_named() {
    let mut cols = columns(2);
    let sizes = vec![vec![size(1, 1), size(1, 1)], vec![size(1, 1)]];
    assert_eq!(
        resolve_columns(&mut cols, 20, &sizes),
        Err(ColonnadeError::InconsistentColumns(1, 1, 2))
    );
}

#[test]
fn words_are_packed_greedily() {
    let mut cols = columns(1);
    cols[0].width = 9;
    let lines = wrap_row(&cols, vec![pending(&["ab", "cd", "efg", "hijklmnop", "q", "rstuvwxyzabc"])]);
    assert_eq!(
        contents(&lines, 0),
        vec!["ab cd efg", "hijklmnop", "q        ", "rstuvwxy-", "zabc     "]
    );
}

#[test]
fn the_first_word_of_a_line_is_never_put_off() {
    let mut cols = columns(2);
    cols[0].width = 8;
    cols[0].padding_horizontal(2);
    cols[1].width = 4;
    cols[1].alignment(Alignment::Right);
    let lines = wrap_row(&cols, vec![pending(&["ab", "c", "defgh"]), pending(&["x"])]);
    // "defgh" is shorter than the column without its right padding, so it is not split
    assert_eq!(contents(&lines, 0), vec!["  ab c  ", "  defgh "]);
    assert_eq!(contents(&lines, 1), vec!["   x", "    "]);
    assert_eq!(lines[0][0].0, "");
    assert_eq!(lines[0][1].0, " ");
}

#[test]
fn padding_lines_come_before_and_after_the_text() {
    let mut cols = columns(2);
    cols[0].width = 1;
    cols[0].padding_top(1);
    cols[1].width = 1;
    cols[1].padding_bottom(2);
    let left = Pending { top: 1, words: vec![vec!['a'], vec!['b']], bottom: 0 };
    let right = Pending { top: 0, words: vec![vec!['c']], bottom: 2 };
    let lines = wrap_row(&cols, vec![left, right]);
    assert_eq!(contents(&lines, 0), vec![" ", "a", "b"]);
    assert_eq!(contents(&lines, 1), vec!["c", " ", " "]);
}

#[test]
fn text_sinks_within_its_padding() {
    let mut cols = columns(1);
    cols[0].width = 1;
    cols[0].padding_top(1).padding_bottom(1).vertical_alignment(VerticalAlignment::Bottom);
    let line = |text: &str| vec![(String::new(), String::from(text))];
    let lines = vec![line(" "), line("a"), line(" "), line(" "), line(" ")];
    let moved = align_lines(&cols, &lines);
    assert_eq!(contents(&moved, 0), vec![" ", " ", " ", "a", " "]);
    cols[0].vertical_alignment(VerticalAlignment::Middle);
    let moved = align_lines(&cols, &lines);
    assert_eq!(contents(&moved, 0), vec![" ", " ", "a", " ", " "]);
    cols[0].vertical_alignment(VerticalAlignment::Top);
    let moved = align_lines(&cols, &lines);
    assert_eq!(contents(&moved, 0), vec![" ", "a", " ", " ", " "]);
}

#[test]
fn lines_are_flattened_fragment_by_fragment() {
    let pair = |margin: &str, text: &str| (String::from(margin), String::from(text));
    let rows = vec![
        vec![vec![pair("", "ab"), pair(" ", "cd")], vec![pair("     ", "")]],
        vec![vec![pair("  ", ""), pair("", "")], vec![pair("", "x")]],
    ];
    assert_eq!(flatten_rows(&rows), vec!["ab cd", "", "  ", "x"]);
}
