use colonnade::text::{
    blanks, is_break_char, longest_word, split_at_breaks, width_after_normalization,
};
use colonnade::{Alignment, Colonnade, ColonnadeError, VerticalAlignment};

/// The table that holds the given texts.
fn cells(rows: &[Vec<&str>]) -> Vec<Vec<String>> {
    rows.iter()
        .map(|row| row.iter().map(|cell| cell.to_string()).collect())
        .collect()
}

/// The widths of the columns.
fn widths(colonnade: &Colonnade) -> Vec<usize> {
    colonnade.columns.iter().map(|c| c.width).collect()
}

#[test]
fn no_columns_are_refused() {
    assert_eq!(Colonnade::new(0, 100).err(), Some(ColonnadeError::InsufficientColumns));
}

#[test]
fn too_narrow_a_viewport_is_refused() {
    // three columns need a character each and two margins
    assert_eq!(Colonnade::new(3, 4).err(), Some(ColonnadeError::InsufficientSpace));
    assert!(Colonnade::new(3, 5).is_ok());
}

#[test]
fn width_is_known_once_resolved() {
    let mut colonnade = Colonnade::new(2, 30).unwrap();
    assert_eq!(colonnade.width(), None);
    colonnade.lay_out(&cells(&[vec!["a", "b"]])).unwrap();
    // one character, a margin, and one character
    assert_eq!(colonnade.width(), Some(3));
    assert_eq!(colonnade.viewport(), 30);
    colonnade.columns[0].priority(1);
    assert_eq!(colonnade.width(), None);
}

#[test]
fn the_width_in_use_is_what_the_columns_take() {
    let mut colonnade = Colonnade::new(3, 100).unwrap();
    colonnade.tabulate(&cells(&[vec!["1", "2", "3"], vec!["4", "5", "6"]])).unwrap();
    assert_eq!(colonnade.width(), Some(5));
    // a column that wraps: 14 and 5 with a margin of 1 fill the viewport
    let mut colonnade = Colonnade::new(2, 20).unwrap();
    colonnade.columns[0].priority(0);
    colonnade.tabulate(&cells(&[vec!["a bunch of words", "these are some words"]])).unwrap();
    assert_eq!(colonnade.width(), Some(20));
    // the bounds of a column count, not the width that was written into it
    colonnade.columns[0].max_width(4).unwrap();
    colonnade.lay_out(&cells(&[vec!["abc", "de"]])).unwrap();
    colonnade.columns[0].width = 9;
    assert_eq!(colonnade.width(), Some(4 + 1 + 2));
    // a sum beyond all numbers is no width
    colonnade.columns[1].width = usize::MAX;
    assert_eq!(colonnade.width(), None);
}

#[test]
fn white_space_is_what_unicode_says() {
    let listed = |c: char| {
        let n = c as u32;
        (0x9..=0xd).contains(&n)
            || n == 0x20
            || n == 0x85
            || n == 0xa0
            || n == 0x1680
            || (0x2000..=0x200a).contains(&n)
            || n == 0x2028
            || n == 0x2029
            || n == 0x202f
            || n == 0x205f
            || n == 0x3000
    };
    let mut separators = 0;
    for n in 0..=0x10ffff_u32 {
        if let Some(c) = char::from_u32(n) {
            // every white space separates words, but for the no-break space
            assert_eq!(is_break_char(c), listed(c) && c != '\u{a0}', "{:?}", c);
            if is_break_char(c) {
                separators += 1;
            }
        }
    }
    assert_eq!(separators, 24);
}

#[test]
fn long_rows_are_refused() {
    let mut colonnade = Colonnade::new(2, 30).unwrap();
    let data = cells(&[vec!["a", "b"], vec!["c"], vec!["d", "e", "f"], vec!["1", "2", "3", "4"]]);
    assert_eq!(
        colonnade.tabulate(&data).err(),
        Some(ColonnadeError::InconsistentColumns(2, 3, 2))
    );
    assert_eq!(widths(&colonnade), vec![0, 0]);
    assert_eq!(colonnade.width(), None);
}

#[test]
fn long_rows_are_refused_when_resolved_too() {
    let mut colonnade = Colonnade::new(2, 30).unwrap();
    colonnade.tabulate(&cells(&[vec!["a", "b"]])).unwrap();
    assert_eq!(
        colonnade.tabulate(&cells(&[vec!["a", "b", "c"]])).err(),
        Some(ColonnadeError::InconsistentColumns(0, 3, 2))
    );
    assert_eq!(widths(&colonnade), vec![1, 1]);
}

#[test]
fn resolved_widths_fit_the_viewport() {
    let mut colonnade = Colonnade::new(2, 20).unwrap();
    colonnade.columns[0].priority(0);
    let data = cells(&[vec!["a bunch of words", "these are some words"]]);
    colonnade.lay_out(&data).unwrap();
    // column 1 is wrapped to its longest word, column 0 gets what is left
    assert_eq!(widths(&colonnade), vec![14, 5]);
    assert!(14 + 1 + 5 <= 20);
}

#[test]
fn natural_widths_are_taken_where_they_fit() {
    let mut colonnade = Colonnade::new(3, 40).unwrap();
    let data = cells(&[vec!["  one   two ", "x", ""], vec!["three", "four five", ""]]);
    colonnade.lay_out(&data).unwrap();
    assert_eq!(widths(&colonnade), vec![7, 9, 0]);
}

#[test]
fn widths_are_kept_until_reset() {
    let mut colonnade = Colonnade::new(2, 40).unwrap();
    colonnade.lay_out(&cells(&[vec!["wide text", "more"]])).unwrap();
    assert_eq!(widths(&colonnade), vec![9, 4]);
    // other data, of another shape, and too wide for these widths
    let lines = colonnade
        .tabulate(&cells(&[vec!["a"], vec!["much wider text", "b"], vec![]]))
        .unwrap();
    assert_eq!(widths(&colonnade), vec![9, 4]);
    assert_eq!(lines, vec!["a             ", "much      b   ", "wider         ", "text          ", "              "]);
    colonnade.reset();
    assert_eq!(widths(&colonnade), vec![0, 0]);
    colonnade.lay_out(&cells(&[vec!["a", "b"]])).unwrap();
    assert_eq!(widths(&colonnade), vec![1, 1]);
}

#[test]
fn tabulate_is_macerate_put_together() {
    let data = cells(&[
        vec!["some words to wrap", "x"],
        vec!["", ""],
        vec!["more", "and more words"],
    ]);
    let mut first = Colonnade::new(2, 14).unwrap();
    first.spaces_between_rows(2);
    first.columns[1].alignment(Alignment::Right).padding_left(1);
    let mut second = first.clone();
    let lines = first.tabulate(&data).unwrap();
    let pieces = second.macerate(&data).unwrap();
    assert_eq!(Colonnade::reconstitute_rows(&pieces), lines);
    let mut by_hand = vec![];
    for row in &pieces {
        for line in row {
            if line.len() == 1 && line[0].1.is_empty() {
                // a separating line: all margin, flattened to nothing
                assert_eq!(line[0].0, " ".repeat(14));
                by_hand.push(String::new());
            } else {
                by_hand.push(line.iter().map(|(m, t)| format!("{}{}", m, t)).collect::<String>());
            }
        }
    }
    assert_eq!(by_hand, lines);
    assert_eq!(lines.len(), 4 + 2 + 1 + 2 + 3);
}

#[test]
fn forced_truncation_shares_the_excess() {
    let mut colonnade = Colonnade::new(2, 7).unwrap();
    let lines = colonnade.tabulate(&cells(&[vec!["abcdef", "ghijkl"]])).unwrap();
    assert_eq!(widths(&colonnade), vec![3, 3]);
    assert_eq!(lines, vec!["ab- gh-", "cd- ij-", "ef  kl "]);
}

#[test]
fn forced_truncation_takes_one_from_each_for_a_small_excess() {
    let mut colonnade = Colonnade::new(3, 10).unwrap();
    let lines = colonnade.tabulate(&cells(&[vec!["abc", "def", "ghi"]])).unwrap();
    assert_eq!(widths(&colonnade), vec![2, 2, 2]);
    assert_eq!(lines, vec!["a- d- g-", "bc ef hi"]);
}

#[test]
fn forced_truncation_starts_with_the_least_important() {
    let mut colonnade = Colonnade::new(2, 9).unwrap();
    colonnade.columns[0].priority(0);
    let lines = colonnade.tabulate(&cells(&[vec!["abcdef", "ghijkl"]])).unwrap();
    assert_eq!(widths(&colonnade), vec![6, 2]);
    assert_eq!(lines, vec!["abcdef g-", "       h-", "       i-", "       j-", "       kl"]);
}

#[test]
fn truncation_never_leaves_a_column_empty() {
    let mut colonnade = Colonnade::new(2, 3).unwrap();
    colonnade.columns[0].priority(0);
    colonnade.columns[0].min_width(2).unwrap();
    let result = colonnade.tabulate(&cells(&[vec!["abcd", "efgh"]]));
    // column 1 stops at one character, column 0 at its minimum
    assert_eq!(result.err(), Some(ColonnadeError::InsufficientSpace));
    let mut colonnade = Colonnade::new(2, 4).unwrap();
    colonnade.columns[0].priority(0);
    colonnade.columns[0].min_width(2).unwrap();
    let lines = colonnade.tabulate(&cells(&[vec!["abcd", "efgh"]])).unwrap();
    assert_eq!(widths(&colonnade), vec![2, 1]);
    assert_eq!(lines, vec!["a- e", "b- f", "cd g", "   h"]);
}

#[test]
fn failed_resolution_leaves_the_table_alone() {
    let mut colonnade = Colonnade::new(1, 3).unwrap();
    colonnade.columns[0].padding_left(5);
    colonnade.columns[0].width = 2;
    assert_eq!(
        colonnade.tabulate(&cells(&[vec!["a"]])).err(),
        Some(ColonnadeError::InsufficientSpace)
    );
    assert_eq!(widths(&colonnade), vec![2]);
    assert_eq!(colonnade.width(), None);
}

#[test]
fn minimum_above_maximum_is_refused() {
    let mut colonnade = Colonnade::new(3, 40).unwrap();
    colonnade.columns[1].max_width(4).unwrap();
    assert_eq!(
        colonnade.columns[1].min_width(5).err(),
        Some(ColonnadeError::MinGreaterThanMax(1))
    );
    assert_eq!(colonnade.columns[1].width, 0);
    colonnade.columns[1].min_width(4).unwrap();
    assert_eq!(colonnade.columns[1].width, 4);
    assert_eq!(
        colonnade.columns[1].max_width(3).err(),
        Some(ColonnadeError::MinGreaterThanMax(1))
    );
    // for all columns: those before the one that refuses are changed
    assert_eq!(colonnade.min_width(5).err(), Some(ColonnadeError::MinGreaterThanMax(1)));
    assert_eq!(widths(&colonnade), vec![5, 4, 0]);
    assert_eq!(colonnade.max_width(3).err(), Some(ColonnadeError::MinGreaterThanMax(0)));
    // a fixed width replaces both bounds
    colonnade.fixed_width(2).unwrap();
    assert_eq!(widths(&colonnade), vec![2, 2, 2]);
}

#[test]
fn settings_that_leave_no_space_are_reported_and_kept() {
    let mut colonnade = Colonnade::new(2, 10).unwrap();
    assert_eq!(colonnade.min_width(6).err(), Some(ColonnadeError::InsufficientSpace));
    assert_eq!(widths(&colonnade), vec![6, 6]);
    let mut colonnade = Colonnade::new(2, 10).unwrap();
    assert_eq!(colonnade.left_margin(5).err(), Some(ColonnadeError::InsufficientSpace));
    assert!(colonnade.left_margin(4).is_ok());
    let lines = colonnade.tabulate(&cells(&[vec!["a", "b"]])).unwrap();
    assert_eq!(lines, vec!["    a    b"]);
}

#[test]
fn a_word_is_split_without_hyphen_where_hyphenation_is_off() {
    let mut colonnade = Colonnade::new(1, 3).unwrap();
    colonnade.alignment(Alignment::Right);
    let lines = colonnade.tabulate(&cells(&[vec!["1234"]])).unwrap();
    assert_eq!(lines, vec!["12-", " 34"]);
    colonnade.columns[0].hyphenate(false);
    let lines = colonnade.tabulate(&cells(&[vec!["1234"]])).unwrap();
    assert_eq!(lines, vec!["123", "  4"]);
}

#[test]
fn a_column_narrower_than_its_padding_takes_one_character() {
    let mut colonnade = Colonnade::new(1, 2).unwrap();
    colonnade.columns[0].max_width(2).unwrap();
    colonnade.columns[0].padding_right(2);
    colonnade.lay_out(&cells(&[vec!["ab"]])).unwrap();
    // the inner width is nothing: one character to a line, and no hyphen
    colonnade.columns[0].width = 2;
    let pieces = colonnade.macerate(&cells(&[vec!["ab"]])).unwrap();
    assert_eq!(pieces.len(), 1);
    let texts: Vec<&str> = pieces[0].iter().map(|line| line[0].1.as_str()).collect();
    assert_eq!(texts, vec!["a ", "b "]);
}

#[test]
fn blank_rows_take_one_line_or_the_padding() {
    let mut colonnade = Colonnade::new(2, 20).unwrap();
    let data = cells(&[vec!["ab", "c"], vec!["", " \t "], vec!["d", "e"]]);
    let lines = colonnade.tabulate(&data).unwrap();
    assert_eq!(lines, vec!["ab c", "    ", "d  e"]);
    colonnade.columns[1].padding_vertical(2);
    colonnade.columns[0].padding_top(1);
    let pieces = colonnade.macerate(&cells(&[vec!["", ""]])).unwrap();
    assert_eq!(pieces.len(), 1);
    assert_eq!(pieces[0].len(), 4);
    for line in &pieces[0] {
        assert_eq!(line.len(), 2);
        assert_eq!(line[0], (String::new(), String::from("  ")));
        assert_eq!(line[1], (String::from(" "), String::from(" ")));
    }
}

#[test]
fn centered_text_has_the_smaller_half_on_the_left() {
    let mut colonnade = Colonnade::new(1, 20).unwrap();
    colonnade.alignment(Alignment::Center);
    let lines = colonnade.tabulate(&cells(&[vec!["abcdef"], vec!["abc"], vec!["a"]])).unwrap();
    assert_eq!(lines, vec!["abcdef", " abc  ", "  a   "]);
}

#[test]
fn right_aligned_text_keeps_its_right_padding() {
    let mut colonnade = Colonnade::new(1, 20).unwrap();
    colonnade.alignment(Alignment::Right);
    colonnade.columns[0].padding_right(2).padding_left(1);
    let lines = colonnade.tabulate(&cells(&[vec!["abcdef"], vec!["abc"]])).unwrap();
    assert_eq!(lines, vec![" abcdef  ", "    abc  "]);
}

#[test]
fn text_sinks_by_half_the_blank_lines_below_it() {
    let mut colonnade = Colonnade::new(2, 3).unwrap();
    colonnade.columns[0].vertical_alignment(VerticalAlignment::Middle);
    let lines = colonnade.tabulate(&cells(&[vec!["1", "2 3 4 5"]])).unwrap();
    assert_eq!(lines, vec!["  2", "1 3", "  4", "  5"]);
    colonnade.vertical_alignment(VerticalAlignment::Bottom);
    let lines = colonnade.tabulate(&cells(&[vec!["1", "2 3 4 5"]])).unwrap();
    assert_eq!(lines, vec!["  2", "  3", "  4", "1 5"]);
}

#[test]
fn a_cell_of_padding_alone_has_nothing_to_sink() {
    let mut colonnade = Colonnade::new(2, 10).unwrap();
    colonnade.vertical_alignment(VerticalAlignment::Bottom);
    colonnade.columns[1].padding_bottom(3);
    // the second column is all bottom padding; the first sinks to the last line
    let lines = colonnade.tabulate(&cells(&[vec!["x", ""]])).unwrap();
    assert_eq!(lines, vec!["  ", "  ", "x "]);
}

#[test]
fn separating_lines_are_one_wide_margin() {
    let mut colonnade = Colonnade::new(2, 20).unwrap();
    colonnade.spaces_between_rows(1);
    let pieces = colonnade.macerate(&cells(&[vec!["ab", "c"], vec!["d", "e"]])).unwrap();
    assert_eq!(pieces.len(), 2);
    assert_eq!(pieces[0].len(), 2);
    assert_eq!(pieces[0][1], vec![(String::from("    "), String::new())]);
    assert_eq!(pieces[1].len(), 1);
}

#[test]
fn text_is_measured_in_characters() {
    assert_eq!(longest_word("a bunch of words"), 5);
    assert_eq!(longest_word(" \t\n"), 0);
    assert_eq!(longest_word("bloß ßßßßßß"), 6);
    assert_eq!(width_after_normalization("  a   b  "), 3);
    assert_eq!(width_after_normalization("a\tb\nc"), 5);
    assert_eq!(width_after_normalization(""), 0);
    assert_eq!(width_after_normalization("one\u{00A0}two three"), 13);
    assert_eq!(Colonnade::width_after_normalization(" x  yz "), 4);
}

#[test]
fn strings_are_built_character_by_character() {
    assert_eq!(blanks(3), "   ");
    assert_eq!(blanks(0), "");
}

#[test]
fn every_table_of_ordinary_size_is_measurable() {
    let mut colonnade = Colonnade::new(2, usize::MAX).unwrap();
    assert!(colonnade.measurable(&cells(&[vec!["a", "b"]])));
    colonnade.columns[0].padding_left(usize::MAX);
    assert!(!colonnade.measurable(&cells(&[vec!["a", "b"]])));
    // a table of the wrong shape is refused before anything is measured
    assert!(colonnade.measurable(&cells(&[vec!["a", "b", "c"]])));
}

#[test]
fn words_end_where_a_separator_is_marked() {
    let chars: Vec<char> = "ab cd".chars().collect();
    let words = split_at_breaks(&chars, &vec![false, false, true, false, false]);
    assert_eq!(words, vec![vec!['a', 'b'], vec!['c', 'd']]);
    // the marks decide, not the characters
    let words = split_at_breaks(&chars, &vec![true, false, false, false, true]);
    assert_eq!(words, vec![vec!['b', ' ', 'c']]);
    let words = split_at_breaks(&chars, &vec![true; 5]);
    assert!(words.is_empty());
}

#[test]
fn a_table_beyond_measure_is_left_alone() {
    let mut colonnade = Colonnade::new(2, 20).unwrap();
    colonnade.columns[0].padding_left(usize::MAX).padding_right(1);
    let data = cells(&[vec!["a", "b"]]);
    assert_eq!(colonnade.try_lay_out(&data), None);
    assert_eq!(colonnade.try_macerate(&data), None);
    assert_eq!(colonnade.try_tabulate(&data), None);
    colonnade.columns[0].padding_horizontal(0);
    assert_eq!(colonnade.try_tabulate(&data), Some(Ok(vec![String::from("a b")])));
}

#[test]
fn a_column_beyond_the_table_is_out_of_bounds() {
    let mut colonnade = Colonnade::new(2, 20).unwrap();
    assert_eq!(colonnade.column(2).err(), Some(ColonnadeError::OutOfBounds));
    colonnade.column(1).unwrap().alignment(Alignment::Right).min_width(3).unwrap();
    let lines = colonnade.tabulate(&cells(&[vec!["a", "b"]])).unwrap();
    assert_eq!(lines, vec!["a   b"]);
    assert_eq!(colonnade.column(1).unwrap().current_width(), 3);
}

#[test]
fn a_copy_is_a_table_of_its_own() {
    let mut colonnade = Colonnade::new(2, 20).unwrap();
    colonnade.spaces_between_rows(1);
    let mut copy = colonnade.clone();
    copy.lay_out(&cells(&[vec!["abc", "de"]])).unwrap();
    assert_eq!(widths(&copy), vec![3, 2]);
    assert_eq!(widths(&colonnade), vec![0, 0]);
    assert_eq!(copy.tabulate(&cells(&[vec!["a", "b"], vec!["c", "d"]])).unwrap().len(), 3);
}
