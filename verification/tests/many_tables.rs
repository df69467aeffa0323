use colonnade::{Alignment, Colonnade, VerticalAlignment};

/// A small generator of numbers that look random and are the same on every run.
struct Numbers(u64);

impl Numbers {
    fn below(&mut self, n: usize) -> usize {
        self.0 = self.0.wrapping_mul(6364136223846793005).wrapping_add(1442695040888963407);
        ((self.0 >> 33) as usize) % n
    }

    fn text(&mut self) -> String {
        let mut text = String::new();
        for _ in 0..self.below(5) {
            for _ in 0..self.below(3) {
                text.push(' ');
            }
            for _ in 0..(1 + self.below(9)) {
                text.push((b'a' + self.below(26) as u8) as char);
            }
        }
        text
    }

    fn table(&mut self, columns: usize) -> Vec<Vec<String>> {
        let rows = self.below(4);
        (0..rows)
            .map(|_| {
                let cells = if self.below(8) == 0 { self.below(columns + 1) } else { columns };
                (0..cells).map(|_| self.text()).collect()
            })
            .collect()
    }
}

/// What a column was given: its left margin, and the least width that its minimum width and
/// its padding leave it.
struct Given {
    margin: usize,
    least: usize,
}

/// A table of `columns` columns with settings drawn from `numbers`, and what its columns were
/// given.
fn some_table(
    numbers: &mut Numbers,
    columns: usize,
    viewport: usize,
) -> Option<(Colonnade, Vec<Given>)> {
    let mut colonnade = Colonnade::new(columns, viewport).ok()?;
    colonnade.spaces_between_rows(numbers.below(3));
    let mut given = vec![];
    for c in 0..columns {
        let column = &mut colonnade.columns[c];
        let margin = if c == 0 { 0 } else { numbers.below(3) };
        let mut floor = 0;
        column.left_margin(margin).priority(numbers.below(3));
        if numbers.below(3) == 0 {
            floor = numbers.below(3);
            column.padding_right(floor).padding_vertical(numbers.below(2));
        }
        let least = numbers.below(4);
        if numbers.below(3) == 0 {
            column.min_width(least).unwrap();
            floor = floor.max(least);
            if numbers.below(2) == 0 {
                column.max_width(least + 2 + numbers.below(6)).unwrap();
            }
        }
        given.push(Given { margin, least: floor });
        match numbers.below(3) {
            0 => column.alignment(Alignment::Right),
            1 => column.alignment(Alignment::Center),
            _ => column.alignment(Alignment::Left),
        };
        match numbers.below(3) {
            0 => column.vertical_alignment(VerticalAlignment::Middle),
            1 => column.vertical_alignment(VerticalAlignment::Bottom),
            _ => column.vertical_alignment(VerticalAlignment::Top),
        };
    }
    Some((colonnade, given))
}

#[test]
fn what_holds_of_every_table_holds_of_many() {
    let mut numbers = Numbers(20240229);
    let mut resolved = 0;
    let mut wrapped = 0;
    for _ in 0..3000 {
        let columns = 1 + numbers.below(4);
        let viewport = 1 + numbers.below(40);
        let (mut colonnade, given) = match some_table(&mut numbers, columns, viewport) {
            Some(made) => made,
            None => continue,
        };
        let data = numbers.table(columns);
        let mut twin = colonnade.clone();
        let lines = match colonnade.tabulate(&data) {
            Ok(lines) => lines,
            Err(_) => {
                // a table that cannot be resolved stays as it was
                assert_eq!(colonnade.width(), None);
                for (column, before) in colonnade.columns.iter().zip(twin.columns.iter()) {
                    assert_eq!(column.width, before.width);
                }
                continue;
            }
        };
        resolved += 1;
        if lines.len() > data.len() {
            wrapped += 1;
        }
        // the columns fit the viewport with their margins
        let widths: Vec<usize> = colonnade.columns.iter().map(|c| c.width).collect();
        let in_use: usize =
            widths.iter().zip(given.iter()).map(|(w, g)| g.margin + *w.max(&g.least)).sum();
        assert!(in_use <= viewport);
        assert_eq!(colonnade.width(), Some(in_use));
        assert_eq!(colonnade.viewport(), viewport);
        // no line that holds text is wider than the viewport
        for line in &lines {
            assert!(line.chars().count() <= viewport, "{:?} in {}", line, viewport);
        }
        // the pieces put together are the lines
        let pieces = twin.macerate(&data).unwrap();
        assert_eq!(pieces.len(), data.len());
        assert_eq!(Colonnade::reconstitute_rows(&pieces), lines);
        for line in pieces.iter().flatten() {
            if line.len() != 1 || !line[0].1.is_empty() {
                assert_eq!(line.len(), columns);
                for (c, (margin, _)) in line.iter().enumerate() {
                    assert_eq!(margin, &" ".repeat(given[c].margin));
                }
            }
        }
        // the widths stay for other data, and come anew after a reset
        let other = numbers.table(columns);
        colonnade.tabulate(&other).unwrap();
        assert_eq!(colonnade.columns.iter().map(|c| c.width).collect::<Vec<usize>>(), widths);
        colonnade.reset();
        assert_eq!(colonnade.tabulate(&data).unwrap(), lines);
    }
    assert!(resolved > 2000);
    assert!(wrapped > 500);
}
