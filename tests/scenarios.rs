use papergrid::spans::{fix_spans, fix_styles};
use papergrid::solver::{cell_height, cell_width, normalized_width};
use papergrid::{
    string_width, strip, AlignmentHorizontal, AlignmentVertical, Border, Borders, Entity, Formatting, Grid,
    Indent, Line, Settings, Span, Symbol,
};

fn grid_with(data: &[&[&str]]) -> Grid {
    let rows = data.len();
    let cols = if rows == 0 { 0 } else { data[0].len() };
    let mut grid = Grid::new(rows, cols);
    for (r, row) in data.iter().enumerate() {
        for (c, text) in row.iter().enumerate() {
            grid.set(Entity::Cell(r, c), Settings::new().text(text));
        }
    }
    grid
}

fn line_widths(s: &str) -> Vec<usize> {
    s.lines().map(string_width).collect()
}

fn assert_lines_same_width(s: &str) {
    let widths = line_widths(s);
    assert!(widths.windows(2).all(|w| w[0] == w[1]), "{:?}\n{}", widths, s);
}

fn spanned_grid() -> Grid {
    let mut grid = grid_with(&[&["0", "1", "2"], &["3", "4", "5"], &["6", "7", "8"]]);
    grid.set(
        Entity::Global,
        Settings::new()
            .padding(Indent::spaced(1), Indent::spaced(1), Indent::default(), Indent::default())
            .alignment(AlignmentHorizontal::Center),
    );
    grid.set(Entity::Cell(0, 1), Settings::new().span(2));
    grid.set(Entity::Cell(2, 0), Settings::new().span(2));
    grid
}

#[test]
fn spans_merge_cells_and_center_content() {
    let grid = spanned_grid();
    assert_eq!(
        grid.render(),
        "+---+---+---+\n| 0 |   1   |\n+---+---+---+\n| 3 | 4 | 5 |\n+---+---+---+\n|   6   | 8 |\n+---+---+---+\n"
    );
}

#[test]
fn spans_without_padding_keep_single_columns_narrow() {
    let mut grid = grid_with(&[&["0", "1", "2"], &["3", "4", "5"], &["6", "7", "8"]]);
    grid.set(Entity::Cell(0, 1), Settings::new().span(2));
    grid.set(Entity::Cell(2, 0), Settings::new().span(2));
    assert_eq!(
        grid.render(),
        "+-+-+-+\n|0|1  |\n+-+-+-+\n|3|4|5|\n+-+-+-+\n|6  |8|\n+-+-+-+\n"
    );
}

#[test]
fn vertical_trim_puts_first_text_line_at_the_top() {
    let mut grid = Grid::new(1, 2);
    grid.set(Entity::Cell(0, 0), Settings::new().text("A long string"));
    grid.set(
        Entity::Cell(0, 1),
        Settings::new().text("\n\n\nA\n    string\nwith\n new\nline\n\n\n\n"),
    );
    grid.set(
        Entity::Global,
        Settings::new()
            .alignment(AlignmentHorizontal::Left)
            .vertical_alignment(AlignmentVertical::Top)
            .formatting(Formatting {
                horizontal_trim: false,
                vertical_trim: true,
                allow_lines_alignement: true,
                tab_width: 4,
            }),
    );
    let mut expected = String::from("+-------------+----------+\n");
    expected.push_str("|A long string|A         |\n");
    expected.push_str("|             |    string|\n");
    expected.push_str("|             |with      |\n");
    expected.push_str("|             | new      |\n");
    expected.push_str("|             |line      |\n");
    for _ in 0..6 {
        expected.push_str("|             |          |\n");
    }
    expected.push_str("+-------------+----------+\n");
    assert_eq!(grid.render(), expected);
}

#[test]
fn split_line_text_overwrites_the_start_of_the_line() {
    let mut grid = grid_with(&[&["0123456789abcd", "0123456789"], &["a", "b"]]);
    grid.override_split_line(0, "-Table");
    let out = grid.render();
    assert_eq!(out.lines().next().unwrap(), "-Table---------+----------+");
    assert!(out.starts_with("-Table---------+----------+\n"));
}

#[test]
fn split_line_text_is_cut_to_the_table_width() {
    let mut grid = grid_with(&[&["ab"]]);
    grid.override_split_line(0, "0123456789");
    let out = grid.render();
    assert_eq!(out.lines().next().unwrap(), "0123");
    assert_lines_same_width(&out);
}

fn psql_grid(rows: usize) -> Grid {
    let mut grid = Grid::new(rows, 2);
    grid.set(Entity::Cell(0, 0), Settings::new().text("id"));
    grid.set(Entity::Cell(0, 1), Settings::new().text("name"));
    for r in 1..rows {
        grid.set(Entity::Cell(r, 0), Settings::new().text(&r.to_string()));
        grid.set(Entity::Cell(r, 1), Settings::new().text("x"));
    }
    let mut borders = Borders::default();
    borders.vertical_intersection = Some(Symbol::from_char('|'));
    grid.set_borders(borders);
    grid.set_split_line(
        1,
        Line {
            horizontal: Some(Symbol::from_char('-')),
            intersection: Some(Symbol::from_char('+')),
            left: None,
            right: None,
        },
    );
    grid
}

fn count_split_lines(s: &str) -> usize {
    s.lines()
        .filter(|l| !l.is_empty() && l.chars().all(|c| c == '-' || c == '+'))
        .count()
}

#[test]
fn psql_like_theme_draws_only_the_header_separator() {
    let grid = psql_grid(3);
    assert_eq!(grid.render(), "id|name\n--+----\n1 |x   \n2 |x   \n");
    let counts: Vec<usize> = (2..7).map(|n| count_split_lines(&psql_grid(n).render())).collect();
    assert!(counts.iter().all(|c| *c == counts[0]));
}

#[test]
fn empty_dimensions_render_nothing() {
    assert_eq!(Grid::new(0, 0).render(), "");
    assert_eq!(Grid::new(3, 0).render(), "");
    assert_eq!(Grid::new(0, 3).render(), "");
    assert_eq!(Grid::new(0, 3).total_width(), 0);
}

#[test]
fn long_multiline_cell_adapts_width_and_height() {
    let grid = grid_with(&[&["a", "first line\nsecond\nthe longest line of all"], &["b", "c"]]);
    assert_eq!(
        grid.render(),
        "+-+-----------------------+\n|a|first line             |\n| |second                 |\n| |the longest line of all|\n+-+-----------------------+\n|b|c                      |\n+-+-----------------------+\n"
    );
}

#[test]
fn span_past_the_last_column_is_clamped() {
    let mut wide = grid_with(&[&["a", "b"], &["c", "d"]]);
    wide.set(Entity::Cell(0, 1), Settings::new().span(5));
    let plain = grid_with(&[&["a", "b"], &["c", "d"]]);
    assert_eq!(wide.render(), plain.render());
    let (_, styles) = wide.build_widths();
    assert_eq!(styles[0][1].span, 1);
    let mut three = grid_with(&[&["a", "b", "c"]]);
    three.set(Entity::Cell(0, 1), Settings::new().span(5));
    let (_, styles) = three.build_widths();
    assert_eq!(styles[0][1].span, 2);
    assert_eq!(styles[0][2].span, 0);
}

#[test]
fn horizontal_trim_sides_depend_on_lines_alignment() {
    let mut both = Grid::new(1, 1);
    both.set(Entity::Cell(0, 0), Settings::new().text("  ab  \n c"));
    let mut trailing = Grid::new(1, 1);
    trailing.set(Entity::Cell(0, 0), Settings::new().text("  ab  \n c"));
    both.set(
        Entity::Global,
        Settings::new().formatting(Formatting {
            horizontal_trim: true,
            vertical_trim: false,
            allow_lines_alignement: true,
            tab_width: 4,
        }),
    );
    trailing.set(
        Entity::Global,
        Settings::new().formatting(Formatting {
            horizontal_trim: true,
            vertical_trim: false,
            allow_lines_alignement: false,
            tab_width: 4,
        }),
    );
    assert_eq!(both.render(), "+------+\n|ab    |\n|c     |\n+------+\n");
    assert_eq!(trailing.render(), "+------+\n|  ab  |\n| c    |\n+------+\n");
}

#[test]
fn tab_width_applies_when_rendering() {
    let mut grid = Grid::new(1, 1);
    grid.set(Entity::Cell(0, 0), Settings::new().text("a\tb"));
    grid.set(
        Entity::Global,
        Settings::new().formatting(Formatting {
            horizontal_trim: false,
            vertical_trim: false,
            allow_lines_alignement: false,
            tab_width: 2,
        }),
    );
    assert_eq!(grid.render(), "+----+\n|a  b|\n+----+\n");
}

fn sample_grids() -> Vec<Grid> {
    let mut grids = vec![spanned_grid(), psql_grid(4)];
    let mut g = grid_with(&[&["Rust 💕", "x"], &["🎩", "multi\nline"]]);
    g.set(
        Entity::Column(1),
        Settings::new().padding(Indent::new(2, '.'), Indent::spaced(1), Indent::spaced(1), Indent::default()),
    );
    g.set(Entity::Row(1), Settings::new().alignment(AlignmentHorizontal::Right));
    g.set(Entity::Cell(0, 0), Settings::new().border(Border::filled(Symbol::from_char('#'))));
    grids.push(g);
    let mut m = grid_with(&[&["a", "b", "c"], &["d", "e", "f"]]);
    m.margin(papergrid::Margin {
        top: Indent::new(1, '^'),
        bottom: Indent::new(1, 'v'),
        left: Indent::new(2, '<'),
        right: Indent::new(1, '>'),
    });
    grids.push(m);
    grids
}

#[test]
fn every_rendered_line_has_the_same_width() {
    for g in sample_grids() {
        assert_lines_same_width(&g.render());
    }
}

#[test]
fn total_width_is_the_width_of_the_first_line() {
    for g in sample_grids() {
        let out = g.render();
        assert_eq!(g.total_width(), string_width(out.lines().next().unwrap()), "{}", out);
    }
}

#[test]
fn setting_a_cell_to_its_own_settings_changes_nothing() {
    for g in sample_grids() {
        let before = g.render();
        for r in 0..g.count_rows() {
            for c in 0..g.count_columns() {
                let mut copy = sample_grids()
                    .into_iter()
                    .find(|x| x.render() == before)
                    .unwrap();
                let settings = copy.get_settings(r, c);
                copy.set(Entity::Cell(r, c), settings);
                assert_eq!(copy.render(), before);
            }
        }
    }
}

#[test]
fn applying_a_set_twice_equals_applying_it_once() {
    let settings = || {
        Settings::new()
            .text("z")
            .span(2)
            .alignment(AlignmentHorizontal::Right)
            .border(Border::filled(Symbol::from_char('*')))
    };
    let mut once = grid_with(&[&["a", "b", "c"], &["d", "e", "f"]]);
    once.set(Entity::Row(1), settings());
    let mut twice = grid_with(&[&["a", "b", "c"], &["d", "e", "f"]]);
    twice.set(Entity::Row(1), settings());
    twice.set(Entity::Row(1), settings());
    assert_eq!(once.render(), twice.render());
    assert_eq!(once.style(Entity::Cell(1, 0)), twice.style(Entity::Cell(1, 0)));
}

#[test]
fn extracting_the_whole_grid_renders_the_same() {
    let g = spanned_grid();
    let e = g.extract(0..3, 0..3);
    assert_eq!(e.render(), g.render());
    let part = grid_with(&[&["0-0", "0-1", "0-2"], &["1-0", "1-1", "1-2"], &["2-0", "2-1", "2-2"]]).extract(0..3, 0..1);
    assert_eq!(part.render(), "+---+\n|0-0|\n+---+\n|1-0|\n+---+\n|2-0|\n+---+\n");
}

#[test]
fn symbols_must_be_one_column_wide() {
    assert!(Symbol::ansi("ab".to_owned()).is_none());
    assert!(Symbol::ansi("".to_owned()).is_none());
    assert_eq!(Symbol::ansi("x".to_owned()), Some(Symbol::from_char('x')));
    assert!(Symbol::ansi("🎩".to_owned()).is_none());
    assert!(Symbol::ansi("\u{1b}[31mx\u{1b}[0m".to_owned()).is_some());
    assert!(Symbol::ansi("\u{1b}[31m🎩\u{1b}[0m".to_owned()).is_none());
}

#[test]
fn strip_cuts_plain_and_styled_text() {
    assert_eq!(strip("hello", 3), "hel");
    assert_eq!(strip("héllo", 2), "hé");
    assert_eq!(strip("hi", 10), "hi");
    let styled = strip("\u{1b}[31mhello\u{1b}[39m", 100);
    assert!(styled.starts_with("\u{1b}[31mhello"));
    assert_eq!(string_width(&styled), 5);
    assert_eq!(strip("🎩🎩", 3), "🎩");
    let split = strip("a\u{1b}[0m\u{e9}", 1);
    assert!(split.starts_with('a'));
    assert_eq!(string_width(&split), 1);
}

#[test]
fn row_text_and_border_queries() {
    let mut grid = Grid::new(2, 2);
    grid.set(Entity::Row(0), Settings::new().text("row 1"));
    grid.set(Entity::Row(1), Settings::new().text("row 2"));
    assert_eq!(
        grid.render(),
        "+-----+-----+\n|row 1|row 1|\n+-----+-----+\n|row 2|row 2|\n+-----+-----+\n"
    );
    assert_eq!(grid.get_cell_content(1, 0), "row 2");
    let b = grid.get_border(0, 0);
    assert_eq!(b.top, Some(Symbol::from_char('-')));
    assert_eq!(b.left_top_corner, Some(Symbol::from_char('+')));
    let mut span = Span::column(2);
    span.change_cell(&mut grid, 0, 0);
    assert_eq!(grid.style(Entity::Cell(0, 0)).span, 2);
    grid.clear_theme();
    assert_eq!(grid.get_borders().top, Some(Symbol::from_char('-')));
}

#[test]
fn border_builders_set_single_pieces() {
    let b = Border::default().top(Symbol::from_char('a')).bottom_right_corner(Symbol::from_char('z'));
    assert_eq!(b.top, Some(Symbol::from_char('a')));
    assert_eq!(b.right_bottom_corner, Some(Symbol::from_char('z')));
    assert_eq!(b.left, None);
    let full = Border::new(
        Symbol::from_char('t'),
        Symbol::from_char('b'),
        Symbol::from_char('l'),
        Symbol::from_char('r'),
        Symbol::from_char('1'),
        Symbol::from_char('2'),
        Symbol::from_char('3'),
        Symbol::from_char('4'),
    );
    assert_eq!(full.left_top_corner, Some(Symbol::from_char('1')));
    assert_eq!(full.right_top_corner, Some(Symbol::from_char('2')));
    assert_eq!(full.left_bottom_corner, Some(Symbol::from_char('3')));
    assert_eq!(full.right_bottom_corner, Some(Symbol::from_char('4')));
}

#[test]
fn cell_border_override_is_drawn() {
    let mut grid = grid_with(&[&["a", "b"], &["c", "d"]]);
    grid.set(Entity::Cell(0, 0), Settings::new().border(Border::filled(Symbol::from_char('#'))));
    assert_eq!(grid.render(), "###-+\n#a#b|\n###-+\n|c|d|\n+-+-+\n");
}

fn style_with_span(span: usize) -> papergrid::Style {
    let mut st = papergrid::Style::default();
    st.span = span;
    st
}

#[test]
fn split_line_widths_spread_a_spanning_cell_in_turn() {
    let styles = vec![vec![style_with_span(2), style_with_span(0)]];
    assert_eq!(normalized_width(&vec![vec![5, 0]], &styles, 1, 2), vec![2, 2]);
    let styles = vec![vec![style_with_span(2), style_with_span(0), style_with_span(1)]];
    assert_eq!(normalized_width(&vec![vec![6, 0, 1]], &styles, 1, 3), vec![3, 2, 1]);
    let styles = vec![
        vec![style_with_span(2), style_with_span(0)],
        vec![style_with_span(1), style_with_span(1)],
    ];
    assert_eq!(normalized_width(&vec![vec![9, 0], vec![4, 4]], &styles, 2, 2), vec![4, 4]);
}

#[test]
fn cell_sizes_count_padding() {
    let mut st = papergrid::Style::default();
    st.padding.left = Indent::spaced(2);
    st.padding.right = Indent::spaced(1);
    st.padding.top = Indent::spaced(1);
    let lines: Vec<Vec<char>> = vec!["abc".chars().collect(), "🎩".chars().collect()];
    assert_eq!(cell_width(&lines, &st), 6);
    assert_eq!(cell_height(&lines, &st), 3);
    assert_eq!(cell_height(&Vec::new(), &st), 2);
    let mut side = papergrid::Style::default();
    side.padding.left = Indent::spaced(1);
    assert_eq!(cell_height(&Vec::new(), &side), 0);
    assert_eq!(cell_height(&Vec::new(), &papergrid::Style::default()), 0);
}

#[test]
fn span_normalization_is_a_fixed_point() {
    let raw = vec![vec![
        style_with_span(0),
        style_with_span(3),
        style_with_span(1),
        style_with_span(0),
        style_with_span(9),
    ]];
    let mut once = raw.clone();
    let mut cells = vec![vec![0, 1, 2, 3, 4]];
    fix_styles(&mut once);
    fix_spans(&mut once, &mut cells);
    let spans: Vec<usize> = once[0].iter().map(|s| s.span).collect();
    assert_eq!(spans, vec![4, 0, 0, 0, 1]);
    assert_eq!(cells[0], vec![1, 0, 2, 3, 4]);
    let mut twice = once.clone();
    let mut cells2 = cells.clone();
    fix_styles(&mut twice);
    fix_spans(&mut twice, &mut cells2);
    assert_eq!(twice, once);
    assert_eq!(cells2, cells);
}

#[test]
fn corner_builders_and_margin_query() {
    let b = Border::default()
        .top_left_corner(Symbol::from_char('1'))
        .top_right_corner(Symbol::from_char('2'))
        .bottom_left_corner(Symbol::from_char('3'))
        .left(Symbol::from_char('l'))
        .right(Symbol::from_char('r'))
        .bottom(Symbol::from_char('b'));
    assert_eq!(b.left_top_corner, Some(Symbol::from_char('1')));
    assert_eq!(b.right_top_corner, Some(Symbol::from_char('2')));
    assert_eq!(b.left_bottom_corner, Some(Symbol::from_char('3')));
    assert_eq!(b.right_bottom_corner, None);
    let mut grid = Grid::new(1, 1);
    let m = papergrid::Margin {
        top: Indent::new(1, '*'),
        bottom: Indent::default(),
        left: Indent::spaced(2),
        right: Indent::default(),
    };
    grid.margin(m);
    assert_eq!(grid.get_margin().top, Indent::new(1, '*'));
    assert_eq!(grid.render(), "****
  ++
  ++
");
}

#[test]
fn solved_widths_follow_the_longest_lines_and_spans() {
    let mut g = Grid::new(1, 2);
    g.set(Entity::Cell(0, 0), Settings::new().text("A long string"));
    g.set(Entity::Cell(0, 1), Settings::new().text("a\nb\nc"));
    assert_eq!(g.build_widths().0, vec![vec![13, 1]]);
    assert_eq!(
        g.render(),
        "+-------------+-+\n|A long string|a|\n|             |b|\n|             |c|\n+-------------+-+\n"
    );
    let mut s = grid_with(&[&["0", "1", "2"], &["3", "4", "5"], &["6", "7", "8"]]);
    s.set(Entity::Cell(0, 1), Settings::new().span(2));
    s.set(Entity::Cell(2, 0), Settings::new().span(2));
    assert_eq!(s.build_widths().0, vec![vec![1, 3, 0], vec![1, 1, 1], vec![3, 0, 1]]);
}

#[test]
fn top_padding_gives_an_empty_cell_a_line() {
    let mut g = Grid::new(1, 1);
    g.set(
        Entity::Cell(0, 0),
        Settings::new().padding(Indent::default(), Indent::default(), Indent::spaced(1), Indent::default()),
    );
    assert_eq!(g.render(), "++\n||\n||\n++\n");
}
