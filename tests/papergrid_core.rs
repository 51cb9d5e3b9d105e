use owo_colors::OwoColorize;
use papergrid::{
    replace_tab, string_width, AlignmentHorizontal, AlignmentVertical, Entity, Grid, Settings,
};

#[test]
fn replace_tab_test() {
    let cases = [
        ("123\t\tabc\t", 3, "123      abc   "),
        ("\t", 0, ""),
        ("\t", 3, "   "),
        ("123\tabc", 3, "123   abc"),
        ("123\tabc\tzxc", 0, "123abczxc"),
        ("\\t", 0, "\\t"),
        ("\\t", 4, "\\t"),
        ("123\\tabc", 0, "123\\tabc"),
        ("123\\tabc", 4, "123\\tabc"),
    ];
    for (input, n, expected) in cases {
        let mut s = input.to_owned();
        replace_tab(&mut s, n);
        assert_eq!(s, expected);
    }
}

#[test]
fn string_width_emojie_test() {
    assert_eq!(string_width("🎩"), 2);
    assert_eq!(string_width("Rust 💕"), 7);
    assert_eq!(string_width("Go 👍\nC 😎"), 5);
}

#[test]
fn vertical_aligment_test() {
    assert_eq!(AlignmentVertical::Bottom.top_ident(1, 1), 0);
    assert_eq!(AlignmentVertical::Top.top_ident(1, 1), 0);
    assert_eq!(AlignmentVertical::Center.top_ident(1, 1), 0);
    assert_eq!(AlignmentVertical::Bottom.top_ident(3, 1), 2);
    assert_eq!(AlignmentVertical::Top.top_ident(3, 1), 0);
    assert_eq!(AlignmentVertical::Center.top_ident(3, 1), 1);
    assert_eq!(AlignmentVertical::Center.top_ident(4, 1), 1);
}

fn aligned(text: &str, alignment: AlignmentHorizontal, width: usize) -> String {
    let w = string_width(text);
    let mut out = String::new();
    alignment.align_with_max_width(&mut out, text, width, w, w);
    out
}

#[test]
fn horizontal_aligment_test() {
    assert_eq!(aligned("AAA", AlignmentHorizontal::Right, 4), " AAA");
    assert_eq!(aligned("AAA", AlignmentHorizontal::Left, 4), "AAA ");
    assert_eq!(aligned("AAA", AlignmentHorizontal::Center, 4), "AAA ");
    assert_eq!(aligned("🎩", AlignmentHorizontal::Center, 4), " 🎩 ");
    assert_eq!(aligned("🎩", AlignmentHorizontal::Center, 3), "🎩 ");

    let text = "Colored Text".red().to_string();
    assert_eq!(
        aligned(&text, AlignmentHorizontal::Center, 15),
        format!(" {}  ", text)
    );
}

#[test]
fn default_two_by_two_renders_cells() {
    let mut grid = Grid::new(2, 2);
    grid.set(Entity::Cell(0, 0), Settings::new().text("0-0"));
    grid.set(Entity::Cell(0, 1), Settings::new().text("0-1"));
    grid.set(Entity::Cell(1, 0), Settings::new().text("1-0"));
    grid.set(Entity::Cell(1, 1), Settings::new().text("1-1"));
    assert_eq!(
        grid.render(),
        "+---+---+\n|0-0|0-1|\n+---+---+\n|1-0|1-1|\n+---+---+\n"
    );
}

#[test]
fn empty_two_by_two_renders_frame() {
    let grid = Grid::new(2, 2);
    assert_eq!(grid.render(), "+++\n+++\n+++\n");
}

#[test]
fn colored_string_width_test() {
    assert_eq!(string_width(&"hello world".red().to_string()), 11);
    assert_eq!(string_width(&"hello\nworld".blue().to_string()), 5);
    assert_eq!(string_width("\u{1b}[34m0\u{1b}[0m"), 1);
    assert_eq!(string_width(&"0".red().to_string()), 1);
}
