//! What a grid draws depends only on what can be observed of it: its
//! size, texts, styles, margin, theme and split-line texts.

use vstd::prelude::*;
use crate::grid::{entity_in_range, lemma_set_idempotent, set_result, text_after, Grid};
use crate::settings::Settings;
use crate::style::Entity;
use crate::render::{cell_pieces, overlay_line, overlay_skip, row_blocks, split_line, split_units, text_lines, vertical_count};
use crate::solver::{
    adjusted_range, adjusted_width, borders_between, first_pass, range_complete, rwv, second_pass,
    solved_upto, widened, widest_row,
};
use crate::style::Style;
use crate::table::{grid_heights, grid_lines, grid_split_widths, grid_styles, grid_widths, rendered};

verus! {

/// Two grids agree on everything drawing reads.
pub open spec fn same_observables(g1: Grid, g2: Grid) -> bool {
    &&& g1.size == g2.size
    &&& forall|r: int, c: int| 0 <= r < g1.rows() && 0 <= c < g1.cols() ==> #[trigger] g1.cell_text(r, c) == g2.cell_text(r, c)
    &&& g1.global == g2.global
    &&& g1.styles@ == g2.styles@
    &&& g1.margin == g2.margin
    &&& g1.theme.borders == g2.theme.borders
    &&& g1.theme.override_maps() == g2.theme.override_maps()
    &&& g1.theme.lines@ == g2.theme.lines@
    &&& forall|k: usize| #[trigger] g1.split_texts().contains_key(k) == g2.split_texts().contains_key(k)
    &&& forall|k: usize| #[trigger] g1.split_texts().contains_key(k) ==> g1.split_texts()[k]@ == g2.split_texts()[k]@
}

proof fn lemma_lines_agree(g1: Grid, g2: Grid)
    requires
        same_observables(g1, g2),
    ensures
        forall|c: usize| #[trigger] g1.spec_has_vertical(c) == g2.spec_has_vertical(c),
        forall|r: usize| #[trigger] g1.spec_has_horizontal(r) == g2.spec_has_horizontal(r),
{
    assert forall|c: usize| #[trigger] g1.spec_has_vertical(c) == g2.spec_has_vertical(c) by {
        if g1.spec_has_vertical(c) {
            let r = choose|r: int| 0 <= r < g1.rows() && (#[trigger] g1.theme.spec_vertical((r as usize, c), g1.size.1)) is Some;
            assert(g2.theme.spec_vertical((r as usize, c), g2.size.1) is Some);
        }
        if g2.spec_has_vertical(c) {
            let r = choose|r: int| 0 <= r < g2.rows() && (#[trigger] g2.theme.spec_vertical((r as usize, c), g2.size.1)) is Some;
            assert(g1.theme.spec_vertical((r as usize, c), g1.size.1) is Some);
        }
    }
    assert forall|r: usize| #[trigger] g1.spec_has_horizontal(r) == g2.spec_has_horizontal(r) by {
        if g1.spec_has_horizontal(r) {
            let c = choose|c: int| 0 <= c < g1.cols() && (#[trigger] g1.theme.spec_horizontal((r, c as usize), g1.size.0)) is Some;
            assert(g2.theme.spec_horizontal((r, c as usize), g2.size.0) is Some);
        }
        if g2.spec_has_horizontal(r) {
            let c = choose|c: int| 0 <= c < g2.cols() && (#[trigger] g2.theme.spec_horizontal((r, c as usize), g2.size.0)) is Some;
            assert(g1.theme.spec_horizontal((r, c as usize), g1.size.0) is Some);
        }
    }
}

proof fn lemma_theme_border(t1: crate::theme::Theme, t2: crate::theme::Theme, r: usize, c: usize, rows: usize, cols: usize)
    requires
        t1.borders == t2.borders,
        t1.vertical@ == t2.vertical@,
        t1.horizontal@ == t2.horizontal@,
        t1.intersection@ == t2.intersection@,
        t1.lines@ == t2.lines@,
    ensures
        t1.spec_border((r, c), rows, cols) == t2.spec_border((r, c), rows, cols),
{
    assert(t1.spec_override_border((r, c)) == t2.spec_override_border((r, c)));
    assert(t1.base_border((r, c), rows, cols) == t2.base_border((r, c), rows, cols));
}

proof fn lemma_get_border(g1: Grid, g2: Grid, r: usize, c: usize)
    requires
        same_observables(g1, g2),
    ensures
        g1.spec_get_border(r, c) == g2.spec_get_border(r, c),
{
    lemma_lines_agree(g1, g2);
    assert(g1.theme.vertical@ == g2.theme.vertical@);
    assert(g1.theme.horizontal@ == g2.theme.horizontal@);
    assert(g1.theme.intersection@ == g2.theme.intersection@);
    lemma_theme_border(g1.theme, g2.theme, r, c, g1.size.0, g1.size.1);
    assert(g1.spec_has_horizontal(r) == g2.spec_has_horizontal(r));
    assert(g1.spec_has_horizontal((r + 1) as usize) == g2.spec_has_horizontal((r + 1) as usize));
    assert(g1.spec_has_vertical(c) == g2.spec_has_vertical(c));
    assert(g1.spec_has_vertical((c + 1) as usize) == g2.spec_has_vertical((c + 1) as usize));
}

proof fn lemma_borders_between(g1: Grid, g2: Grid, s: Seq<usize>, start: int, i: int)
    requires
        same_observables(g1, g2),
    ensures
        borders_between(s, g1, start, i) == borders_between(s, g2, start, i),
    decreases i - start,
{
    lemma_lines_agree(g1, g2);
    if i > start {
        lemma_borders_between(g1, g2, s, start, i - 1);
    }
}

proof fn lemma_rwv(g1: Grid, g2: Grid, sv: Seq<Seq<Style>>, w: Seq<Seq<usize>>, start: int, end: int)
    requires
        same_observables(g1, g2),
    ensures
        forall|r: int| #[trigger] rwv(sv, w, r, start, end, g1) == rwv(sv, w, r, start, end, g2),
{
    assert forall|r: int| #[trigger] rwv(sv, w, r, start, end, g1) == rwv(sv, w, r, start, end, g2) by {
        lemma_borders_between(g1, g2, crate::spans::spans_of(sv[r]), start, end);
    }
}

proof fn lemma_widest_row(g1: Grid, g2: Grid, sv: Seq<Seq<Style>>, w: Seq<Seq<usize>>, n: int, start: int, end: int)
    requires
        same_observables(g1, g2),
    ensures
        widest_row(sv, w, n, start, end, g1) == widest_row(sv, w, n, start, end, g2),
    decreases n,
{
    lemma_rwv(g1, g2, sv, w, start, end);
    if n > 0 {
        lemma_widest_row(g1, g2, sv, w, n - 1, start, end);
    }
}

proof fn lemma_widened(
    g1: Grid,
    g2: Grid,
    sv: Seq<Seq<Style>>,
    w: Seq<Seq<usize>>,
    mr: int,
    mw: nat,
    start: int,
    end: int,
    n: int,
)
    requires
        same_observables(g1, g2),
    ensures
        widened(sv, w, mr, mw, start, end, g1, n) == widened(sv, w, mr, mw, start, end, g2, n),
    decreases n,
{
    lemma_rwv(g1, g2, sv, w, start, end);
    if n > 0 {
        lemma_widened(g1, g2, sv, w, mr, mw, start, end, n - 1);
    }
}

proof fn lemma_adjusted_range(g1: Grid, g2: Grid, sv: Seq<Seq<Style>>, w: Seq<Seq<usize>>, start: int, end: int)
    requires
        same_observables(g1, g2),
    ensures
        adjusted_range(sv, w, start, end, g1) == adjusted_range(sv, w, start, end, g2),
{
    lemma_widest_row(g1, g2, sv, w, w.len() as int, start, end);
    let m = widest_row(sv, w, w.len() as int, start, end, g1);
    lemma_widened(g1, g2, sv, w, m.0, m.1, start, end, w.len() as int);
}

proof fn lemma_first_pass(g1: Grid, g2: Grid, sv: Seq<Seq<Style>>, w: Seq<Seq<usize>>, span: int, k: int)
    requires
        same_observables(g1, g2),
    ensures
        first_pass(sv, w, span, g1, k) == first_pass(sv, w, span, g2, k),
    decreases k,
{
    if k > 0 {
        lemma_first_pass(g1, g2, sv, w, span, k - 1);
        lemma_adjusted_range(g1, g2, sv, first_pass(sv, w, span, g1, k - 1), k - 1, k - 1 + span);
    }
}

proof fn lemma_second_pass(g1: Grid, g2: Grid, sv: Seq<Seq<Style>>, w: Seq<Seq<usize>>, span: int, k: int)
    requires
        same_observables(g1, g2),
    ensures
        second_pass(sv, w, span, g1, k) == second_pass(sv, w, span, g2, k),
    decreases k,
{
    if k > 0 {
        lemma_second_pass(g1, g2, sv, w, span, k - 1);
        let p = second_pass(sv, w, span, g1, k - 1);
        lemma_rwv(g1, g2, sv, p, k - 1, k - 1 + span);
        assert(range_complete(sv, p, k - 1, k - 1 + span, g1) == range_complete(sv, p, k - 1, k - 1 + span, g2));
        lemma_adjusted_range(g1, g2, sv, p, k - 1, k - 1 + span);
    }
}

proof fn lemma_solved_upto(g1: Grid, g2: Grid, sv: Seq<Seq<Style>>, w: Seq<Seq<usize>>, k: int)
    requires
        same_observables(g1, g2),
    ensures
        solved_upto(sv, w, g1, k) == solved_upto(sv, w, g2, k),
    decreases k,
{
    if k > 0 {
        lemma_solved_upto(g1, g2, sv, w, k - 1);
        let p = solved_upto(sv, w, g1, k - 1);
        let n = g1.cols() - k + 1;
        lemma_first_pass(g1, g2, sv, p, k, n);
        lemma_second_pass(g1, g2, sv, first_pass(sv, p, k, g1, n), k, n);
        assert(adjusted_width(sv, p, k, g1) == adjusted_width(sv, p, k, g2));
    }
}


proof fn lemma_split_units(g1: Grid, g2: Grid, widths: Seq<usize>, row: usize, n: int)
    requires
        same_observables(g1, g2),
    ensures
        split_units(g1, widths, row, n) == split_units(g2, widths, row, n),
    decreases n,
{
    lemma_lines_agree(g1, g2);
    assert(g1.theme.vertical@ == g2.theme.vertical@);
    assert(g1.theme.horizontal@ == g2.theme.horizontal@);
    assert(g1.theme.intersection@ == g2.theme.intersection@);
    if n > 0 {
        lemma_split_units(g1, g2, widths, row, n - 1);
    }
}

proof fn lemma_split_line(g1: Grid, g2: Grid, widths: Seq<usize>, max_width: nat, row: usize)
    requires
        same_observables(g1, g2),
    ensures
        split_line(g1, widths, max_width, row) == split_line(g2, widths, max_width, row),
{
    lemma_lines_agree(g1, g2);
    lemma_split_units(g1, g2, widths, row, widths.len() as int);
    assert(g1.split_texts().contains_key(row) == g2.split_texts().contains_key(row));
    assert(overlay_line(g1, row, max_width) == overlay_line(g2, row, max_width));
    assert(overlay_skip(g1, row, max_width) == overlay_skip(g2, row, max_width));
}

proof fn lemma_vertical_count(g1: Grid, g2: Grid, n: int)
    requires
        same_observables(g1, g2),
    ensures
        vertical_count(g1, n) == vertical_count(g2, n),
    decreases n,
{
    lemma_lines_agree(g1, g2);
    if n > 0 {
        lemma_vertical_count(g1, g2, n - 1);
    }
}

proof fn lemma_cell_pieces(
    g1: Grid,
    g2: Grid,
    contents: Seq<Seq<Seq<Seq<char>>>>,
    styles: Seq<Seq<Style>>,
    widths: Seq<Seq<usize>>,
    height: nat,
    row: int,
    i: nat,
    n: int,
)
    requires
        same_observables(g1, g2),
    ensures
        cell_pieces(g1, contents, styles, widths, height, row, i, n) == cell_pieces(g2, contents, styles, widths, height, row, i, n),
    decreases n,
{
    if n > 0 {
        lemma_cell_pieces(g1, g2, contents, styles, widths, height, row, i, n - 1);
        lemma_get_border(g1, g2, row as usize, (n - 1) as usize);
    }
}

proof fn lemma_text_lines(
    g1: Grid,
    g2: Grid,
    contents: Seq<Seq<Seq<Seq<char>>>>,
    styles: Seq<Seq<Style>>,
    widths: Seq<Seq<usize>>,
    height: nat,
    row: int,
    n: nat,
)
    requires
        same_observables(g1, g2),
    ensures
        text_lines(g1, contents, styles, widths, height, row, n) == text_lines(g2, contents, styles, widths, height, row, n),
    decreases n,
{
    if n > 0 {
        lemma_text_lines(g1, g2, contents, styles, widths, height, row, (n - 1) as nat);
        lemma_cell_pieces(g1, g2, contents, styles, widths, height, row, (n - 1) as nat, g1.cols() as int);
    }
}

proof fn lemma_row_blocks(
    g1: Grid,
    g2: Grid,
    contents: Seq<Seq<Seq<Seq<char>>>>,
    styles: Seq<Seq<Style>>,
    widths: Seq<Seq<usize>>,
    normal: Seq<usize>,
    heights: Seq<usize>,
    tw: nat,
    n: int,
)
    requires
        same_observables(g1, g2),
    ensures
        row_blocks(g1, contents, styles, widths, normal, heights, tw, n) == row_blocks(g2, contents, styles, widths, normal, heights, tw, n),
    decreases n,
{
    if n > 0 {
        lemma_row_blocks(g1, g2, contents, styles, widths, normal, heights, tw, n - 1);
        let h = heights[n - 1] as nat;
        lemma_split_line(g1, g2, normal, tw, (n - 1) as usize);
        lemma_split_line(g1, g2, normal, tw, n as usize);
        lemma_text_lines(g1, g2, contents, styles, widths, h, n - 1, h);
    }
}

/// Grids that agree on their size, texts, styles, margin, theme and
/// split-line texts draw the same text.
pub proof fn lemma_rendered_congruent(g1: Grid, g2: Grid)
    requires
        same_observables(g1, g2),
    ensures
        rendered(g1) == rendered(g2),
{
    lemma_lines_agree(g1, g2);
    assert forall|r: int| 0 <= r < g1.rows() implies #[trigger] crate::table::raw_row_styles(g1, r) == crate::table::raw_row_styles(g2, r) by {
        assert(crate::table::raw_row_styles(g1, r) =~= crate::table::raw_row_styles(g2, r));
    }
    assert forall|r: int| 0 <= r < g1.rows() implies #[trigger] grid_lines(g1)[r] == grid_lines(g2)[r] by {
        assert(crate::table::raw_row_styles(g1, r) == crate::table::raw_row_styles(g2, r));
        assert forall|c: int| 0 <= c < g1.cols() implies grid_lines(g1)[r][c] == grid_lines(g2)[r][c] by {
            let m = crate::spans::marked(crate::spans::spans_of(crate::table::raw_row_styles(g1, r)));
            crate::spans::lemma_next_start(m, 0);
            let src = crate::spans::source_of(m, c);
            assert(0 <= src < g1.cols());
            assert(g1.cell_text(r, src) == g2.cell_text(r, src));
        }
        assert(grid_lines(g1)[r] =~= grid_lines(g2)[r]);
    }
    assert(grid_lines(g1) =~= grid_lines(g2));
    assert(grid_styles(g1) =~= grid_styles(g2));
    let sv = grid_styles(g1);
    lemma_solved_upto(
        g1,
        g2,
        sv,
        crate::solver::initial_widths(grid_lines(g1), sv, g1.rows(), g1.cols()),
        g1.cols() as int,
    );
    assert(grid_widths(g1) == grid_widths(g2));
    assert(grid_split_widths(g1) == grid_split_widths(g2));
    assert(grid_heights(g1) =~= grid_heights(g2));
    lemma_vertical_count(g1, g2, g1.cols() as int);
    let tw = crate::render::spec_row_width_grid(g1, grid_widths(g1), 0);
    assert(tw == crate::render::spec_row_width_grid(g2, grid_widths(g2), 0));
    lemma_row_blocks(g1, g2, grid_lines(g1), sv, grid_widths(g1), grid_split_widths(g1), grid_heights(g1), tw, g1.rows() as int);
}


/// Applying the same settings to the same entity twice draws the same
/// text as applying them once.
pub proof fn lemma_set_twice_renders_once(g0: Grid, g1: Grid, g2: Grid, e: Entity, s: Settings)
    requires
        g0.wf(),
        entity_in_range(e, g0.rows(), g0.cols()),
        set_result(g0, e, s, g1),
        set_result(g1, e, s, g2),
    ensures
        rendered(g2) == rendered(g1),
{
    lemma_set_idempotent(g0.global, g0.styles@, g0.theme.override_maps(), Seq::empty(), e, s, 0, 0, g0.rows(), g0.cols());
    assert forall|r: int, c: int| 0 <= r < g1.rows() && 0 <= c < g1.cols() implies #[trigger] g2.cell_text(r, c) == g1.cell_text(r, c) by {
        lemma_set_idempotent(g0.global, g0.styles@, g0.theme.override_maps(), g0.cell_text(r, c), e, s, r, c, g0.rows(), g0.cols());
    }
    assert(same_observables(g2, g1));
    lemma_rendered_congruent(g2, g1);
}

} // verus!
