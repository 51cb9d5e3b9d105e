//! Composition of one line of one cell: tab expansion, trimming, vertical
//! placement, padding and horizontal alignment.

use vstd::prelude::*;
use vstd::string::StringExecFns;
use crate::border::Symbol;
use crate::style::{AlignmentHorizontal, Formatting, Style, spec_top_indent};
use crate::text::{chars_of, copy_chars, display_width, push_char, string_of, string_width, views_of};

verus! {

/// `a - b`, or 0 where `b` is larger.
pub open spec fn sub0(a: int, b: int) -> nat {
    if a >= b {
        (a - b) as nat
    } else {
        0
    }
}

/// Whether `c` has the Unicode White_Space property.
pub open spec fn is_white(c: char) -> bool {
    let u = c as u32;
    (0x9 <= u <= 0xd) || u == 0x20 || u == 0x85 || u == 0xa0 || u == 0x1680 || (0x2000 <= u
        <= 0x200a) || u == 0x2028 || u == 0x2029 || u == 0x202f || u == 0x205f || u == 0x3000
}

/// Whether `c` is white space, as `char::is_whitespace` decides it.
pub fn is_whitespace(c: char) -> (r: bool)
    ensures
        r == is_white(c),
{
    let u = c as u32;
    (0x9 <= u && u <= 0xd) || u == 0x20 || u == 0x85 || u == 0xa0 || u == 0x1680 || (0x2000 <= u
        && u <= 0x200a) || u == 0x2028 || u == 0x2029 || u == 0x202f || u == 0x205f || u == 0x3000
}

/// `s` without trailing white space.
pub open spec fn trim_end(s: Seq<char>) -> Seq<char>
    decreases s.len(),
{
    if s.len() > 0 && is_white(s.last()) {
        trim_end(s.drop_last())
    } else {
        s
    }
}

/// `s` without leading white space.
pub open spec fn trim_start(s: Seq<char>) -> Seq<char>
    decreases s.len(),
{
    if s.len() > 0 && is_white(s[0]) {
        trim_start(s.drop_first())
    } else {
        s
    }
}

/// `s` without leading and trailing white space.
pub open spec fn trim(s: Seq<char>) -> Seq<char> {
    trim_start(trim_end(s))
}

/// Whether a line holds only white space.
pub open spec fn is_blank(s: Seq<char>) -> bool {
    forall|i: int| 0 <= i < s.len() ==> is_white(s[i])
}

proof fn lemma_trim_end_prefix(s: Seq<char>)
    ensures
        trim_end(s).len() <= s.len(),
        trim_end(s) == s.take(trim_end(s).len() as int),
        forall|i: int| trim_end(s).len() <= i < s.len() ==> is_white(s[i]),
    decreases s.len(),
{
    if s.len() > 0 && is_white(s.last()) {
        lemma_trim_end_prefix(s.drop_last());
        assert(s.drop_last().take(trim_end(s).len() as int) =~= s.take(trim_end(s).len() as int));
        assert forall|i: int| trim_end(s).len() <= i < s.len() implies is_white(s[i]) by {
            if i < s.len() - 1 {
                assert(s.drop_last()[i] == s[i]);
            }
        }
    } else {
        assert(s.take(s.len() as int) =~= s);
    }
}

proof fn lemma_trim_start_suffix(s: Seq<char>)
    ensures
        trim_start(s).len() <= s.len(),
        trim_start(s) == s.skip(s.len() - trim_start(s).len()),
        forall|i: int| 0 <= i < s.len() - trim_start(s).len() ==> is_white(s[i]),
    decreases s.len(),
{
    if s.len() > 0 && is_white(s[0]) {
        lemma_trim_start_suffix(s.drop_first());
        assert(s.drop_first().skip(s.len() - 1 - trim_start(s).len()) =~= s.skip(
            s.len() - trim_start(s).len(),
        ));
        assert forall|i: int| 0 <= i < s.len() - trim_start(s).len() implies is_white(s[i]) by {
            if i > 0 {
                assert(s.drop_first()[i - 1] == s[i]);
            }
        }
    } else {
        assert(s.skip(0) =~= s);
    }
}

/// The characters of `s` before its trailing white space.
pub fn trim_end_chars(s: &Vec<char>) -> (r: Vec<char>)
    ensures
        r@ == trim_end(s@),
{
    let mut n = s.len();
    assert(s@.take(n as int) =~= s@);
    while n > 0 && is_whitespace(s[n - 1])
        invariant
            n <= s@.len(),
            trim_end(s@) == trim_end(s@.take(n as int)),
        decreases n,
    {
        assert(s@.take(n as int).drop_last() =~= s@.take(n - 1));
        n = n - 1;
    }
    assert(trim_end(s@.take(n as int)) == s@.take(n as int));
    let mut r: Vec<char> = Vec::new();
    let mut i: usize = 0;
    while i < n
        invariant
            i <= n <= s@.len(),
            r@ == s@.take(i as int),
        decreases n - i,
    {
        r.push(s[i]);
        i = i + 1;
        assert(r@ =~= s@.take(i as int));
    }
    r
}

/// The characters of `s` without leading and trailing white space.
pub fn trim_chars(s: &Vec<char>) -> (r: Vec<char>)
    ensures
        r@ == trim(s@),
{
    let e = trim_end_chars(s);
    let mut k: usize = 0;
    assert(e@.skip(0) =~= e@);
    while k < e.len() && is_whitespace(e[k])
        invariant
            k <= e@.len(),
            trim_start(e@) == trim_start(e@.skip(k as int)),
        decreases e.len() - k,
    {
        assert(e@.skip(k as int).drop_first() =~= e@.skip(k + 1));
        k = k + 1;
    }
    assert(trim_start(e@.skip(k as int)) == e@.skip(k as int));
    let mut r: Vec<char> = Vec::new();
    let mut i: usize = k;
    while i < e.len()
        invariant
            k <= i <= e@.len(),
            r@ == e@.subrange(k as int, i as int),
        decreases e.len() - i,
    {
        r.push(e[i]);
        i = i + 1;
        assert(r@ =~= e@.subrange(k as int, i as int));
    }
    assert(e@.skip(k as int) =~= e@.subrange(k as int, e@.len() as int));
    r
}

/// Whether `s` holds only white space.
pub fn is_blank_chars(s: &Vec<char>) -> (r: bool)
    ensures
        r == is_blank(s@),
{
    let mut i: usize = 0;
    while i < s.len()
        invariant
            i <= s@.len(),
            forall|j: int| 0 <= j < i ==> is_white(s@[j]),
        decreases s.len() - i,
    {
        if !is_whitespace(s[i]) {
            return false;
        }
        i = i + 1;
    }
    true
}


/// `s` written `n` times in a row.
pub open spec fn repeated(s: Seq<char>, n: nat) -> Seq<char>
    decreases n,
{
    if n == 0 {
        Seq::<char>::empty()
    } else {
        repeated(s, (n - 1) as nat) + s
    }
}

/// `n` spaces.
pub open spec fn spaces(n: nat) -> Seq<char> {
    repeated(seq![' '], n)
}

/// `s` with each tab that does not follow a backslash replaced by `n`
/// spaces; a tab after a backslash stays as it is.
pub open spec fn tabs_expanded(s: Seq<char>, n: nat) -> Seq<char>
    decreases s.len(),
{
    if s.len() == 0 {
        Seq::<char>::empty()
    } else {
        let p = tabs_expanded(s.drop_last(), n);
        if s.last() == '\t' && !(s.len() >= 2 && s[s.len() - 2] == '\\') {
            p + spaces(n)
        } else {
            p.push(s.last())
        }
    }
}

/// Tab expansion: an escaped tab stays verbatim, any other tab becomes
/// `n` spaces (none when `n` is 0), and the text around is kept.
pub proof fn lemma_tab_expansion(a: Seq<char>, n: nat)
    ensures
        tabs_expanded(a + seq!['\\', '\t'], n) == tabs_expanded(a, n) + seq!['\\', '\t'],
        (a.len() == 0 || a.last() != '\\') ==> tabs_expanded(a.push('\t'), n) == tabs_expanded(a, n)
            + spaces(n),
        n == 0 && (a.len() == 0 || a.last() != '\\') ==> tabs_expanded(a.push('\t'), n)
            == tabs_expanded(a, n),
{
    let b = a + seq!['\\', '\t'];
    assert(b.drop_last() =~= a.push('\\'));
    assert(b.last() == '\t');
    assert(b[b.len() - 2] == '\\');
    assert(tabs_expanded(b, n) == tabs_expanded(a.push('\\'), n).push('\t'));
    assert(a.push('\\').drop_last() =~= a);
    assert(a.push('\\').last() == '\\');
    assert(tabs_expanded(a.push('\\'), n) == tabs_expanded(a, n).push('\\'));
    assert(a.push('\\').drop_last() =~= a);
    assert(tabs_expanded(a, n) + seq!['\\', '\t'] =~= tabs_expanded(a, n).push('\\').push('\t'));
    assert(a.push('\t').drop_last() =~= a);
    assert(spaces(0) =~= Seq::<char>::empty());
    assert(tabs_expanded(a, n) + Seq::<char>::empty() =~= tabs_expanded(a, n));
}

fn push_spaces(r: &mut Vec<char>, n: usize)
    ensures
        final(r)@ == old(r)@ + spaces(n as nat),
{
    let mut i: usize = 0;
    while i < n
        invariant
            i <= n,
            r@ == old(r)@ + spaces(i as nat),
        decreases n - i,
    {
        r.push(' ');
        i = i + 1;
        assert(r@ =~= old(r)@ + spaces(i as nat));
    }
}

/// `s` with its tabs expanded to `n` spaces each.
pub fn expand_tabs(s: &Vec<char>, n: usize) -> (r: Vec<char>)
    ensures
        r@ == tabs_expanded(s@, n as nat),
{
    let mut r: Vec<char> = Vec::new();
    let mut i: usize = 0;
    while i < s.len()
        invariant
            i <= s@.len(),
            r@ == tabs_expanded(s@.take(i as int), n as nat),
        decreases s.len() - i,
    {
        let c = s[i];
        let ghost t = s@.take(i + 1);
        assert(t.drop_last() =~= s@.take(i as int));
        if c == '\t' && !(i >= 1 && s[i - 1] == '\\') {
            push_spaces(&mut r, n);
        } else {
            r.push(c);
        }
        i = i + 1;
    }
    assert(s@.take(i as int) =~= s@);
    r
}

/// Expands the tabs of `cell` in place: each tab that does not follow a
/// backslash becomes `n` spaces.
pub fn replace_tab(cell: &mut String, n: usize)
    ensures
        final(cell)@ == tabs_expanded(old(cell)@, n as nat),
{
    let chars = chars_of(cell.as_str());
    let expanded = expand_tabs(&chars, n);
    *cell = string_of(&expanded);
}

/// Appends `s` to `out`.
pub fn append_chars(out: &mut String, s: &Vec<char>)
    ensures
        final(out)@ == old(out)@ + s@,
{
    let mut i: usize = 0;
    while i < s.len()
        invariant
            i <= s@.len(),
            out@ == old(out)@ + s@.take(i as int),
        decreases s.len() - i,
    {
        push_char(out, s[i]);
        i = i + 1;
        assert(out@ =~= old(out)@ + s@.take(i as int));
    }
    assert(s@.take(i as int) =~= s@);
}

/// Writes `c` to `out` `n` times.
pub fn repeat_char(out: &mut String, c: &Symbol, n: usize)
    ensures
        final(out)@ == old(out)@ + repeated(c@, n as nat),
{
    let mut i: usize = 0;
    while i < n
        invariant
            i <= n,
            out@ == old(out)@ + repeated(c@, i as nat),
        decreases n - i,
    {
        c.write_to(out);
        i = i + 1;
        assert(out@ =~= old(out)@ + repeated(c@, i as nat));
    }
}

/// The first line at or after `i` that is not blank, or the line count.
pub open spec fn first_nonblank(lines: Seq<Seq<char>>, i: int) -> int
    decreases lines.len() - i,
{
    if i < 0 || i >= lines.len() {
        lines.len() as int
    } else if !is_blank(lines[i]) {
        i
    } else {
        first_nonblank(lines, i + 1)
    }
}

/// The end of the last line before `j` that is not blank, or 0.
pub open spec fn nonblank_end(lines: Seq<Seq<char>>, j: int) -> int
    decreases j,
{
    if j <= 0 || j > lines.len() {
        0
    } else if !is_blank(lines[j - 1]) {
        j
    } else {
        nonblank_end(lines, j - 1)
    }
}

/// The lines without the blank lines before the first and after the last
/// line with text.
pub open spec fn without_blank_edges(lines: Seq<Seq<char>>) -> Seq<Seq<char>> {
    let a = first_nonblank(lines, 0);
    if a == lines.len() {
        Seq::<Seq<char>>::empty()
    } else {
        lines.subrange(a, nonblank_end(lines, lines.len() as int))
    }
}

proof fn lemma_first_nonblank(lines: Seq<Seq<char>>, i: int)
    requires
        0 <= i <= lines.len(),
    ensures
        i <= first_nonblank(lines, i) <= lines.len(),
        first_nonblank(lines, i) < lines.len() ==> !is_blank(lines[first_nonblank(lines, i)]),
    decreases lines.len() - i,
{
    if i < lines.len() && is_blank(lines[i]) {
        lemma_first_nonblank(lines, i + 1);
    }
}

proof fn lemma_nonblank_end(lines: Seq<Seq<char>>, j: int)
    requires
        0 <= j <= lines.len(),
    ensures
        0 <= nonblank_end(lines, j) <= j,
        forall|k: int| 0 <= k < j && !is_blank(lines[k]) ==> k < nonblank_end(lines, j),
    decreases j,
{
    if j > 0 && is_blank(lines[j - 1]) {
        lemma_nonblank_end(lines, j - 1);
    }
}

/// The lines of a cell without blank lines at its top and bottom.
pub fn skip_empty_lines(cell: &Vec<Vec<char>>) -> (r: Vec<Vec<char>>)
    ensures
        views_of(r@) == without_blank_edges(views_of(cell@)),
{
    let ghost v = views_of(cell@);
    let n = cell.len();
    let mut a: usize = 0;
    while a < n && is_blank_chars(&cell[a])
        invariant
            a <= n,
            n == v.len(),
            v == views_of(cell@),
            first_nonblank(v, 0) == first_nonblank(v, a as int),
        decreases n - a,
    {
        a = a + 1;
    }
    if a == n {
        let r: Vec<Vec<char>> = Vec::new();
        assert(views_of(r@) =~= without_blank_edges(v));
        return r;
    }
    assert(first_nonblank(v, a as int) == a);
    let mut e: usize = n;
    while e > 0 && is_blank_chars(&cell[e - 1])
        invariant
            e <= n,
            n == v.len(),
            v == views_of(cell@),
            nonblank_end(v, n as int) == nonblank_end(v, e as int),
        decreases e,
    {
        e = e - 1;
    }
    proof {
        lemma_first_nonblank(v, 0);
        lemma_nonblank_end(v, n as int);
    }
    let mut r: Vec<Vec<char>> = Vec::new();
    let mut i: usize = a;
    while i < e
        invariant
            a <= i <= e <= n,
            n == v.len(),
            v == views_of(cell@),
            views_of(r@) == v.subrange(a as int, i as int),
        decreases e - i,
    {
        let line = copy_chars(&cell[i]);
        assert(line@ == v[i as int]);
        let ghost before = views_of(r@);
        r.push(line);
        assert(views_of(r@) =~= before.push(v[i as int]));
        i = i + 1;
        assert(views_of(r@) =~= v.subrange(a as int, i as int));
    }
    r
}


/// `text` placed in `width` columns, where the text is `text_w` wide and
/// the widest line of its block is `max_w` wide.
pub open spec fn aligned_text(
    a: AlignmentHorizontal,
    text: Seq<char>,
    width: nat,
    text_w: nat,
    max_w: nat,
) -> Seq<char> {
    let diff = sub0(width as int, text_w as int);
    match a {
        AlignmentHorizontal::Left => text + spaces(diff),
        AlignmentHorizontal::Right => {
            let max_diff = sub0(width as int, max_w as int);
            spaces(max_diff) + text + spaces(sub0(diff as int, max_diff as int))
        },
        AlignmentHorizontal::Center => {
            let left = sub0(width as int, max_w as int) / 2;
            spaces(left) + text + spaces(sub0(diff as int, left as int))
        },
    }
}

fn sat_sub(a: usize, b: usize) -> (r: usize)
    ensures
        r == sub0(a as int, b as int),
{
    if a >= b {
        a - b
    } else {
        0
    }
}

impl AlignmentHorizontal {
    /// Writes `text` aligned in `width` columns; the block it belongs to is
    /// `max_text_width` wide, so that right and center alignment move the
    /// block as a whole.
    pub fn align_with_max_width(
        &self,
        out: &mut String,
        text: &str,
        width: usize,
        text_width: usize,
        max_text_width: usize,
    )
        ensures
            final(out)@ == old(out)@ + aligned_text(
                *self,
                text@,
                width as nat,
                text_width as nat,
                max_text_width as nat,
            ),
    {
        let diff = sat_sub(width, text_width);
        match self {
            AlignmentHorizontal::Left => AlignmentHorizontal::align(out, text, 0, diff),
            AlignmentHorizontal::Right => {
                let max_diff = sat_sub(width, max_text_width);
                let rest = sat_sub(diff, max_diff);
                AlignmentHorizontal::align(out, text, max_diff, rest)
            },
            AlignmentHorizontal::Center => {
                let max_diff = sat_sub(width, max_text_width);
                let left = max_diff / 2;
                let rest = sat_sub(diff, left);
                AlignmentHorizontal::align(out, text, left, rest)
            },
        }
        proof {
            assert(spaces(0) =~= Seq::<char>::empty());
            assert(old(out)@ + spaces(0) + text@ + spaces(diff as nat) =~= old(out)@ + (text@ + spaces(diff as nat)));
        }
    }

    /// Writes `left` spaces, `text` and `right` spaces.
    pub fn align(out: &mut String, text: &str, left: usize, right: usize)
        ensures
            final(out)@ == old(out)@ + spaces(left as nat) + text@ + spaces(right as nat),
    {
        let space = Symbol::from_char(' ');
        repeat_char(out, &space, left);
        out.append(text);
        repeat_char(out, &space, right);
    }
}

/// The rows above the content of a cell of `height` rows with `content`
/// lines of text: the top padding and the vertical alignment's offset.
pub open spec fn cell_top_indent(content: nat, style: Style, height: nat) -> nat {
    let inner = sub0(height as int, style.padding.top.size as int);
    (style.padding.top.size + spec_top_indent(style.alignment_v, inner, content)) as nat
}

/// The rows above the content of a cell.
pub fn top_indent(content: usize, style: &Style, height: usize) -> (r: usize)
    ensures
        r == cell_top_indent(content as nat, *style, height as nat),
{
    let inner = sat_sub(height, style.padding.top.size);
    let indent = style.alignment_v.top_ident(inner, content);
    proof {
        assert(indent <= inner);
    }
    indent + style.padding.top.size
}

/// `text` with its padding in `width` columns.
pub open spec fn padded_line(
    text: Seq<char>,
    width: nat,
    text_w: nat,
    max_w: nat,
    style: Style,
) -> Seq<char> {
    let left = style.padding.left;
    let right = style.padding.right;
    let inner = sub0(sub0(width as int, left.size as int) as int, right.size as int);
    repeated(seq![left.fill], left.size as nat) + aligned_text(
        style.alignment_h,
        text,
        inner,
        text_w,
        max_w,
    ) + repeated(seq![right.fill], right.size as nat)
}

/// Writes one line of text with the cell's padding and alignment.
pub fn line_with_width(
    out: &mut String,
    text: &str,
    width: usize,
    width_text: usize,
    width_text_max: usize,
    style: &Style,
)
    ensures
        final(out)@ == old(out)@ + padded_line(
            text@,
            width as nat,
            width_text as nat,
            width_text_max as nat,
            *style,
        ),
{
    let left_indent = style.padding.left;
    let right_indent = style.padding.right;
    let alignment = style.alignment_h;
    let ghost start = out@;
    repeat_char(out, &Symbol::from_char(left_indent.fill), left_indent.size);
    let inner = sat_sub(sat_sub(width, left_indent.size), right_indent.size);
    alignment.align_with_max_width(out, text, inner, width_text, width_text_max);
    repeat_char(out, &Symbol::from_char(right_indent.fill), right_indent.size);
    proof {
        let l = repeated(seq![left_indent.fill], left_indent.size as nat);
        let m = aligned_text(alignment, text@, inner as nat, width_text as nat, width_text_max as nat);
        let r = repeated(seq![right_indent.fill], right_indent.size as nat);
        assert(out@ =~= start + (l + m + r));
    }
}

/// The line of a cell as it is trimmed for display.
pub open spec fn trimmed_line(line: Seq<char>, f: Formatting) -> Seq<char> {
    if f.horizontal_trim && f.allow_lines_alignement {
        trim(line)
    } else if f.horizontal_trim {
        trim_end(line)
    } else {
        line
    }
}

/// The line of a cell as it counts toward the width of its block.
pub open spec fn block_line(line: Seq<char>, f: Formatting) -> Seq<char> {
    if f.horizontal_trim {
        trim_end(line)
    } else {
        line
    }
}

/// The widest of `lines` as they count toward the block width.
pub open spec fn block_width(lines: Seq<Seq<char>>, f: Formatting) -> nat
    decreases lines.len(),
{
    if lines.len() == 0 {
        0
    } else {
        let w = display_width(block_line(lines.last(), f));
        let m = block_width(lines.drop_last(), f);
        if w > m {
            w
        } else {
            m
        }
    }
}

/// The lines of a cell that are laid out: without blank edges where the
/// cell trims vertically.
pub open spec fn laid_out_lines(lines: Seq<Seq<char>>, f: Formatting) -> Seq<Seq<char>> {
    if f.vertical_trim {
        without_blank_edges(lines)
    } else {
        lines
    }
}

/// Line `index` of a cell drawn `width` columns wide in a row `height`
/// lines high: top fill above the content, bottom fill below it, else the
/// trimmed, padded and aligned text line.
pub open spec fn cell_line(
    lines: Seq<Seq<char>>,
    style: Style,
    width: nat,
    height: nat,
    index: nat,
) -> Seq<char> {
    let f = style.formatting;
    let cell = laid_out_lines(lines, f);
    let top = cell_top_indent(cell.len(), style, height);
    if index < top {
        repeated(seq![style.padding.top.fill], width)
    } else if index - top >= cell.len() {
        repeated(seq![style.padding.bottom.fill], width)
    } else {
        let text = trimmed_line(cell[index - top], f);
        let line_w = display_width(text);
        let max_w = if f.allow_lines_alignement {
            line_w
        } else {
            block_width(cell, f)
        };
        padded_line(text, width, line_w, max_w, style)
    }
}

/// The display width of a sequence of characters.
pub fn chars_width(s: &Vec<char>) -> (r: usize)
    ensures
        r == display_width(s@),
{
    let t = string_of(s);
    string_width(t.as_str())
}

fn block_width_of(cell: &Vec<Vec<char>>, f: &Formatting) -> (r: usize)
    ensures
        r == block_width(views_of(cell@), *f),
{
    let ghost v = views_of(cell@);
    let mut m: usize = 0;
    let mut i: usize = 0;
    while i < cell.len()
        invariant
            i <= cell@.len(),
            v == views_of(cell@),
            m == block_width(v.take(i as int), *f),
        decreases cell.len() - i,
    {
        let line = if f.horizontal_trim {
            trim_end_chars(&cell[i])
        } else {
            copy_chars(&cell[i])
        };
        let w = chars_width(&line);
        assert(v.take(i + 1).drop_last() =~= v.take(i as int));
        if w > m {
            m = w;
        }
        i = i + 1;
    }
    assert(v.take(i as int) =~= v);
    m
}

/// Writes line `line_index` of a cell that is `width` columns wide in a
/// row `height` lines high.
pub fn build_line_cell(
    out: &mut String,
    line_index: usize,
    cell: &Vec<Vec<char>>,
    style: &Style,
    width: usize,
    height: usize,
)
    ensures
        final(out)@ == old(out)@ + cell_line(
            views_of(cell@),
            *style,
            width as nat,
            height as nat,
            line_index as nat,
        ),
{
    let lines = if style.formatting.vertical_trim {
        skip_empty_lines(cell)
    } else {
        let mut copy: Vec<Vec<char>> = Vec::new();
        let mut i: usize = 0;
        while i < cell.len()
            invariant
                i <= cell@.len(),
                views_of(copy@) == views_of(cell@).take(i as int),
            decreases cell.len() - i,
        {
            let line = copy_chars(&cell[i]);
            let ghost before = views_of(copy@);
            copy.push(line);
            assert(views_of(copy@) =~= before.push(cell@[i as int]@));
            i = i + 1;
            assert(views_of(copy@) =~= views_of(cell@).take(i as int));
        }
        assert(views_of(cell@).take(i as int) =~= views_of(cell@));
        copy
    };
    let ghost v = views_of(lines@);
    assert(v == laid_out_lines(views_of(cell@), style.formatting));
    assert(v.len() == lines@.len());

    let top = top_indent(lines.len(), style, height);
    if top > line_index {
        repeat_char(out, &Symbol::from_char(style.padding.top.fill), width);
        return;
    }
    let cell_line_index = line_index - top;
    if cell_line_index >= lines.len() {
        repeat_char(out, &Symbol::from_char(style.padding.bottom.fill), width);
        return;
    }
    let f = style.formatting;
    let raw = &lines[cell_line_index];
    assert(raw@ == v[cell_line_index as int]);
    let text = if f.horizontal_trim && f.allow_lines_alignement {
        trim_chars(raw)
    } else if f.horizontal_trim {
        trim_end_chars(raw)
    } else {
        copy_chars(raw)
    };
    let line_width = chars_width(&text);
    let text_str = string_of(&text);
    if f.allow_lines_alignement {
        line_with_width(out, text_str.as_str(), width, line_width, line_width, style);
    } else {
        let max_line_width = block_width_of(&lines, &f);
        line_with_width(out, text_str.as_str(), width, line_width, max_line_width, style);
    }
}

} // verus!
