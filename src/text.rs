//! Characters, lines and display width of text.

use vstd::prelude::*;
use vstd::std_specs::iter::IteratorSpec;
use vstd::string::{StrSliceExecFns, StringSliceAdditionalSpecFns};
use vstd::utf8::{encode_utf8, is_char_boundary};

verus! {

broadcast use vstd::string::group_string_axioms;

/// The pieces of `s` between `'\n'` characters, in order; there is always at
/// least one piece (the one after the last newline, possibly empty).
pub open spec fn newline_pieces(s: Seq<char>) -> Seq<Seq<char>>
    decreases s.len(),
{
    if s.len() == 0 {
        seq![Seq::<char>::empty()]
    } else {
        let prev = newline_pieces(s.drop_last());
        if s.last() == '\n' {
            prev.push(Seq::<char>::empty())
        } else {
            prev.update(prev.len() - 1, prev.last().push(s.last()))
        }
    }
}

/// A line that was ended by `'\n'` loses one trailing `'\r'`.
pub open spec fn without_cr(line: Seq<char>) -> Seq<char> {
    if line.len() > 0 && line.last() == '\r' {
        line.drop_last()
    } else {
        line
    }
}

/// The lines of `s` in the sense of `str::lines`: split at `'\n'`, a
/// `"\r\n"` ending counts as one line ending, and an empty piece after the
/// final newline is no line.
pub open spec fn lines_of(s: Seq<char>) -> Seq<Seq<char>> {
    let p = newline_pieces(s);
    let ended = p.drop_last().map_values(|l: Seq<char>| without_cr(l));
    if p.last().len() == 0 {
        ended
    } else {
        ended.push(p.last())
    }
}

proof fn lemma_newline_pieces_nonempty(s: Seq<char>)
    ensures
        newline_pieces(s).len() >= 1,
    decreases s.len(),
{
    if s.len() > 0 {
        lemma_newline_pieces_nonempty(s.drop_last());
    }
}

/// Relies on `String::push`: appends one character.
#[verifier::external_body]
pub(crate) fn push_char(s: &mut String, c: char)
    ensures
        final(s)@ == old(s)@.push(c),
{
    s.push(c)
}

/// The characters of `s`, in order.
pub fn chars_of(s: &str) -> (r: Vec<char>)
    ensures
        r@ == s@,
{
    let mut it = s.chars();
    let mut r: Vec<char> = Vec::new();
    loop
        invariant
            it.remaining() == s@.skip(r.len() as int),
            r@ == s@.take(r.len() as int),
            r.len() <= s@.len(),
        decreases s@.len() - r.len(),
    {
        let next = it.next();
        match next {
            Some(c) => {
                proof {
                    assert(s@.skip(r.len() as int).len() > 0);
                }
                r.push(c);
                assert(s@.take(r.len() as int) =~= s@.take(r.len() - 1) .push(c));
                assert(s@.skip(r.len() as int) =~= s@.skip(r.len() - 1).drop_first());
            },
            None => {
                assert(r@ =~= s@);
                return r;
            },
        }
    }
}

/// A copy of `v`.
pub fn copy_chars(v: &Vec<char>) -> (r: Vec<char>)
    ensures
        r@ == v@,
{
    let mut r: Vec<char> = Vec::new();
    let mut i: usize = 0;
    while i < v.len()
        invariant
            i <= v.len(),
            r@ == v@.take(i as int),
        decreases v.len() - i,
    {
        r.push(v[i]);
        i = i + 1;
        assert(r@ =~= v@.take(i as int));
    }
    assert(v@.take(i as int) =~= v@);
    r
}

/// A string holding the characters of `v`.
pub fn string_of(v: &Vec<char>) -> (r: String)
    ensures
        r@ == v@,
{
    let mut r = String::new();
    let mut i: usize = 0;
    while i < v.len()
        invariant
            i <= v.len(),
            r@ == v@.take(i as int),
        decreases v.len() - i,
    {
        push_char(&mut r, v[i]);
        i = i + 1;
        assert(r@ =~= v@.take(i as int));
    }
    assert(v@.take(i as int) =~= v@);
    r
}


/// The views of a sequence of character vectors.
pub open spec fn views_of(v: Seq<Vec<char>>) -> Seq<Seq<char>> {
    v.map_values(|l: Vec<char>| l@)
}

/// The lines of `s`, as `lines_of` describes them.
pub fn split_lines(s: &Vec<char>) -> (r: Vec<Vec<char>>)
    ensures
        views_of(r@) == lines_of(s@),
{
    let mut done: Vec<Vec<char>> = Vec::new();
    let mut cur: Vec<char> = Vec::new();
    let mut i: usize = 0;
    while i < s.len()
        invariant
            i <= s.len(),
            newline_pieces(s@.take(i as int)).len() >= 1,
            views_of(done@) == newline_pieces(s@.take(i as int)).drop_last().map_values(
                |l: Seq<char>| without_cr(l),
            ),
            cur@ == newline_pieces(s@.take(i as int)).last(),
        decreases s.len() - i,
    {
        let c = s[i];
        let ghost before = newline_pieces(s@.take(i as int));
        assert(s@.take(i + 1).drop_last() =~= s@.take(i as int));
        if c == '\n' {
            if cur.len() > 0 && cur[cur.len() - 1] == '\r' {
                cur.pop();
            }
            assert(cur@ == without_cr(before.last()));
            let ghost old_done = views_of(done@);
            done.push(cur);
            assert(views_of(done@) =~= old_done.push(without_cr(before.last())));
            assert(newline_pieces(s@.take(i + 1)).drop_last() =~= before);
            assert(before.map_values(|l: Seq<char>| without_cr(l)) =~= before.drop_last().map_values(
                |l: Seq<char>| without_cr(l),
            ).push(without_cr(before.last())));
            cur = Vec::new();
            assert(views_of(done@) =~= newline_pieces(s@.take(i + 1)).drop_last().map_values(
                |l: Seq<char>| without_cr(l),
            ));
        } else {
            cur.push(c);
            assert(newline_pieces(s@.take(i + 1)).drop_last() =~= before.drop_last());
        }
        i = i + 1;
    }
    assert(s@.take(i as int) =~= s@);
    if cur.len() > 0 {
        done.push(cur);
        assert(views_of(done@) =~= lines_of(s@));
    } else {
        assert(views_of(done@) =~= lines_of(s@));
    }
    done
}

/// What `unicode_width` gives as the display width of a line.
pub uninterp spec fn unicode_width_of(s: Seq<char>) -> usize;

/// Relies on `unicode_width::UnicodeWidthStr::width`: the display width of a
/// string by the East Asian Width rules; the empty string has width 0.
#[verifier::external_body]
fn unicode_width(line: &Vec<char>) -> (r: usize)
    ensures
        r == unicode_width_of(line@),
        line@.len() == 0 ==> r == 0,
{
    let s: String = line.iter().collect();
    unicode_width::UnicodeWidthStr::width(s.as_str())
}

/// The largest display width among `lines`, 0 where there is none.
pub open spec fn max_line_width(lines: Seq<Seq<char>>) -> nat
    decreases lines.len(),
{
    if lines.len() == 0 {
        0
    } else {
        let w = unicode_width_of(lines.last()) as nat;
        let m = max_line_width(lines.drop_last());
        if w > m {
            w
        } else {
            m
        }
    }
}

/// What `strip_ansi_escapes` leaves of a text.
pub uninterp spec fn escapes_stripped(s: Seq<char>) -> Seq<char>;

/// Relies on `strip_ansi_escapes::strip`: the text with its ANSI escape
/// sequences removed. It writes into an in-memory buffer, which does not
/// fail.
#[verifier::external_body]
fn strip_escapes(s: &str) -> (r: String)
    ensures
        r@ == escapes_stripped(s@),
{
    match strip_ansi_escapes::strip(s) {
        Ok(bytes) => String::from_utf8_lossy(&bytes).into_owned(),
        Err(_) => String::new(),
    }
}

/// The display width of a text: the widest of its lines once style escapes
/// are removed.
pub open spec fn display_width(s: Seq<char>) -> nat {
    max_line_width(lines_of(escapes_stripped(s)))
}

/// The widest line of `text`, style escapes counted as they stand.
pub fn real_string_width(text: &Vec<char>) -> (r: usize)
    ensures
        r == max_line_width(lines_of(text@)),
{
    let lines = split_lines(text);
    max_width_of_lines(&lines)
}

/// The widest of `lines`, 0 where there is none.
pub fn max_width_of_lines(lines: &Vec<Vec<char>>) -> (r: usize)
    ensures
        r == max_line_width(views_of(lines@)),
{
    let mut m: usize = 0;
    let mut i: usize = 0;
    while i < lines.len()
        invariant
            i <= lines.len(),
            m == max_line_width(views_of(lines@).take(i as int)),
        decreases lines.len() - i,
    {
        let w = unicode_width(&lines[i]);
        assert(views_of(lines@).take(i + 1).drop_last() =~= views_of(lines@).take(i as int));
        if w > m {
            m = w;
        }
        i = i + 1;
    }
    assert(views_of(lines@).take(i as int) =~= views_of(lines@));
    m
}

/// The display width of `text`: its widest line once style escapes are
/// removed, measured by East Asian Width rules.
pub fn string_width(text: &str) -> (r: usize)
    ensures
        r == display_width(text@),
{
    let plain = strip_escapes(text);
    let chars = chars_of(plain.as_str());
    real_string_width(&chars)
}


/// What `ansi_str` keeps of a text once its escape sequences are dropped.
pub uninterp spec fn ansi_text_of(s: Seq<char>) -> Seq<char>;

/// What `ansi_str` cuts from a text: the first `end` bytes of its plain
/// text, with the escape sequences around them kept and closed.
pub uninterp spec fn ansi_cut_of(s: Seq<char>, end: usize) -> Seq<char>;

/// Relies on `ansi_str::AnsiStr::ansi_strip`: the text blocks of `s`
/// without its escape sequences.
#[verifier::external_body]
fn ansi_text(s: &str) -> (r: String)
    ensures
        r@ == ansi_text_of(s@),
{
    ansi_str::AnsiStr::ansi_strip(s)
}

/// Relies on `ansi_str::AnsiStr::ansi_cut` with the range `..end`: the
/// prefix of `s` whose plain text is `end` bytes long. It panics unless
/// `end` falls on a character boundary of the plain text.
#[verifier::external_body]
fn ansi_cut_to(s: &str, end: usize) -> (r: String)
    requires
        is_char_boundary(encode_utf8(ansi_text_of(s@)), end as int),
    ensures
        r@ == ansi_cut_of(s@, end),
{
    ansi_str::AnsiStr::ansi_cut(s, ..end)
}

/// The byte length of the first `width` characters of `s` (of all of them
/// where there are fewer).
pub open spec fn prefix_bytes(s: Seq<char>, width: nat) -> nat {
    let k = if width < s.len() { width } else { s.len() };
    (encode_utf8(s.take(k as int)).len() as usize) as nat
}

/// The byte length of the first `width` characters of `s`.
pub fn to_byte_length(s: &str, width: usize) -> (r: usize)
    ensures
        r == prefix_bytes(s@, width as nat),
{
    let n = s.unicode_len();
    let k = if width < n { width } else { n };
    let prefix = s.substring_char(0, k);
    proof {
        assert(prefix@ =~= s@.take(k as int));
    }
    prefix.len()
}

/// The largest character boundary of `bytes` at or below `e`.
pub open spec fn boundary_at_or_below(bytes: Seq<u8>, e: int) -> int
    decreases e,
{
    if e <= 0 {
        0
    } else if is_char_boundary(bytes, e) {
        e
    } else {
        boundary_at_or_below(bytes, e - 1)
    }
}

/// The number of leading characters of `p`, from `i` on, that are taken
/// while the prefix up to each of them is at most `width` columns wide.
pub open spec fn fitting_len(p: Seq<char>, width: nat, i: int) -> int
    decreases p.len() - i,
{
    if i < 0 || i >= p.len() {
        p.len() as int
    } else if unicode_width_of(p.take(i + 1)) > width {
        i
    } else {
        fitting_len(p, width, i + 1)
    }
}

/// `s` cut where its plain text stops fitting in `width` display columns;
/// escape sequences stay intact.
pub open spec fn truncated(s: Seq<char>, width: nat) -> Seq<char> {
    let plain_chars = ansi_text_of(s);
    let plain = encode_utf8(plain_chars);
    let n = (plain.len() as usize) as nat;
    let e = prefix_bytes(plain_chars, fitting_len(plain_chars, width, 0) as nat);
    let e2 = if e < n { e } else { n };
    ansi_cut_of(s, boundary_at_or_below(plain, e2 as int) as usize)
}

/// The prefix of `s` whose plain text is as many leading characters as
/// fit in `width` display columns, with its escape sequences kept whole.
pub fn strip(s: &str, width: usize) -> (r: String)
    ensures
        r@ == truncated(s@, width as nat),
{
    broadcast use vstd::utf8::encode_utf8_valid_utf8, vstd::utf8::is_char_boundary_start_end_of_seq;

    let plain = ansi_text(s);
    let text = plain.as_str();
    let chars = chars_of(text);
    let mut k: usize = 0;
    let mut prefix: Vec<char> = Vec::new();
    loop
        invariant_except_break
            prefix@ == chars@.take(k as int),
        invariant
            chars@ == ansi_text_of(s@),
            k <= chars@.len(),
            fitting_len(chars@, width as nat, 0) == fitting_len(chars@, width as nat, k as int),
        ensures
            k == fitting_len(chars@, width as nat, 0),
        decreases chars@.len() - k,
    {
        if k >= chars.len() {
            break;
        }
        prefix.push(chars[k]);
        assert(prefix@ =~= chars@.take(k + 1));
        if unicode_width(&prefix) > width {
            break;
        }
        k = k + 1;
    }
    assert(text@ == chars@);
    let e = to_byte_length(text, k);
    let n = text.len();
    let mut end = if e < n { e } else { n };
    let ghost bytes = encode_utf8(ansi_text_of(s@));
    let ghost e2 = end as int;
    assert(text.spec_bytes() == bytes);
    while end > 0 && !text.is_char_boundary(end)
        invariant
            text.spec_bytes() == bytes,
            end <= e2,
            boundary_at_or_below(bytes, e2) == boundary_at_or_below(bytes, end as int),
        decreases end,
    {
        end = end - 1;
    }
    proof {
        if end == 0 {
            assert(is_char_boundary(bytes, 0));
        }
    }
    ansi_cut_to(s, end)
}

} // verus!
