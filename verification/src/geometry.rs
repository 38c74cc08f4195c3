//! Window placement and its two-line text format.
//!
//! A placement is stored as two lines of text. The first line holds the
//! position: the keyword `default`, the keyword `centered`, or `x, y` in
//! pixels. The second line holds the size as `width, height`. Reading is
//! best-effort: missing or malformed parts fall back to the default
//! placement, and reading never fails.
//!
//! The reader maps the keyword `default` to [`Position::Centered`] and the
//! keyword `centered` to [`Position::OsDefault`] — the opposite of what the
//! writer emits for those variants. The mismatch is deliberate here: it is
//! the observed behaviour of the format as it exists on disk, kept rather
//! than silently corrected. [`lemma_save_load`] states the exact effect.

use vstd::prelude::*;

use crate::numtext::int_chars;
use crate::numtext::is_dec_digit;
use crate::numtext::lemma_int_chars_shape;
use crate::numtext::lemma_parse_int_chars;
use crate::numtext::push_i32;
use crate::scan::char_ci_eq;
use crate::scan::eq_ignore_ascii;
use crate::scan::lemma_find_nl_is;
use crate::scan::lemma_find_nl_none_of;
use crate::scan::lemma_find_sep_is;
use crate::scan::lemma_find_sep_none_of;
use crate::scan::nl_at;
use crate::scan::parse_pair;
use crate::scan::sep_at;
use crate::scan::spec_line1;
use crate::scan::spec_line2;
use crate::scan::spec_pair;
use crate::scan::split_fields;
use crate::scan::parsed_ints;
use crate::scan::split_two_lines;
use crate::scan::str_eq_ignore_ascii;
use crate::scan::strip_cr;

verus! {

/// Where a window stands on screen when it opens.
#[derive(Clone, Copy, PartialEq, Eq, Structural, Debug)]
pub enum Position {
    /// Placement is left to the platform.
    OsDefault,
    /// Centered on the active monitor.
    Centered,
    /// Opened at the given coordinates, in pixels.
    Specific(i32, i32),
}

/// A window's placement: its position, and its size in whole pixels.
#[derive(Clone, Copy, PartialEq, Eq, Structural, Debug)]
pub struct WindowPos {
    pub pos: Position,
    pub width: i32,
    pub height: i32,
}

/// The placement used when no stored geometry can be read.
pub open spec fn default_placement() -> WindowPos {
    WindowPos { pos: Position::Centered, width: 800, height: 600 }
}

impl Default for WindowPos {
    fn default() -> (r: Self)
        ensures
            r == default_placement(),
    {
        WindowPos { pos: Position::Centered, width: 800, height: 600 }
    }
}

/// The keyword written for the platform-default position.
pub open spec fn word_default() -> Seq<char> {
    seq!['d', 'e', 'f', 'a', 'u', 'l', 't']
}

/// The keyword written for the centered position.
pub open spec fn word_centered() -> Seq<char> {
    seq!['c', 'e', 'n', 't', 'e', 'r', 'e', 'd']
}

/// A line of two numbers separated by `", "`.
pub open spec fn pair_line(a: int, b: int) -> Seq<char> {
    int_chars(a) + seq![',', ' '] + int_chars(b)
}

/// The first line written for a position.
pub open spec fn spec_position_line(pos: Position) -> Seq<char> {
    match pos {
        Position::OsDefault => word_default(),
        Position::Centered => word_centered(),
        Position::Specific(x, y) => pair_line(x as int, y as int),
    }
}

/// The whole text written for a placement: the position line, a newline,
/// then `width, height`.
pub open spec fn spec_save(p: WindowPos) -> Seq<char> {
    spec_position_line(p.pos) + seq!['\n'] + pair_line(p.width as int, p.height as int)
}

/// What the first stored line decodes to. Each keyword decodes to the
/// opposite variant from the one it is written for; any other line is read
/// as `x, y`, and a line that is no position at all falls back to
/// [`Position::Centered`].
pub open spec fn spec_decode_position(l: Seq<char>) -> Position {
    if eq_ignore_ascii(l, word_default()) {
        Position::Centered
    } else if eq_ignore_ascii(l, word_centered()) {
        Position::OsDefault
    } else {
        match spec_pair(l) {
            Some(xy) => Position::Specific(xy.0, xy.1),
            None => Position::Centered,
        }
    }
}

/// The placement read back from stored text. An empty text is the default
/// placement; a missing or malformed size line keeps the decoded position
/// and falls back to the default size.
pub open spec fn spec_load(s: Seq<char>) -> WindowPos {
    if s.len() == 0 {
        default_placement()
    } else {
        let pos = spec_decode_position(spec_line1(s));
        let size = match spec_line2(s) {
            Some(l2) => spec_pair(l2),
            None => None,
        };
        match size {
            Some(wh) => WindowPos { pos, width: wh.0, height: wh.1 },
            None => WindowPos { pos, width: 800, height: 600 },
        }
    }
}

impl WindowPos {
    /// Write this placement in the two-line stored format.
    pub fn save(&self) -> (r: String)
        ensures
            r@ == spec_save(*self),
    {
        proof {
            reveal_strlit("default");
            reveal_strlit("centered");
            reveal_strlit("\n");
            reveal_strlit(", ");
        }
        let mut out = String::new();
        match self.pos {
            Position::OsDefault => {
                out.append("default");
                assert(out@ =~= spec_position_line(self.pos));
            },
            Position::Centered => {
                out.append("centered");
                assert(out@ =~= spec_position_line(self.pos));
            },
            Position::Specific(x, y) => {
                push_i32(&mut out, x);
                out.append(", ");
                push_i32(&mut out, y);
                assert(out@ =~= spec_position_line(self.pos));
            },
        }
        out.append("\n");
        push_i32(&mut out, self.width);
        out.append(", ");
        push_i32(&mut out, self.height);
        assert(out@ =~= spec_save(*self));
        out
    }

    /// Read a placement back from stored text, falling back to defaults for
    /// whatever cannot be read.
    pub fn load(data: &str) -> (r: WindowPos)
        ensures
            r == spec_load(data@),
    {
        if data.unicode_len() == 0 {
            return WindowPos { pos: Position::Centered, width: 800, height: 600 };
        }
        let (l1, l2) = split_two_lines(data);
        let pos = decode_position(l1);
        let size = match l2 {
            Some(line) => parse_pair(line),
            None => None,
        };
        match size {
            Some(wh) => WindowPos { pos, width: wh.0, height: wh.1 },
            None => WindowPos { pos, width: 800, height: 600 },
        }
    }
}

/// A character that is neither a newline nor a carriage return.
pub open spec fn no_nl_cr(c: char) -> bool {
    c != '\n' && c != '\r'
}

/// A lower-case ASCII letter.
spec fn plain_letter(c: char) -> bool {
    97 <= c as u32 && c as u32 <= 122
}

/// Both keywords consist of lower-case ASCII letters only.
proof fn lemma_word_chars()
    ensures
        forall|j: int| 0 <= j < word_default().len() ==> plain_letter(#[trigger] word_default()[j]),
        forall|j: int|
            0 <= j < word_centered().len() ==> plain_letter(#[trigger] word_centered()[j]),
{
    let wd = word_default();
    let wc = word_centered();
    assert(wd[0] == 'd' && wd[1] == 'e' && wd[2] == 'f' && wd[3] == 'a' && wd[4] == 'u' && wd[5]
        == 'l' && wd[6] == 't');
    assert(wc[0] == 'c' && wc[1] == 'e' && wc[2] == 'n' && wc[3] == 't' && wc[4] == 'e' && wc[5]
        == 'r' && wc[6] == 'e' && wc[7] == 'd');
    assert('a' as u32 == 97 && 'c' as u32 == 99 && 'd' as u32 == 100 && 'e' as u32 == 101 && 'f'
        as u32 == 102 && 'l' as u32 == 108 && 'n' as u32 == 110 && 'r' as u32 == 114 && 't' as u32
        == 116 && 'u' as u32 == 117);
    assert forall|j: int| 0 <= j < wd.len() implies plain_letter(wd[j]) by {
        assert(j == 0 || j == 1 || j == 2 || j == 3 || j == 4 || j == 5 || j == 6);
    }
    assert forall|j: int| 0 <= j < wc.len() implies plain_letter(wc[j]) by {
        assert(j == 0 || j == 1 || j == 2 || j == 3 || j == 4 || j == 5 || j == 6 || j == 7);
    }
}

/// A pair line parses back to its two numbers, and contains neither a
/// newline nor a carriage return; it begins with a digit or a minus sign
/// and ends with a digit.
proof fn lemma_pair_line(a: i32, b: i32)
    ensures
        spec_pair(pair_line(a as int, b as int)) == Some((a, b)),
        pair_line(a as int, b as int).len() >= 3,
        forall|j: int|
            0 <= j < pair_line(a as int, b as int).len() ==> no_nl_cr(
                #[trigger] pair_line(a as int, b as int)[j],
            ),
        is_dec_digit(pair_line(a as int, b as int)[0]) || pair_line(a as int, b as int)[0] == '-',
        is_dec_digit(pair_line(a as int, b as int).last()),
{
    let ia = int_chars(a as int);
    let ib = int_chars(b as int);
    let line = pair_line(a as int, b as int);
    let la = ia.len() as int;
    lemma_int_chars_shape(a as int);
    lemma_int_chars_shape(b as int);
    lemma_parse_int_chars(a as int);
    lemma_parse_int_chars(b as int);
    assert(line.len() == la + 2 + ib.len());
    assert(forall|j: int| 0 <= j < la ==> line[j] == #[trigger] ia[j]);
    assert(line[la] == ',' && line[la + 1] == ' ');
    assert(forall|j: int| la + 2 <= j < line.len() ==> line[j] == #[trigger] ib[j - la - 2]);

    // The separator the splitter finds is the one between the numbers.
    assert(sep_at(line, la));
    assert forall|j: int| 0 <= j < la implies !sep_at(line, j) by {
        assert(line[j] == ia[j]);
        assert(is_dec_digit(ia[j]) || ia[j] == '-');
        assert(',' as u32 == 44 && '-' as u32 == 45);
    }
    lemma_find_sep_is(line, la);

    // The two fields are exactly the two numbers.
    assert(line.take(la) =~= ia);
    assert(line.skip(la + 2) =~= ib);
    assert forall|j: int| 0 <= j < ib.len() implies ib[j] != ',' by {
        assert(is_dec_digit(ib[j]) || ib[j] == '-');
        assert(',' as u32 == 44 && '-' as u32 == 45);
    }
    lemma_find_sep_none_of(ib);
    assert(split_fields(ib) == seq![ib]);
    assert(split_fields(line) == seq![ia] + split_fields(ib));
    let fields = seq![ia] + seq![ib];
    assert(split_fields(line) == fields);
    assert(fields[0] == ia);
    assert(fields.drop_first() =~= seq![ib]);
    assert(seq![ib].drop_first() =~= Seq::<Seq<char>>::empty());
    assert(parsed_ints(Seq::<Seq<char>>::empty()) == Seq::<i32>::empty());
    assert(parsed_ints(seq![ib]) =~= seq![b]);
    assert(parsed_ints(fields) =~= seq![a, b]);
    assert(spec_pair(line) == Some((a, b)));

    // Character shape.
    assert forall|j: int| 0 <= j < line.len() implies no_nl_cr(line[j]) by {
        assert('\n' as u32 == 10 && '\r' as u32 == 13 && ',' as u32 == 44 && ' ' as u32 == 32
            && '-' as u32 == 45);
        if j < la {
            assert(line[j] == ia[j]);
            assert(is_dec_digit(ia[j]) || ia[j] == '-');
        } else if j >= la + 2 {
            assert(line[j] == ib[j - la - 2]);
            assert(is_dec_digit(ib[j - la - 2]) || ib[j - la - 2] == '-');
        }
    }
    assert(line[0] == ia[0]);
    assert(line.last() == ib.last());
}

/// The position variant one store-and-reload cycle shows: the two keyword
/// positions trade places, a specific position is kept as it is.
pub open spec fn quirk_position(pos: Position) -> Position {
    match pos {
        Position::OsDefault => Position::Centered,
        Position::Centered => Position::OsDefault,
        Position::Specific(x, y) => Position::Specific(x, y),
    }
}

/// Loading a saved placement reproduces the size exactly, and reproduces
/// the position through `quirk_position`: a specific position comes back
/// unchanged, while the two keyword positions trade places.
pub proof fn lemma_save_load(p: WindowPos)
    ensures
        spec_load(spec_save(p)) == (WindowPos {
            pos: quirk_position(p.pos),
            width: p.width,
            height: p.height,
        }),
{
    let line1 = spec_position_line(p.pos);
    let line2 = pair_line(p.width as int, p.height as int);
    let s = spec_save(p);
    let n1 = line1.len() as int;
    lemma_pair_line(p.width, p.height);
    lemma_word_chars();

    // The first line never holds a newline or carriage return, and never
    // ends in one.
    assert forall|j: int| 0 <= j < n1 implies no_nl_cr(line1[j]) by {
        assert('\n' as u32 == 10 && '\r' as u32 == 13);
        match p.pos {
            Position::OsDefault => {
                assert(plain_letter(word_default()[j]));
            },
            Position::Centered => {
                assert(plain_letter(word_centered()[j]));
            },
            Position::Specific(x, y) => {
                lemma_pair_line(x, y);
            },
        }
    }
    assert(n1 >= 1) by {
        match p.pos {
            Position::OsDefault => {},
            Position::Centered => {},
            Position::Specific(x, y) => {
                lemma_pair_line(x, y);
            },
        }
    }

    // The text splits at the newline between the two lines.
    assert(s.len() == n1 + 1 + line2.len());
    assert(forall|j: int| 0 <= j < n1 ==> s[j] == #[trigger] line1[j]);
    assert(s[n1] == '\n');
    assert(forall|j: int| n1 + 1 <= j < s.len() ==> s[j] == #[trigger] line2[j - n1 - 1]);
    assert(nl_at(s, n1));
    assert forall|j: int| 0 <= j < n1 implies !nl_at(s, j) by {
        assert(s[j] == line1[j]);
        assert(no_nl_cr(line1[j]));
    }
    lemma_find_nl_is(s, n1);

    // The first line comes back whole.
    assert(s.take(n1) =~= line1);
    assert(line1.last() != '\r') by {
        assert(no_nl_cr(line1[n1 - 1]));
    }
    assert(strip_cr(line1) == line1);
    assert(spec_line1(s) == line1);

    // The second line comes back whole, and is the size pair.
    let rest = s.skip(n1 + 1);
    assert(rest =~= line2);
    assert(rest.len() > 0);
    assert forall|j: int| 0 <= j < line2.len() implies line2[j] != '\n' by {
        assert(no_nl_cr(line2[j]));
    }
    lemma_find_nl_none_of(line2);
    assert(line2.last() != '\r') by {
        assert('\r' as u32 == 13);
        assert(is_dec_digit(line2.last()));
    }
    assert(strip_cr(line2) == line2);
    assert(spec_line1(line2) == line2);
    assert(spec_line2(s) == Some(line2));
    assert(spec_pair(line2) == Some((p.width, p.height)));

    // The position line decodes to the quirk of the saved position.
    assert('c' as u32 == 99 && 'd' as u32 == 100);
    match p.pos {
        Position::OsDefault => {
            assert forall|i: int| 0 <= i < word_default().len() implies char_ci_eq(
                word_default()[i],
                word_default()[i],
            ) by {}
            assert(eq_ignore_ascii(line1, word_default()));
            assert(spec_decode_position(line1) == Position::Centered);
        },
        Position::Centered => {
            assert(word_centered().len() != word_default().len());
            assert(!eq_ignore_ascii(line1, word_default()));
            assert forall|i: int| 0 <= i < word_centered().len() implies char_ci_eq(
                word_centered()[i],
                word_centered()[i],
            ) by {}
            assert(eq_ignore_ascii(line1, word_centered()));
            assert(spec_decode_position(line1) == Position::OsDefault);
        },
        Position::Specific(x, y) => {
            lemma_pair_line(x, y);
            assert(is_dec_digit(line1[0]) || line1[0] == '-');
            assert(line1[0] as u32 <= 57) by {
                assert('-' as u32 == 45);
            }
            if eq_ignore_ascii(line1, word_default()) {
                assert(char_ci_eq(line1[0], word_default()[0]));
                assert(word_default()[0] == 'd');
                assert(false);
            }
            if eq_ignore_ascii(line1, word_centered()) {
                assert(char_ci_eq(line1[0], word_centered()[0]));
                assert(word_centered()[0] == 'c');
                assert(false);
            }
            assert(spec_pair(line1) == Some((x, y)));
            assert(spec_decode_position(line1) == Position::Specific(x, y));
        },
    }
    assert(spec_load(s) == WindowPos {
        pos: quirk_position(p.pos),
        width: p.width,
        height: p.height,
    });
}

/// Decode the first stored line into a position.
fn decode_position(l: &str) -> (r: Position)
    ensures
        r == spec_decode_position(l@),
{
    proof {
        reveal_strlit("default");
        reveal_strlit("centered");
        assert(("default")@ =~= word_default());
        assert(("centered")@ =~= word_centered());
    }
    if str_eq_ignore_ascii(l, "default") {
        Position::Centered
    } else if str_eq_ignore_ascii(l, "centered") {
        Position::OsDefault
    } else {
        match parse_pair(l) {
            Some(xy) => Position::Specific(xy.0, xy.1),
            None => Position::Centered,
        }
    }
}

} // verus!
