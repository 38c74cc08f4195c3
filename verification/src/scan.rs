//! Scanning helpers for the two-line geometry format.
//!
//! A stored geometry is lines separated by `'\n'`, each line holding either a
//! keyword or fields separated by `", "`. This module finds those separators,
//! splits a line into its fields, picks out the numbers among them, and
//! compares keywords without regard to ASCII case.

use vstd::prelude::*;

use crate::numtext::spec_parse_i32;
use crate::numtext::parse_i32;

verus! {

// ---------------------------------------------------------------------------
// Case-insensitive keyword comparison
// ---------------------------------------------------------------------------
/// ASCII lower-casing of one character code.
pub open spec fn lower_code(u: u32) -> u32 {
    if 65 <= u && u <= 90 {
        (u + 32) as u32
    } else {
        u
    }
}

/// Two characters are equal up to ASCII case.
pub open spec fn char_ci_eq(x: char, y: char) -> bool {
    lower_code(x as u32) == lower_code(y as u32)
}

/// Two texts are equal up to ASCII case.
pub open spec fn eq_ignore_ascii(a: Seq<char>, b: Seq<char>) -> bool {
    &&& a.len() == b.len()
    &&& forall|i: int| 0 <= i < a.len() ==> #[trigger] char_ci_eq(a[i], b[i])
}

/// Compare two texts without regard to ASCII case.
pub fn str_eq_ignore_ascii(a: &str, b: &str) -> (r: bool)
    ensures
        r == eq_ignore_ascii(a@, b@),
{
    let la: usize = a.unicode_len();
    let lb: usize = b.unicode_len();
    if la != lb {
        return false;
    }
    let mut i: usize = 0;
    while i < la
        invariant
            0 <= i <= la,
            la == a@.len(),
            la == b@.len(),
            forall|j: int| 0 <= j < i ==> #[trigger] char_ci_eq(a@[j], b@[j]),
        decreases la - i,
    {
        let ca: u32 = a.get_char(i) as u32;
        let cb: u32 = b.get_char(i) as u32;
        let fa: u32 = if 65 <= ca && ca <= 90 {
            ca + 32
        } else {
            ca
        };
        let fb: u32 = if 65 <= cb && cb <= 90 {
            cb + 32
        } else {
            cb
        };
        if fa != fb {
            assert(!char_ci_eq(a@[i as int], b@[i as int]));
            return false;
        }
        assert(char_ci_eq(a@[i as int], b@[i as int]));
        i = i + 1;
    }
    true
}

// ---------------------------------------------------------------------------
// Finding separators
// ---------------------------------------------------------------------------
/// Is the field separator `", "` at position `j` of `s`?
pub open spec fn sep_at(s: Seq<char>, j: int) -> bool {
    0 <= j && j + 2 <= s.len() && s[j] == ',' && s[j + 1] == ' '
}

/// The first place where `", "` stands in `s`, if any.
pub open spec fn find_sep(s: Seq<char>) -> Option<int>
    decreases s.len(),
{
    if s.len() < 2 {
        None
    } else if s[0] == ',' && s[1] == ' ' {
        Some(0)
    } else {
        match find_sep(s.drop_first()) {
            Some(i) => Some(i + 1),
            None => None,
        }
    }
}

/// `find_sep` returns the first separator position, or `None` when the text
/// has none.
pub proof fn lemma_find_sep_spec(s: Seq<char>)
    ensures
        match find_sep(s) {
            Some(i) => sep_at(s, i) && forall|j: int| 0 <= j < i ==> !sep_at(s, j),
            None => forall|j: int| !sep_at(s, j),
        },
    decreases s.len(),
{
    if s.len() < 2 {
        assert(forall|j: int| !sep_at(s, j));
    } else if s[0] == ',' && s[1] == ' ' {
    } else {
        let t = s.drop_first();
        lemma_find_sep_spec(t);
        match find_sep(t) {
            Some(i) => {
                assert(find_sep(s) == Some(i + 1));
                assert(sep_at(s, i + 1)) by {
                    assert(sep_at(t, i));
                    assert(s[i + 1] == t[i] && s[i + 2] == t[i + 1]);
                }
                assert forall|j: int| 0 <= j < i + 1 implies !sep_at(s, j) by {
                    if j > 0 {
                        assert(!sep_at(t, j - 1));
                        if sep_at(s, j) {
                            assert(t[j - 1] == s[j] && t[j] == s[j + 1]);
                            assert(sep_at(t, j - 1));
                        }
                    }
                }
            },
            None => {
                assert forall|j: int| !sep_at(s, j) by {
                    if 1 <= j && j + 2 <= s.len() {
                        assert(!sep_at(t, j - 1));
                        if sep_at(s, j) {
                            assert(t[j - 1] == s[j] && t[j] == s[j + 1]);
                            assert(sep_at(t, j - 1));
                        }
                    }
                }
            },
        }
    }
}

/// Find the first `", "` in `s`.
pub fn find_sep_at(s: &str) -> (r: Option<usize>)
    ensures
        match r {
            Some(u) => find_sep(s@) == Some(u as int),
            None => find_sep(s@) is None,
        },
{
    let len: usize = s.unicode_len();
    if len < 2 {
        return None;
    }
    let mut i: usize = 0;
    while i + 1 < len
        invariant
            0 <= i < len,
            2 <= len,
            len == s@.len(),
            forall|j: int| 0 <= j < i ==> !sep_at(s@, j),
        decreases len - i,
    {
        if s.get_char(i) == ',' && s.get_char(i + 1) == ' ' {
            proof {
                lemma_find_sep_spec(s@);
                assert(sep_at(s@, i as int));
                match find_sep(s@) {
                    Some(k) => {
                        if k < i {
                            assert(!sep_at(s@, k));
                        } else if k > i {
                            assert(!sep_at(s@, i as int));
                        }
                    },
                    None => {
                        assert(!sep_at(s@, i as int));
                    },
                }
            }
            return Some(i);
        }
        assert(!sep_at(s@, i as int));
        i = i + 1;
    }
    proof {
        lemma_find_sep_spec(s@);
        match find_sep(s@) {
            Some(k) => {
                assert(sep_at(s@, k));
                assert(k < i);
                assert(!sep_at(s@, k));
            },
            None => {},
        }
    }
    None
}

/// A position that carries the first `", "` of `s` is the one `find_sep`
/// returns.
pub proof fn lemma_find_sep_is(s: Seq<char>, i: int)
    requires
        sep_at(s, i),
        forall|j: int| 0 <= j < i ==> !sep_at(s, j),
    ensures
        find_sep(s) == Some(i),
{
    lemma_find_sep_spec(s);
    match find_sep(s) {
        Some(k) => {
            if k < i {
                assert(!sep_at(s, k));
            } else if k > i {
                assert(!sep_at(s, i));
            }
        },
        None => {
            assert(!sep_at(s, i));
        },
    }
}

/// A text without a comma has no `", "` separator.
pub proof fn lemma_find_sep_none_of(s: Seq<char>)
    requires
        forall|j: int| 0 <= j < s.len() ==> s[j] != ',',
    ensures
        find_sep(s) is None,
{
    lemma_find_sep_spec(s);
    match find_sep(s) {
        Some(k) => {
            assert(sep_at(s, k));
            assert(s[k] != ',');
        },
        None => {},
    }
}

/// Is a newline at position `j` of `s`?
pub open spec fn nl_at(s: Seq<char>, j: int) -> bool {
    0 <= j < s.len() && s[j] == '\n'
}

/// The first newline in `s`, if any.
pub open spec fn find_nl(s: Seq<char>) -> Option<int>
    decreases s.len(),
{
    if s.len() == 0 {
        None
    } else if s[0] == '\n' {
        Some(0)
    } else {
        match find_nl(s.drop_first()) {
            Some(i) => Some(i + 1),
            None => None,
        }
    }
}

/// `find_nl` returns the first newline position, or `None` when the text has
/// none.
pub proof fn lemma_find_nl_spec(s: Seq<char>)
    ensures
        match find_nl(s) {
            Some(i) => nl_at(s, i) && forall|j: int| 0 <= j < i ==> !nl_at(s, j),
            None => forall|j: int| !nl_at(s, j),
        },
    decreases s.len(),
{
    if s.len() == 0 {
        assert(forall|j: int| !nl_at(s, j));
    } else if s[0] == '\n' {
    } else {
        let t = s.drop_first();
        lemma_find_nl_spec(t);
        match find_nl(t) {
            Some(i) => {
                assert(find_nl(s) == Some(i + 1));
                assert(nl_at(s, i + 1)) by {
                    assert(nl_at(t, i));
                    assert(s[i + 1] == t[i]);
                }
                assert forall|j: int| 0 <= j < i + 1 implies !nl_at(s, j) by {
                    if j > 0 {
                        assert(!nl_at(t, j - 1));
                        if nl_at(s, j) {
                            assert(t[j - 1] == s[j]);
                            assert(nl_at(t, j - 1));
                        }
                    }
                }
            },
            None => {
                assert forall|j: int| !nl_at(s, j) by {
                    if 1 <= j && j < s.len() {
                        assert(!nl_at(t, j - 1));
                        if nl_at(s, j) {
                            assert(t[j - 1] == s[j]);
                            assert(nl_at(t, j - 1));
                        }
                    }
                }
            },
        }
    }
}

/// A position that carries the first newline of `s` is the one `find_nl`
/// returns.
pub proof fn lemma_find_nl_is(s: Seq<char>, i: int)
    requires
        nl_at(s, i),
        forall|j: int| 0 <= j < i ==> !nl_at(s, j),
    ensures
        find_nl(s) == Some(i),
{
    lemma_find_nl_spec(s);
    match find_nl(s) {
        Some(k) => {
            if k < i {
                assert(!nl_at(s, k));
            } else if k > i {
                assert(!nl_at(s, i));
            }
        },
        None => {
            assert(!nl_at(s, i));
        },
    }
}

/// A text without a newline character has no line break.
pub proof fn lemma_find_nl_none_of(s: Seq<char>)
    requires
        forall|j: int| 0 <= j < s.len() ==> s[j] != '\n',
    ensures
        find_nl(s) is None,
{
    lemma_find_nl_spec(s);
    match find_nl(s) {
        Some(k) => {
            assert(nl_at(s, k));
            assert(s[k] != '\n');
        },
        None => {},
    }
}

/// Find the first newline in `s`.
pub fn find_nl_at(s: &str) -> (r: Option<usize>)
    ensures
        match r {
            Some(u) => find_nl(s@) == Some(u as int),
            None => find_nl(s@) is None,
        },
{
    let len: usize = s.unicode_len();
    let mut i: usize = 0;
    while i < len
        invariant
            0 <= i <= len,
            len == s@.len(),
            forall|j: int| 0 <= j < i ==> !nl_at(s@, j),
        decreases len - i,
    {
        if s.get_char(i) == '\n' {
            proof {
                lemma_find_nl_spec(s@);
                assert(nl_at(s@, i as int));
                match find_nl(s@) {
                    Some(k) => {
                        if k < i {
                            assert(!nl_at(s@, k));
                        } else if k > i {
                            assert(!nl_at(s@, i as int));
                        }
                    },
                    None => {
                        assert(!nl_at(s@, i as int));
                    },
                }
            }
            return Some(i);
        }
        assert(!nl_at(s@, i as int));
        i = i + 1;
    }
    proof {
        lemma_find_nl_spec(s@);
        match find_nl(s@) {
            Some(k) => {
                assert(nl_at(s@, k));
                assert(!nl_at(s@, k));
            },
            None => {},
        }
    }
    None
}

// ---------------------------------------------------------------------------
// Fields of a line, and the numbers among them
// ---------------------------------------------------------------------------
/// The fields of a line, split at every `", "`; a trailing separator yields
/// no empty last field.
pub open spec fn split_fields(s: Seq<char>) -> Seq<Seq<char>>
    decreases s.len(),
{
    if s.len() == 0 {
        Seq::empty()
    } else {
        match find_sep(s) {
            None => seq![s],
            Some(i) => if 0 <= i && i + 2 <= s.len() {
                seq![s.take(i)] + split_fields(s.skip(i + 2))
            } else {
                seq![s]
            },
        }
    }
}

/// The numbers among the fields, in order; a field that is no number is
/// passed over.
pub open spec fn parsed_ints(fields: Seq<Seq<char>>) -> Seq<i32>
    decreases fields.len(),
{
    if fields.len() == 0 {
        Seq::empty()
    } else {
        match spec_parse_i32(fields[0]) {
            Some(v) => seq![v] + parsed_ints(fields.drop_first()),
            None => parsed_ints(fields.drop_first()),
        }
    }
}

/// The pair a line denotes: its first two numeric fields.
pub open spec fn spec_pair(s: Seq<char>) -> Option<(i32, i32)> {
    let vs = parsed_ints(split_fields(s));
    if vs.len() >= 2 {
        Some((vs[0], vs[1]))
    } else {
        None
    }
}

/// Collect the numbers among the fields of `s`, in order.
fn line_ints(s: &str) -> (r: Vec<i32>)
    ensures
        r@ == parsed_ints(split_fields(s@)),
    decreases s@.len(),
{
    let len: usize = s.unicode_len();
    if len == 0 {
        let r: Vec<i32> = Vec::new();
        assert(r@ =~= parsed_ints(split_fields(s@)));
        return r;
    }
    proof {
        lemma_find_sep_spec(s@);
    }
    match find_sep_at(s) {
        None => {
            let mut r: Vec<i32> = Vec::new();
            match parse_i32(s) {
                Some(x) => {
                    r.push(x);
                },
                None => {},
            }
            proof {
                assert(split_fields(s@) == seq![s@]);
                let fields = seq![s@];
                assert(fields.drop_first() =~= Seq::<Seq<char>>::empty());
                assert(parsed_ints(Seq::<Seq<char>>::empty()) == Seq::<i32>::empty());
                match spec_parse_i32(s@) {
                    Some(v) => {
                        assert(parsed_ints(fields) =~= seq![v]);
                    },
                    None => {
                        assert(parsed_ints(fields) =~= Seq::<i32>::empty());
                    },
                }
                assert(r@ =~= parsed_ints(split_fields(s@)));
            }
            r
        },
        Some(i) => {
            assert(sep_at(s@, i as int));
            let head = s.substring_char(0, i);
            let rest = s.substring_char(i + 2, len);
            let mut r: Vec<i32> = Vec::new();
            match parse_i32(head) {
                Some(x) => {
                    r.push(x);
                },
                None => {},
            }
            let mut tail = line_ints(rest);
            let ghost tail0 = tail@;
            r.append(&mut tail);
            proof {
                assert(head@ =~= s@.take(i as int));
                assert(rest@ =~= s@.skip(i as int + 2));
                let fields = seq![s@.take(i as int)] + split_fields(s@.skip(i as int + 2));
                assert(split_fields(s@) == fields);
                assert(fields[0] == head@);
                assert(fields.drop_first() =~= split_fields(rest@));
                assert(tail0 == parsed_ints(fields.drop_first()));
                match spec_parse_i32(head@) {
                    Some(v) => {
                        assert(parsed_ints(fields) == seq![v] + parsed_ints(fields.drop_first()));
                        assert(r@ =~= seq![v] + tail0);
                    },
                    None => {
                        assert(parsed_ints(fields) == parsed_ints(fields.drop_first()));
                        assert(r@ =~= tail0);
                    },
                }
                assert(r@ =~= parsed_ints(split_fields(s@)));
            }
            r
        },
    }
}

/// The first two numeric fields of a line, if it has two.
pub fn parse_pair(s: &str) -> (r: Option<(i32, i32)>)
    ensures
        r == spec_pair(s@),
{
    let vs = line_ints(s);
    if vs.len() >= 2 {
        Some((vs[0], vs[1]))
    } else {
        None
    }
}

// ---------------------------------------------------------------------------
// Lines
// ---------------------------------------------------------------------------
/// Drop one trailing carriage return, as reading lines of text does.
pub open spec fn strip_cr(l: Seq<char>) -> Seq<char> {
    if l.len() > 0 && l.last() == '\r' {
        l.drop_last()
    } else {
        l
    }
}

/// The first line of a text: everything before the first newline.
pub open spec fn spec_line1(s: Seq<char>) -> Seq<char> {
    match find_nl(s) {
        None => strip_cr(s),
        Some(i) => strip_cr(s.take(i)),
    }
}

/// The second line of a text, where it has one.
pub open spec fn spec_line2(s: Seq<char>) -> Option<Seq<char>> {
    match find_nl(s) {
        None => None,
        Some(i) => {
            let rest = s.skip(i + 1);
            if rest.len() == 0 {
                None
            } else {
                Some(spec_line1(rest))
            }
        },
    }
}

/// Drop one trailing carriage return from `l`.
fn strip_cr_str<'a>(l: &'a str) -> (r: &'a str)
    ensures
        r@ == strip_cr(l@),
{
    let n: usize = l.unicode_len();
    if n > 0 && l.get_char(n - 1) == '\r' {
        let r = l.substring_char(0, n - 1);
        assert(r@ =~= strip_cr(l@));
        r
    } else {
        l
    }
}

/// The first line of `s`, and its second line where it has one.
pub fn split_two_lines<'a>(s: &'a str) -> (r: (&'a str, Option<&'a str>))
    ensures
        r.0@ == spec_line1(s@),
        match r.1 {
            Some(l2) => spec_line2(s@) == Some(l2@),
            None => spec_line2(s@) is None,
        },
{
    proof {
        lemma_find_nl_spec(s@);
    }
    let len: usize = s.unicode_len();
    match find_nl_at(s) {
        None => (strip_cr_str(s), None),
        Some(i) => {
            assert(nl_at(s@, i as int));
            let head = s.substring_char(0, i);
            let l1 = strip_cr_str(head);
            assert(l1@ == spec_line1(s@));
            let rest = s.substring_char(i + 1, len);
            assert(rest@ =~= s@.skip(i as int + 1));
            if rest.unicode_len() == 0 {
                (l1, None)
            } else {
                proof {
                    lemma_find_nl_spec(rest@);
                }
                let l2 = match find_nl_at(rest) {
                    None => strip_cr_str(rest),
                    Some(j) => {
                        assert(nl_at(rest@, j as int));
                        strip_cr_str(rest.substring_char(0, j))
                    },
                };
                assert(spec_line2(s@) == Some(l2@));
                (l1, Some(l2))
            }
        },
    }
}

} // verus!
