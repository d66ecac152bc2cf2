//! The NZB metadata parser: a state machine over the XML event stream
//! that drives the file and segment builders and emits the ordered list
//! of file records.

use vstd::prelude::*;
use vstd::string::StrSliceExecFns;
use vstd::string::StringExecFns;

use crate::entities::NzbFile;
use crate::entities::NzbFileBuilder;
use crate::entities::NzbFileBuilderModel;
use crate::entities::NzbFileModel;
use crate::entities::SegmentBuilder;
use crate::entities::SegmentBuilderModel;
use crate::entities::SegmentModel;
use crate::errors::ParseError;
use crate::xml::Token;
use crate::xml::TokenModel;
use crate::xml::XmlAttr;
use crate::xml::XmlAttrModel;
use crate::xml::XmlEvent;
use crate::xml::XmlEventModel;

verus! {

/// The least index at or after `from` holding character `c`, if any.
pub open spec fn find_char(s: Seq<char>, from: int, c: char) -> Option<int>
    decreases s.len() - from,
{
    if from < 0 || from >= s.len() {
        None
    } else if s[from] == c {
        Some(from)
    } else {
        find_char(s, from + 1, c)
    }
}

/// The substring between the first pair of double-quote characters, if
/// the string holds at least two of them.
pub open spec fn extract_quoted_spec(s: Seq<char>) -> Option<Seq<char>> {
    match find_char(s, 0, '"') {
        None => None,
        Some(q1) => match find_char(s, q1 + 1, '"') {
            None => None,
            Some(q2) => Some(s.subrange(q1 + 1, q2)),
        },
    }
}

/// Scans forward from `from` for character `c`, returning its least index.
fn scan_char(s: &str, from: usize, c: char) -> (r: Option<usize>)
    requires
        from <= s@.len(),
    ensures
        match r {
            Some(j) => find_char(s@, from as int, c) == Some(j as int) && from <= j < s@.len()
                && j < usize::MAX,
            None => find_char(s@, from as int, c) is None,
        },
{
    let n = s.unicode_len();
    let mut j = from;
    while j < n && s.get_char(j) != c
        invariant
            from <= j <= n == s@.len(),
            find_char(s@, from as int, c) == find_char(s@, j as int, c),
        decreases n - j,
    {
        j = j + 1;
    }
    if j < n {
        Some(j)
    } else {
        None
    }
}

/// Extracts the substring between the first pair of double quotes, the
/// form in which a filename stands inside a subject attribute. Returns
/// `None` exactly when the string holds fewer than two double quotes.
pub fn extract_quoted(s: &str) -> (r: Option<String>)
    ensures
        match r {
            Some(f) => extract_quoted_spec(s@) == Some(f@),
            None => extract_quoted_spec(s@) is None,
        },
{
    let q1 = match scan_char(s, 0, '"') {
        Some(j) => j,
        None => {
            return None;
        },
    };
    let q2 = match scan_char(s, q1 + 1, '"') {
        Some(j) => j,
        None => {
            return None;
        },
    };
    Some(s.substring_char(q1 + 1, q2).to_owned())
}

/// Whether `c` is a decimal digit.
pub open spec fn is_digit(c: char) -> bool {
    48 <= c as u32 <= 57
}

/// Whether every character of `s` is a decimal digit.
pub open spec fn all_digits(s: Seq<char>) -> bool {
    forall|i: int| 0 <= i < s.len() ==> is_digit(s[i])
}

/// The value of a string of decimal digits, most significant first.
pub open spec fn dec_value(s: Seq<char>) -> int
    decreases s.len(),
{
    if s.len() == 0 {
        0
    } else {
        dec_value(s.drop_last()) * 10 + (s.last() as u32 - 48)
    }
}

/// What parsing a string as an unsigned integer bounded by `max` yields:
/// the value of a non-empty all-digit string that does not exceed the
/// bound, and nothing otherwise.
pub open spec fn parse_uint_spec(s: Seq<char>, max: int) -> Option<int> {
    if s.len() > 0 && all_digits(s) && dec_value(s) <= max {
        Some(dec_value(s))
    } else {
        None
    }
}

/// The value of an all-digit string is never negative.
pub proof fn lemma_dec_value_nonneg(s: Seq<char>)
    requires
        all_digits(s),
    ensures
        dec_value(s) >= 0,
    decreases s.len(),
{
    if s.len() > 0 {
        assert(all_digits(s.drop_last())) by {
            assert(forall|i: int| 0 <= i < s.len() - 1 ==> s.drop_last()[i] == s[i]);
        }
        lemma_dec_value_nonneg(s.drop_last());
    }
}

/// Extending an all-digit string on the right never lowers its value.
pub proof fn lemma_dec_value_prefix(s: Seq<char>, i: int, j: int)
    requires
        all_digits(s),
        0 <= i <= j <= s.len(),
    ensures
        dec_value(s.subrange(0, i)) <= dec_value(s.subrange(0, j)),
    decreases j - i,
{
    if i < j {
        let p = s.subrange(0, j - 1);
        let q = s.subrange(0, j);
        assert(q.drop_last() =~= p);
        assert(all_digits(q)) by {
            assert(forall|k: int| 0 <= k < q.len() ==> q[k] == s[k]);
        }
        assert(all_digits(p)) by {
            assert(forall|k: int| 0 <= k < p.len() ==> p[k] == s[k]);
        }
        lemma_dec_value_nonneg(p);
        assert(dec_value(q) == dec_value(p) * 10 + (q.last() as u32 - 48));
        assert(is_digit(q.last()));
        assert(dec_value(p) <= dec_value(q));
        lemma_dec_value_prefix(s, i, j - 1);
    }
}

/// Parses a string of decimal digits as a `u32`, as a segment's sequence
/// number stands in its attribute. Returns `None` exactly when the string
/// is empty, holds a non-digit, or exceeds `u32::MAX`.
pub fn parse_u32(s: &str) -> (r: Option<u32>)
    ensures
        match r {
            Some(v) => parse_uint_spec(s@, u32::MAX as int) == Some(v as int),
            None => parse_uint_spec(s@, u32::MAX as int) is None,
        },
{
    let n = s.unicode_len();
    if n == 0 {
        return None;
    }
    let mut acc: u32 = 0;
    let mut i: usize = 0;
    while i < n
        invariant
            0 <= i <= n == s@.len(),
            n > 0,
            all_digits(s@.subrange(0, i as int)),
            acc == dec_value(s@.subrange(0, i as int)),
        decreases n - i,
    {
        let c = s.get_char(i);
        let v = c as u32;
        if v < 48 || v > 57 {
            assert(!is_digit(s@[i as int]));
            return None;
        }
        let d = v - 48;
        if acc > (u32::MAX - d) / 10 {
            proof {
                let p = s@.subrange(0, i as int);
                let q = s@.subrange(0, i + 1);
                assert(q.drop_last() =~= p);
                assert(all_digits(q)) by {
                    assert(forall|k: int| 0 <= k < q.len() ==> q[k] == s@[k]);
                }
                assert(dec_value(q) == acc * 10 + d);
                assert(acc * 10 + d > u32::MAX) by (nonlinear_arith)
                    requires
                        acc > (u32::MAX - d) / 10,
                        0 <= d <= 9,
                        acc <= u32::MAX,
                ;
                if all_digits(s@) {
                    lemma_dec_value_prefix(s@, i + 1, n as int);
                    assert(s@.subrange(0, n as int) =~= s@);
                    assert(dec_value(s@) > u32::MAX);
                }
            }
            return None;
        }
        proof {
            assert(acc * 10 + d <= u32::MAX) by (nonlinear_arith)
                requires
                    acc <= (u32::MAX - d) / 10,
                    0 <= d <= 9,
            ;
            let p = s@.subrange(0, i as int);
            let q = s@.subrange(0, i + 1);
            assert(q.drop_last() =~= p);
            assert(all_digits(q)) by {
                assert(forall|k: int| 0 <= k < q.len() ==> q[k] == s@[k]);
            }
            assert(dec_value(q) == acc * 10 + d);
        }
        acc = acc * 10 + d;
        i = i + 1;
    }
    proof {
        assert(s@.subrange(0, n as int) =~= s@);
    }
    Some(acc)
}

/// Parses a string of decimal digits as a `usize`, as a segment's byte
/// count stands in its attribute. Returns `None` exactly when the string
/// is empty, holds a non-digit, or exceeds `usize::MAX`.
pub fn parse_usize(s: &str) -> (r: Option<usize>)
    ensures
        match r {
            Some(v) => parse_uint_spec(s@, usize::MAX as int) == Some(v as int),
            None => parse_uint_spec(s@, usize::MAX as int) is None,
        },
{
    let n = s.unicode_len();
    if n == 0 {
        return None;
    }
    let mut acc: usize = 0;
    let mut i: usize = 0;
    while i < n
        invariant
            0 <= i <= n == s@.len(),
            n > 0,
            all_digits(s@.subrange(0, i as int)),
            acc == dec_value(s@.subrange(0, i as int)),
        decreases n - i,
    {
        let c = s.get_char(i);
        let v = c as u32;
        if v < 48 || v > 57 {
            assert(!is_digit(s@[i as int]));
            return None;
        }
        let d = (v - 48) as usize;
        if acc > (usize::MAX - d) / 10 {
            proof {
                let p = s@.subrange(0, i as int);
                let q = s@.subrange(0, i + 1);
                assert(q.drop_last() =~= p);
                assert(all_digits(q)) by {
                    assert(forall|k: int| 0 <= k < q.len() ==> q[k] == s@[k]);
                }
                assert(dec_value(q) == acc * 10 + d);
                assert(acc * 10 + d > usize::MAX) by (nonlinear_arith)
                    requires
                        acc > (usize::MAX - d) / 10,
                        0 <= d <= 9,
                        acc <= usize::MAX,
                ;
                if all_digits(s@) {
                    lemma_dec_value_prefix(s@, i + 1, n as int);
                    assert(s@.subrange(0, n as int) =~= s@);
                    assert(dec_value(s@) > usize::MAX);
                }
            }
            return None;
        }
        proof {
            assert(acc * 10 + d <= usize::MAX) by (nonlinear_arith)
                requires
                    acc <= (usize::MAX - d) / 10,
                    0 <= d <= 9,
            ;
            let p = s@.subrange(0, i as int);
            let q = s@.subrange(0, i + 1);
            assert(q.drop_last() =~= p);
            assert(all_digits(q)) by {
                assert(forall|k: int| 0 <= k < q.len() ==> q[k] == s@[k]);
            }
            assert(dec_value(q) == acc * 10 + d);
        }
        acc = acc * 10 + d;
        i = i + 1;
    }
    proof {
        assert(s@.subrange(0, n as int) =~= s@);
    }
    Some(acc)
}

/// Compares two string slices by content.
pub(crate) fn str_eq(a: &str, b: &str) -> (r: bool)
    ensures
        r == (a@ == b@),
{
    let s1 = a.to_owned();
    let s2 = b.to_owned();
    s1 == s2
}

/// Whether `c` is a hexadecimal digit.
pub open spec fn is_hex_digit(c: char) -> bool {
    is_digit(c) || 97 <= c as u32 <= 102 || 65 <= c as u32 <= 70
}

/// The value of one hexadecimal digit.
pub open spec fn hex_digit_value(c: char) -> int {
    if is_digit(c) {
        c as u32 - 48
    } else if 97 <= c as u32 <= 102 {
        c as u32 - 87
    } else {
        c as u32 - 55
    }
}

/// Whether every character of `s` is a hexadecimal digit.
pub open spec fn all_hex_digits(s: Seq<char>) -> bool {
    forall|i: int| 0 <= i < s.len() ==> is_hex_digit(s[i])
}

/// The value of a string of hexadecimal digits, most significant first.
pub open spec fn hex_value(s: Seq<char>) -> int
    decreases s.len(),
{
    if s.len() == 0 {
        0
    } else {
        hex_value(s.drop_last()) * 16 + hex_digit_value(s.last())
    }
}

/// Whether `v` is a unicode scalar value, that is, the code of a `char`.
pub open spec fn valid_scalar(v: int) -> bool {
    0 <= v < 0xd800 || 0xe000 <= v <= 0x10ffff
}

/// What one general entity or character reference resolves to: the five
/// predefined XML entities by name, and numeric character references in
/// decimal or hexadecimal form. Anything else does not resolve, which
/// makes the whole parse fail.
pub open spec fn resolve_ref_spec(s: Seq<char>) -> Option<Seq<char>> {
    if s == seq!['a', 'm', 'p'] {
        Some(seq!['&'])
    } else if s == seq!['l', 't'] {
        Some(seq!['<'])
    } else if s == seq!['g', 't'] {
        Some(seq!['>'])
    } else if s == seq!['a', 'p', 'o', 's'] {
        Some(seq!['\''])
    } else if s == seq!['q', 'u', 'o', 't'] {
        Some(seq!['"'])
    } else if s.len() >= 3 && s[0] == '#' && s[1] == 'x' {
        let body = s.skip(2);
        if all_hex_digits(body) && valid_scalar(hex_value(body)) {
            Some(seq![hex_value(body) as char])
        } else {
            None
        }
    } else if s.len() >= 2 && s[0] == '#' {
        let body = s.skip(1);
        if all_digits(body) && valid_scalar(dec_value(body)) {
            Some(seq![dec_value(body) as char])
        } else {
            None
        }
    } else {
        None
    }
}

/// The value of a non-negative all-hex-digit string is never negative.
proof fn lemma_hex_value_nonneg(s: Seq<char>)
    requires
        all_hex_digits(s),
    ensures
        hex_value(s) >= 0,
    decreases s.len(),
{
    if s.len() > 0 {
        assert(all_hex_digits(s.drop_last())) by {
            assert(forall|i: int| 0 <= i < s.len() - 1 ==> s.drop_last()[i] == s[i]);
        }
        lemma_hex_value_nonneg(s.drop_last());
    }
}

/// Extending an all-hex-digit string on the right never lowers its value.
proof fn lemma_hex_value_prefix(s: Seq<char>, i: int, j: int)
    requires
        all_hex_digits(s),
        0 <= i <= j <= s.len(),
    ensures
        hex_value(s.subrange(0, i)) <= hex_value(s.subrange(0, j)),
    decreases j - i,
{
    if i < j {
        let p = s.subrange(0, j - 1);
        let q = s.subrange(0, j);
        assert(q.drop_last() =~= p);
        assert(all_hex_digits(q)) by {
            assert(forall|k: int| 0 <= k < q.len() ==> q[k] == s[k]);
        }
        assert(all_hex_digits(p)) by {
            assert(forall|k: int| 0 <= k < p.len() ==> p[k] == s[k]);
        }
        lemma_hex_value_nonneg(p);
        assert(hex_value(q) == hex_value(p) * 16 + hex_digit_value(q.last()));
        assert(is_hex_digit(q.last()));
        assert(hex_value(p) <= hex_value(q));
        lemma_hex_value_prefix(s, i, j - 1);
    }
}

/// Parses a string of hexadecimal digits as a `u32`. Returns `None`
/// exactly when the string is empty, holds a non-hex-digit, or exceeds
/// `u32::MAX`.
fn parse_hex_u32(s: &str) -> (r: Option<u32>)
    ensures
        match r {
            Some(v) => s@.len() > 0 && all_hex_digits(s@) && hex_value(s@) == v as int,
            None => !(s@.len() > 0 && all_hex_digits(s@) && hex_value(s@) <= u32::MAX as int),
        },
{
    let n = s.unicode_len();
    if n == 0 {
        return None;
    }
    let mut acc: u32 = 0;
    let mut i: usize = 0;
    while i < n
        invariant
            0 <= i <= n == s@.len(),
            n > 0,
            all_hex_digits(s@.subrange(0, i as int)),
            acc == hex_value(s@.subrange(0, i as int)),
        decreases n - i,
    {
        let c = s.get_char(i);
        let v = c as u32;
        let d: u32 = if 48 <= v && v <= 57 {
            v - 48
        } else if 97 <= v && v <= 102 {
            v - 87
        } else if 65 <= v && v <= 70 {
            v - 55
        } else {
            assert(!is_hex_digit(s@[i as int]));
            return None;
        };
        if acc > (u32::MAX - d) / 16 {
            proof {
                let p = s@.subrange(0, i as int);
                let q = s@.subrange(0, i + 1);
                assert(q.drop_last() =~= p);
                assert(all_hex_digits(q)) by {
                    assert(forall|k: int| 0 <= k < q.len() ==> q[k] == s@[k]);
                }
                assert(d == hex_digit_value(s@[i as int]));
                assert(hex_value(q) == acc * 16 + d);
                assert(acc * 16 + d > u32::MAX) by (nonlinear_arith)
                    requires
                        acc > (u32::MAX - d) / 16,
                        0 <= d <= 15,
                        acc <= u32::MAX,
                ;
                if all_hex_digits(s@) {
                    lemma_hex_value_prefix(s@, i + 1, n as int);
                    assert(s@.subrange(0, n as int) =~= s@);
                    assert(hex_value(s@) > u32::MAX);
                }
            }
            return None;
        }
        proof {
            assert(acc * 16 + d <= u32::MAX) by (nonlinear_arith)
                requires
                    acc <= (u32::MAX - d) / 16,
                    0 <= d <= 15,
            ;
            let p = s@.subrange(0, i as int);
            let q = s@.subrange(0, i + 1);
            assert(q.drop_last() =~= p);
            assert(all_hex_digits(q)) by {
                assert(forall|k: int| 0 <= k < q.len() ==> q[k] == s@[k]);
            }
            assert(d == hex_digit_value(s@[i as int]));
            assert(hex_value(q) == acc * 16 + d);
        }
        acc = acc * 16 + d;
        i = i + 1;
    }
    proof {
        assert(s@.subrange(0, n as int) =~= s@);
    }
    Some(acc)
}

/// Relies on std's `char::from_u32`: `Some` exactly for unicode scalar
/// values, that is, codes below the surrogate range or between it and
/// the maximum code point, and the character returned has that code.
#[verifier::external_body]
fn char_from_u32(v: u32) -> (r: Option<char>)
    ensures
        r == (if valid_scalar(v as int) {
            Some(v as char)
        } else {
            None::<char>
        }),
{
    char::from_u32(v)
}

/// Relies on std's `String::push`: a string of the one given character.
#[verifier::external_body]
fn char_to_string(c: char) -> (r: String)
    ensures
        r@ == seq![c],
{
    let mut s = String::new();
    s.push(c);
    s
}

/// Resolves one general entity or character reference, given the raw text
/// between `&` and `;`. Returns `None` exactly when the reference is
/// neither a predefined entity nor a numeric reference to a unicode
/// scalar value.
pub fn resolve_reference(s: &str) -> (r: Option<String>)
    ensures
        match r {
            Some(t) => resolve_ref_spec(s@) == Some(t@),
            None => resolve_ref_spec(s@) is None,
        },
{
    proof {
        reveal_strlit("amp");
        reveal_strlit("lt");
        reveal_strlit("gt");
        reveal_strlit("apos");
        reveal_strlit("quot");
        reveal_strlit("&");
        reveal_strlit("<");
        reveal_strlit(">");
        reveal_strlit("'");
        reveal_strlit("\"");
        assert("amp"@ =~= seq!['a', 'm', 'p']);
        assert("lt"@ =~= seq!['l', 't']);
        assert("gt"@ =~= seq!['g', 't']);
        assert("apos"@ =~= seq!['a', 'p', 'o', 's']);
        assert("quot"@ =~= seq!['q', 'u', 'o', 't']);
        assert("&"@ =~= seq!['&']);
        assert("<"@ =~= seq!['<']);
        assert(">"@ =~= seq!['>']);
        assert("'"@ =~= seq!['\'']);
        assert("\""@ =~= seq!['"']);
    }
    if str_eq(s, "amp") {
        return Some(String::from_str("&"));
    }
    if str_eq(s, "lt") {
        return Some(String::from_str("<"));
    }
    if str_eq(s, "gt") {
        return Some(String::from_str(">"));
    }
    if str_eq(s, "apos") {
        return Some(String::from_str("'"));
    }
    if str_eq(s, "quot") {
        return Some(String::from_str("\""));
    }
    let n = s.unicode_len();
    if n >= 3 && s.get_char(0) == '#' && s.get_char(1) == 'x' {
        let body = s.substring_char(2, n);
        let v = match parse_hex_u32(body) {
            Some(v) => v,
            None => {
                proof {
                    if all_hex_digits(s@.skip(2)) && valid_scalar(hex_value(s@.skip(2))) {
                        assert(body@ =~= s@.skip(2));
                    }
                }
                return None;
            },
        };
        proof {
            assert(body@ =~= s@.skip(2));
        }
        match char_from_u32(v) {
            Some(c) => {
                return Some(char_to_string(c));
            },
            None => {
                return None;
            },
        }
    }
    if n >= 2 && s.get_char(0) == '#' {
        let body = s.substring_char(1, n);
        let v = match parse_u32(body) {
            Some(v) => v,
            None => {
                proof {
                    if all_digits(s@.skip(1)) && valid_scalar(dec_value(s@.skip(1))) {
                        assert(body@ =~= s@.skip(1));
                    }
                }
                return None;
            },
        };
        proof {
            assert(body@ =~= s@.skip(1));
        }
        match char_from_u32(v) {
            Some(c) => {
                return Some(char_to_string(c));
            },
            None => {
                return None;
            },
        }
    }
    None
}

/// The one pending text token accumulated so far, if any: its content and
/// the offset of its first piece.
pub open spec fn flush_pending(p: Option<(Seq<char>, u64)>) -> Seq<TokenModel> {
    match p {
        None => Seq::empty(),
        Some(t) => seq![
            TokenModel { event: XmlEventModel::Text { content: t.0 }, pos: t.1 },
        ],
    }
}

/// Appends one more piece of character data to the pending text.
pub open spec fn extend_pending(p: Option<(Seq<char>, u64)>, more: Seq<char>, pos: u64) -> (
    Seq<char>,
    u64,
) {
    match p {
        None => (more, pos),
        Some(t) => (t.0 + more, t.1),
    }
}

/// Coalescing a token stream: adjacent pieces of character data and
/// resolved references merge into one text token; an unresolvable
/// reference fails the parse; every other token passes through.
pub open spec fn coalesce_rec(toks: Seq<TokenModel>, p: Option<(Seq<char>, u64)>) -> Result<
    Seq<TokenModel>,
    ParseError,
>
    decreases toks.len(),
{
    if toks.len() == 0 {
        Ok(flush_pending(p))
    } else {
        let t = toks[0];
        match t.event {
            XmlEventModel::Text { content } => coalesce_rec(
                toks.skip(1),
                Some(extend_pending(p, content, t.pos)),
            ),
            XmlEventModel::Reference { content } => match resolve_ref_spec(content) {
                None => Err(ParseError::MalformedXml),
                Some(r) => coalesce_rec(toks.skip(1), Some(extend_pending(p, r, t.pos))),
            },
            _ => match coalesce_rec(toks.skip(1), None) {
                Ok(rest) => Ok(flush_pending(p) + seq![t] + rest),
                Err(e) => Err(e),
            },
        }
    }
}

/// What coalescing a whole token stream yields.
pub open spec fn coalesce_spec(toks: Seq<TokenModel>) -> Result<Seq<TokenModel>, ParseError> {
    coalesce_rec(toks, None)
}

/// Copies one attribute.
fn duplicate_attr(a: &XmlAttr) -> (r: XmlAttr)
    ensures
        r@ == a@,
{
    XmlAttr::new(a.key.clone(), a.value.clone())
}

/// Copies one event.
fn duplicate_event(e: &XmlEvent) -> (r: XmlEvent)
    ensures
        r@ == e@,
{
    match e {
        XmlEvent::Start { name, attrs } => {
            let mut copied: Vec<XmlAttr> = Vec::new();
            let n = attrs.len();
            let mut i: usize = 0;
            while i < n
                invariant
                    0 <= i <= n == attrs@.len(),
                    copied.deep_view() == attrs.deep_view().take(i as int),
                decreases n - i,
            {
                let a = duplicate_attr(&attrs[i]);
                proof {
                    assert(copied.deep_view().push(attrs@[i as int].deep_view())
                        =~= attrs.deep_view().take(i + 1));
                }
                copied.push(a);
                proof {
                    assert(copied.deep_view() =~= attrs.deep_view().take(i + 1));
                }
                i = i + 1;
            }
            proof {
                assert(attrs.deep_view().take(n as int) =~= attrs.deep_view());
            }
            XmlEvent::Start { name: name.clone(), attrs: copied }
        },
        XmlEvent::End { name } => XmlEvent::End { name: name.clone() },
        XmlEvent::Text { content } => XmlEvent::Text { content: content.clone() },
        XmlEvent::Reference { content } => XmlEvent::Reference { content: content.clone() },
        XmlEvent::Other => XmlEvent::Other,
        XmlEvent::Eof => XmlEvent::Eof,
    }
}

/// Coalesces a token stream: adjacent pieces of character data and
/// resolved entity or character references are merged into single text
/// tokens, carrying the offset of their first piece; every other token
/// passes through unchanged. Fails exactly when some reference does not
/// resolve.
pub fn coalesce(tokens: &Vec<Token>) -> (r: Result<Vec<Token>, ParseError>)
    ensures
        match r {
            Ok(out) => coalesce_spec(tokens.deep_view()) == Ok::<Seq<TokenModel>, ParseError>(
                out.deep_view(),
            ),
            Err(e) => coalesce_spec(tokens.deep_view()) == Err::<Seq<TokenModel>, ParseError>(e),
        },
{
    let ghost whole = tokens.deep_view();
    let mut out: Vec<Token> = Vec::new();
    let mut pending: Option<(String, u64)> = None;
    let n = tokens.len();
    let mut i: usize = 0;
    proof {
        assert(whole.skip(0) =~= whole);
    }
    while i < n
        invariant
            0 <= i <= n == tokens@.len(),
            whole == tokens.deep_view(),
            match coalesce_rec(whole.skip(i as int), pending.deep_view()) {
                Ok(tail) => coalesce_spec(whole) == Ok::<Seq<TokenModel>, ParseError>(
                    out.deep_view() + tail,
                ),
                Err(e) => coalesce_spec(whole) == Err::<Seq<TokenModel>, ParseError>(e),
            },
        decreases n - i,
    {
        let t = &tokens[i];
        proof {
            assert(whole.skip(i as int)[0] == t@);
            assert(whole.skip(i as int).skip(1) =~= whole.skip(i + 1));
        }
        match &t.event {
            XmlEvent::Text { content } => {
                pending = match pending {
                    None => Some((content.clone(), t.pos)),
                    Some((mut s0, p0)) => {
                        s0.append(content.as_str());
                        Some((s0, p0))
                    },
                };
            },
            XmlEvent::Reference { content } => {
                match resolve_reference(content.as_str()) {
                    None => {
                        return Err(ParseError::MalformedXml);
                    },
                    Some(rtxt) => {
                        pending = match pending {
                            None => Some((rtxt, t.pos)),
                            Some((mut s0, p0)) => {
                                s0.append(rtxt.as_str());
                                Some((s0, p0))
                            },
                        };
                    },
                }
            },
            _ => {
                let ghost pre = pending.deep_view();
                let ghost out_pre = out.deep_view();
                match pending {
                    None => {},
                    Some((s0, p0)) => {
                        out.push(Token::new(XmlEvent::Text { content: s0 }, p0));
                    },
                }
                pending = None;
                let copied = duplicate_event(&t.event);
                out.push(Token::new(copied, t.pos));
                proof {
                    assert(out.deep_view() =~= out_pre + flush_pending(pre) + seq![t@]);
                    if coalesce_rec(whole.skip(i + 1), None::<(Seq<char>, u64)>) is Ok {
                        let tail = coalesce_rec(whole.skip(i + 1), None::<(Seq<char>, u64)>)
                            .unwrap();
                        assert(out_pre + (flush_pending(pre) + seq![t@] + tail) =~= (out_pre
                            + flush_pending(pre) + seq![t@]) + tail);
                    }
                }
            },
        }
        i = i + 1;
    }
    proof {
        assert(whole.skip(n as int) =~= Seq::<TokenModel>::empty());
    }
    let ghost pre = pending.deep_view();
    let ghost out_pre = out.deep_view();
    match pending {
        None => {},
        Some((s0, p0)) => {
            out.push(Token::new(XmlEvent::Text { content: s0 }, p0));
        },
    }
    proof {
        assert(out.deep_view() =~= out_pre + flush_pending(pre));
    }
    Ok(out)
}

/// The name of a file element.
pub open spec fn tag_file() -> Seq<char> {
    seq!['f', 'i', 'l', 'e']
}

/// The name of a segment element.
pub open spec fn tag_segment() -> Seq<char> {
    seq!['s', 'e', 'g', 'm', 'e', 'n', 't']
}

/// The name of a group element.
pub open spec fn tag_group() -> Seq<char> {
    seq!['g', 'r', 'o', 'u', 'p']
}

/// The key of the subject attribute of a file element.
pub open spec fn attr_subject() -> Seq<char> {
    seq!['s', 'u', 'b', 'j', 'e', 'c', 't']
}

/// The key of the byte-count attribute of a segment element.
pub open spec fn attr_bytes() -> Seq<char> {
    seq!['b', 'y', 't', 'e', 's']
}

/// The key of the sequence-number attribute of a segment element.
pub open spec fn attr_number() -> Seq<char> {
    seq!['n', 'u', 'm', 'b', 'e', 'r']
}

/// Mathematical model of the parser's whole state: the records emitted so
/// far, the two builders, and whether a group element is open.
#[verifier::ext_equal]
pub ghost struct ParserStateModel {
    pub files: Seq<NzbFileModel>,
    pub file_b: NzbFileBuilderModel,
    pub seg_b: SegmentBuilderModel,
    pub in_group: bool,
}

/// The parser's state before any event: no records, empty builders, no
/// open group element.
pub open spec fn init_state() -> ParserStateModel {
    ParserStateModel {
        files: Seq::empty(),
        file_b: NzbFileBuilderModel::empty(),
        seg_b: SegmentBuilderModel::empty(),
        in_group: false,
    }
}

/// What the attributes of a file start tag do to the file builder: each
/// subject attribute sets the filename to the substring between the first
/// pair of double quotes of its value, and a subject value without such a
/// substring fails the parse at the given offset.
pub open spec fn apply_file_attrs(
    b: NzbFileBuilderModel,
    attrs: Seq<XmlAttrModel>,
    pos: u64,
) -> Result<NzbFileBuilderModel, ParseError>
    decreases attrs.len(),
{
    if attrs.len() == 0 {
        Ok(b)
    } else {
        let a = attrs[0];
        if a.key == attr_subject() {
            match extract_quoted_spec(a.value) {
                None => Err(ParseError::FilenameNotQuoted { position: pos }),
                Some(f) => apply_file_attrs(
                    NzbFileBuilderModel { filename: Some(f), ..b },
                    attrs.skip(1),
                    pos,
                ),
            }
        } else {
            apply_file_attrs(b, attrs.skip(1), pos)
        }
    }
}

/// What the attributes of a segment start tag do to the segment builder:
/// a bytes or number attribute whose value parses as an unsigned integer
/// sets the matching field, and a malformed value is silently ignored.
pub open spec fn apply_segment_attrs(
    sb: SegmentBuilderModel,
    attrs: Seq<XmlAttrModel>,
) -> SegmentBuilderModel
    decreases attrs.len(),
{
    if attrs.len() == 0 {
        sb
    } else {
        let a = attrs[0];
        let sb2 = if a.key == attr_bytes() {
            match parse_uint_spec(a.value, usize::MAX as int) {
                Some(v) => SegmentBuilderModel { bytes: Some(v), ..sb },
                None => sb,
            }
        } else if a.key == attr_number() {
            match parse_uint_spec(a.value, u32::MAX as int) {
                Some(v) => SegmentBuilderModel { number: Some(v), ..sb },
                None => sb,
            }
        } else {
            sb
        };
        apply_segment_attrs(sb2, attrs.skip(1))
    }
}

/// What the end of a file element does: the builder's fields become one
/// more record and the builder resets, or the parse fails for a missing
/// or empty filename or for a missing group.
pub open spec fn finalize_file(st: ParserStateModel) -> Result<ParserStateModel, ParseError> {
    if st.file_b.can_finalize() {
        Ok(
            ParserStateModel {
                files: st.files.push(
                    NzbFileModel {
                        filename: st.file_b.filename.unwrap(),
                        groups: st.file_b.groups,
                        segments: st.file_b.segments,
                    },
                ),
                file_b: NzbFileBuilderModel::empty(),
                ..st
            },
        )
    } else if st.file_b.filename is None || st.file_b.filename.unwrap().len() == 0 {
        Err(ParseError::MissingFilename)
    } else {
        Err(ParseError::MissingGroup)
    }
}

/// What the end of a segment element does: the builder's fields become
/// one more segment of the open file and the builder resets, or the
/// parse fails for a missing field.
pub open spec fn finalize_segment(st: ParserStateModel) -> Result<ParserStateModel, ParseError> {
    if st.seg_b.can_finalize() {
        Ok(
            ParserStateModel {
                file_b: NzbFileBuilderModel {
                    segments: st.file_b.segments.push(
                        SegmentModel {
                            bytes: st.seg_b.bytes.unwrap(),
                            number: st.seg_b.number.unwrap(),
                            article_id: st.seg_b.article_id.unwrap(),
                        },
                    ),
                    ..st.file_b
                },
                seg_b: SegmentBuilderModel::empty(),
                ..st
            },
        )
    } else {
        Err(ParseError::IncompleteSegment)
    }
}

/// One step of the parser's state machine, for one token.
pub open spec fn step_spec(st: ParserStateModel, t: TokenModel) -> Result<
    ParserStateModel,
    ParseError,
> {
    match t.event {
        XmlEventModel::Start { name, attrs } => {
            if name == tag_file() {
                match apply_file_attrs(st.file_b, attrs, t.pos) {
                    Ok(fb) => Ok(ParserStateModel { file_b: fb, ..st }),
                    Err(e) => Err(e),
                }
            } else if name == tag_segment() {
                Ok(ParserStateModel { seg_b: apply_segment_attrs(st.seg_b, attrs), ..st })
            } else if name == tag_group() {
                Ok(ParserStateModel { in_group: true, ..st })
            } else {
                Ok(st)
            }
        },
        XmlEventModel::Text { content } => {
            if st.seg_b != SegmentBuilderModel::empty() {
                Ok(
                    ParserStateModel {
                        seg_b: SegmentBuilderModel { article_id: Some(content), ..st.seg_b },
                        ..st
                    },
                )
            } else if st.in_group {
                Ok(
                    ParserStateModel {
                        file_b: NzbFileBuilderModel {
                            groups: st.file_b.groups.push(content),
                            ..st.file_b
                        },
                        ..st
                    },
                )
            } else {
                Ok(st)
            }
        },
        XmlEventModel::End { name } => {
            if name == tag_file() {
                finalize_file(st)
            } else if name == tag_segment() {
                finalize_segment(st)
            } else if name == tag_group() {
                Ok(ParserStateModel { in_group: false, ..st })
            } else {
                Ok(st)
            }
        },
        _ => Ok(st),
    }
}

/// Applies the attributes of a file start tag to the file builder, as
/// [`apply_file_attrs`] describes.
fn apply_file_attrs_exec(b: &mut NzbFileBuilder, attrs: &Vec<XmlAttr>, pos: u64) -> (r: Result<
    (),
    ParseError,
>)
    ensures
        match r {
            Ok(_) => apply_file_attrs(old(b)@, attrs.deep_view(), pos) == Ok::<
                NzbFileBuilderModel,
                ParseError,
            >(final(b)@),
            Err(e) => apply_file_attrs(old(b)@, attrs.deep_view(), pos) == Err::<
                NzbFileBuilderModel,
                ParseError,
            >(e),
        },
{
    let ghost whole = attrs.deep_view();
    let na = attrs.len();
    let mut j: usize = 0;
    proof {
        assert(whole.skip(0) =~= whole);
    }
    while j < na
        invariant
            0 <= j <= na == attrs@.len(),
            whole == attrs.deep_view(),
            apply_file_attrs(old(b)@, whole, pos) == apply_file_attrs(
                b@,
                whole.skip(j as int),
                pos,
            ),
        decreases na - j,
    {
        let a = &attrs[j];
        proof {
            assert(whole.skip(j as int)[0] == a@);
            assert(whole.skip(j as int).skip(1) =~= whole.skip(j + 1));
            reveal_strlit("subject");
            assert("subject"@ =~= attr_subject());
        }
        if str_eq(a.key.as_str(), "subject") {
            match extract_quoted(a.value.as_str()) {
                Some(f) => {
                    b.set_filename(f);
                },
                None => {
                    return Err(ParseError::FilenameNotQuoted { position: pos });
                },
            }
        }
        j = j + 1;
    }
    proof {
        assert(whole.skip(na as int) =~= Seq::<XmlAttrModel>::empty());
    }
    Ok(())
}

/// Applies the attributes of a segment start tag to the segment builder,
/// as [`apply_segment_attrs`] describes.
fn apply_segment_attrs_exec(sb: &mut SegmentBuilder, attrs: &Vec<XmlAttr>)
    ensures
        final(sb)@ == apply_segment_attrs(old(sb)@, attrs.deep_view()),
{
    let ghost whole = attrs.deep_view();
    let na = attrs.len();
    let mut j: usize = 0;
    proof {
        assert(whole.skip(0) =~= whole);
    }
    while j < na
        invariant
            0 <= j <= na == attrs@.len(),
            whole == attrs.deep_view(),
            apply_segment_attrs(old(sb)@, whole) == apply_segment_attrs(
                sb@,
                whole.skip(j as int),
            ),
        decreases na - j,
    {
        let a = &attrs[j];
        proof {
            assert(whole.skip(j as int)[0] == a@);
            assert(whole.skip(j as int).skip(1) =~= whole.skip(j + 1));
            reveal_strlit("bytes");
            reveal_strlit("number");
            assert("bytes"@ =~= attr_bytes());
            assert("number"@ =~= attr_number());
        }
        if str_eq(a.key.as_str(), "bytes") {
            match parse_usize(a.value.as_str()) {
                Some(v) => {
                    sb.set_bytes(v);
                },
                None => {},
            }
        } else if str_eq(a.key.as_str(), "number") {
            match parse_u32(a.value.as_str()) {
                Some(v) => {
                    sb.set_number(v);
                },
                None => {},
            }
        }
        j = j + 1;
    }
    proof {
        assert(whole.skip(na as int) =~= Seq::<XmlAttrModel>::empty());
    }
}

/// Running the state machine over a token stream.
pub open spec fn run_spec(st: ParserStateModel, toks: Seq<TokenModel>) -> Result<
    ParserStateModel,
    ParseError,
>
    decreases toks.len(),
{
    if toks.len() == 0 {
        Ok(st)
    } else {
        match step_spec(st, toks[0]) {
            Ok(st2) => run_spec(st2, toks.skip(1)),
            Err(e) => Err(e),
        }
    }
}

/// What parsing a coalesced token stream yields: the records emitted by
/// the state machine run from its initial state, in document order.
pub open spec fn parse_tokens_spec(toks: Seq<TokenModel>) -> Result<Seq<NzbFileModel>, ParseError> {
    match run_spec(init_state(), toks) {
        Ok(st) => Ok(st.files),
        Err(e) => Err(e),
    }
}

/// Runs the parser's state machine over a coalesced token stream: one
/// record per file element, in document order, its groups and segments in
/// document order, exactly as [`parse_tokens_spec`] describes; the first
/// failing event aborts the whole parse with its error.
pub fn parse_events(tokens: &Vec<Token>) -> (r: Result<Vec<NzbFile>, ParseError>)
    ensures
        match r {
            Ok(files) => parse_tokens_spec(tokens.deep_view()) == Ok::<
                Seq<NzbFileModel>,
                ParseError,
            >(files.deep_view()),
            Err(e) => parse_tokens_spec(tokens.deep_view()) == Err::<Seq<NzbFileModel>, ParseError>(
                e,
            ),
        },
{
    let ghost whole = tokens.deep_view();
    let mut nzb_builder = NzbFileBuilder::default();
    let mut segment_builder = SegmentBuilder::default();
    let mut files: Vec<NzbFile> = Vec::new();
    let mut in_group = false;
    let n = tokens.len();
    let mut i: usize = 0;
    proof {
        assert(whole.skip(0) =~= whole);
        assert((ParserStateModel {
            files: files.deep_view(),
            file_b: nzb_builder@,
            seg_b: segment_builder@,
            in_group: in_group,
        }) =~= init_state());
    }
    while i < n
        invariant
            0 <= i <= n == tokens@.len(),
            whole == tokens.deep_view(),
            run_spec(init_state(), whole) == run_spec(
                ParserStateModel {
                    files: files.deep_view(),
                    file_b: nzb_builder@,
                    seg_b: segment_builder@,
                    in_group: in_group,
                },
                whole.skip(i as int),
            ),
        decreases n - i,
    {
        let ghost st = ParserStateModel {
            files: files.deep_view(),
            file_b: nzb_builder@,
            seg_b: segment_builder@,
            in_group: in_group,
        };
        let t = &tokens[i];
        proof {
            assert(whole.skip(i as int)[0] == t@);
            assert(whole.skip(i as int).skip(1) =~= whole.skip(i + 1));
            reveal_strlit("file");
            reveal_strlit("segment");
            reveal_strlit("group");
            assert("file"@ =~= tag_file());
            assert("segment"@ =~= tag_segment());
            assert("group"@ =~= tag_group());
        }
        match &t.event {
            XmlEvent::Start { name, attrs } => {
                if str_eq(name.as_str(), "file") {
                    match apply_file_attrs_exec(&mut nzb_builder, attrs, t.pos) {
                        Ok(_) => {},
                        Err(e) => {
                            proof {
                                assert(step_spec(st, t@) == Err::<ParserStateModel, ParseError>(e));
                            }
                            return Err(e);
                        },
                    }
                } else if str_eq(name.as_str(), "segment") {
                    apply_segment_attrs_exec(&mut segment_builder, attrs);
                } else if str_eq(name.as_str(), "group") {
                    in_group = true;
                }
            },
            XmlEvent::Text { content } => {
                if !segment_builder.is_empty() {
                    segment_builder.set_article_id(content.clone());
                } else if in_group {
                    nzb_builder.add_group(content.clone());
                }
            },
            XmlEvent::Reference { content: _ } => {},
            XmlEvent::End { name } => {
                if str_eq(name.as_str(), "file") {
                    match nzb_builder.create() {
                        Ok(f) => {
                            proof {
                                assert(files.deep_view().push(f@) =~= finalize_file(
                                    st,
                                ).unwrap().files);
                            }
                            files.push(f);
                            proof {
                                assert(files.deep_view() =~= finalize_file(st).unwrap().files);
                            }
                        },
                        Err(e) => {
                            proof {
                                assert(step_spec(st, t@) == Err::<ParserStateModel, ParseError>(e));
                            }
                            return Err(e);
                        },
                    }
                } else if str_eq(name.as_str(), "segment") {
                    match segment_builder.create() {
                        Ok(seg) => {
                            nzb_builder.add_segment(seg);
                        },
                        Err(e) => {
                            proof {
                                assert(step_spec(st, t@) == Err::<ParserStateModel, ParseError>(e));
                            }
                            return Err(e);
                        },
                    }
                } else if str_eq(name.as_str(), "group") {
                    in_group = false;
                }
            },
            XmlEvent::Other => {},
            XmlEvent::Eof => {},
        }
        proof {
            assert(step_spec(st, t@) matches Ok(st2) && (ParserStateModel {
                files: files.deep_view(),
                file_b: nzb_builder@,
                seg_b: segment_builder@,
                in_group: in_group,
            }) =~= st2);
        }
        i = i + 1;
    }
    proof {
        assert(whole.skip(n as int) =~= Seq::<TokenModel>::empty());
    }
    Ok(files)
}

/// The invariants of a produced record: a non-empty filename and at
/// least one group.
pub open spec fn file_wf(f: NzbFileModel) -> bool {
    f.filename.len() > 0 && f.groups.len() > 0
}

/// Running the state machine only ever emits records that satisfy the
/// invariants: finalization refuses anything else.
pub proof fn lemma_run_wf(st: ParserStateModel, toks: Seq<TokenModel>)
    requires
        forall|k: int| 0 <= k < st.files.len() ==> file_wf(#[trigger] st.files[k]),
    ensures
        run_spec(st, toks) matches Ok(st2) ==> forall|k: int|
            0 <= k < st2.files.len() ==> file_wf(#[trigger] st2.files[k]),
    decreases toks.len(),
{
    if toks.len() > 0 {
        match step_spec(st, toks[0]) {
            Ok(st2) => {
                assert(forall|k: int| 0 <= k < st2.files.len() ==> file_wf(#[trigger] st2.files[k]));
                lemma_run_wf(st2, toks.skip(1));
            },
            Err(_) => {},
        }
    }
}

/// What parsing a whole document's bytes yields: where the tokenizer
/// reports malformed XML, the parse aborts with that error; otherwise the
/// named token stream of the input is coalesced and run through the state
/// machine, whose result — the records, or the first failing event's
/// error — is the parse's result.
pub open spec fn parse_bytes_spec(input: Seq<u8>) -> Result<Seq<NzbFileModel>, ParseError> {
    match crate::xml::xml_tokens_of(input) {
        None => Err(ParseError::MalformedXml),
        Some(toks) => match coalesce_spec(toks) {
            Ok(ct) => parse_tokens_spec(ct),
            Err(e) => Err(e),
        },
    }
}

/// Parses one NZB document from its raw bytes: the XML stream is read
/// into plain tokens, adjacent text pieces and references are coalesced,
/// and the state machine turns the tokens into records, exactly as
/// [`parse_bytes_spec`] says over the input's named token stream. Every
/// record carries a non-empty filename and at least one group; malformed
/// XML, an unresolvable reference, a subject without a quoted filename,
/// or an incomplete file or segment aborts the whole parse with its
/// [`ParseError`], and no partial list is returned.
pub fn parse_nzb(input: &[u8]) -> (r: Result<Vec<NzbFile>, ParseError>)
    ensures
        match r {
            Ok(files) => parse_bytes_spec(input@) == Ok::<Seq<NzbFileModel>, ParseError>(
                files.deep_view(),
            ),
            Err(e) => parse_bytes_spec(input@) == Err::<Seq<NzbFileModel>, ParseError>(e),
        },
        r matches Ok(files) ==> forall|k: int|
            0 <= k < files.deep_view().len() ==> file_wf(#[trigger] files.deep_view()[k]),
{
    let tokens = match crate::xml::tokenize(input) {
        Ok(t) => t,
        Err(e) => {
            return Err(e);
        },
    };
    let tokens = match coalesce(&tokens) {
        Ok(t) => t,
        Err(e) => {
            return Err(e);
        },
    };
    match parse_events(&tokens) {
        Ok(files) => {
            proof {
                assert(parse_tokens_spec(tokens.deep_view()) == Ok::<
                    Seq<NzbFileModel>,
                    ParseError,
                >(files.deep_view()));
                lemma_run_wf(init_state(), tokens.deep_view());
            }
            Ok(files)
        },
        Err(e) => Err(e),
    }
}

} // verus!
