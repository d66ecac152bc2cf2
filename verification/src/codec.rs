//! The yEnc frame extractor and decoder: locating the encoded payload
//! inside one fetched article body, and the byte-shift escape transform
//! that recovers the original bytes. A reference encoder is included so
//! that decoding can be stated and proved as the inverse of encoding.

use vstd::prelude::*;

use crate::errors::DecodeError;

verus! {

/// Byte addition modulo 256.
pub open spec fn wrap_add(b: u8, k: u8) -> u8 {
    if b + k > 255 {
        (b + k - 256) as u8
    } else {
        (b + k) as u8
    }
}

/// Byte subtraction modulo 256.
pub open spec fn wrap_sub(b: u8, k: u8) -> u8 {
    if b >= k {
        (b - k) as u8
    } else {
        (b + 256 - k) as u8
    }
}

/// The de-escape transform applied to an encoded payload: carriage returns
/// and line feeds are skipped, an escape byte shifts the byte after it by a
/// further 64, and every payload byte is shifted down by 42, modulo 256. A
/// trailing escape byte with nothing after it is dropped.
pub open spec fn ydecode_spec(s: Seq<u8>) -> Seq<u8>
    decreases s.len(),
{
    if s.len() == 0 {
        Seq::empty()
    } else if s[0] == 0x0d || s[0] == 0x0a {
        ydecode_spec(s.skip(1))
    } else if s[0] == 0x3d {
        if s.len() == 1 {
            Seq::empty()
        } else {
            seq![wrap_sub(s[1], 106)] + ydecode_spec(s.skip(2))
        }
    } else {
        seq![wrap_sub(s[0], 42)] + ydecode_spec(s.skip(1))
    }
}

/// Whether a shifted byte must be escaped by the reference encoder: NUL,
/// line feed, carriage return and the escape byte itself.
pub open spec fn needs_escape(b: u8) -> bool {
    b == 0x00 || b == 0x0a || b == 0x0d || b == 0x3d
}

/// The reference encoder's transform: every byte is shifted up by 42
/// modulo 256; a shifted byte that would collide with the frame structure
/// is written as the escape byte followed by the shifted byte further
/// shifted by 64. The output contains no carriage return and no line feed.
pub open spec fn yencode_spec(s: Seq<u8>) -> Seq<u8>
    decreases s.len(),
{
    if s.len() == 0 {
        Seq::empty()
    } else {
        let c = wrap_add(s[0], 42);
        let head = if needs_escape(c) {
            seq![0x3du8, wrap_add(c, 64)]
        } else {
            seq![c]
        };
        head + yencode_spec(s.skip(1))
    }
}

/// No byte of an encoded payload is a carriage return or a line feed.
pub proof fn lemma_yencode_no_line_breaks(s: Seq<u8>)
    ensures
        forall|i: int| 0 <= i < yencode_spec(s).len() ==> yencode_spec(s)[i] != 0x0d,
        forall|i: int| 0 <= i < yencode_spec(s).len() ==> yencode_spec(s)[i] != 0x0a,
    decreases s.len(),
{
    if s.len() > 0 {
        lemma_yencode_no_line_breaks(s.skip(1));
        let c = wrap_add(s[0], 42);
        let head = if needs_escape(c) {
            seq![0x3du8, wrap_add(c, 64)]
        } else {
            seq![c]
        };
        let rest = yencode_spec(s.skip(1));
        assert(yencode_spec(s) == head + rest);
        assert forall|i: int|
            0 <= i < yencode_spec(s).len() implies yencode_spec(s)[i] != 0x0d && yencode_spec(
            s,
        )[i] != 0x0a by {
            if i < head.len() {
                assert(yencode_spec(s)[i] == head[i]);
            } else {
                assert(yencode_spec(s)[i] == rest[i - head.len()]);
            }
        }
    }
}

/// Decoding is the inverse of the reference encoder: the de-escape
/// transform applied to an encoded payload yields the original bytes
/// exactly, for any byte sequence.
pub proof fn lemma_yenc_round_trip(s: Seq<u8>)
    ensures
        ydecode_spec(yencode_spec(s)) == s,
    decreases s.len(),
{
    if s.len() == 0 {
        assert(ydecode_spec(yencode_spec(s)) =~= s);
    } else {
        let c = wrap_add(s[0], 42);
        let rest = yencode_spec(s.skip(1));
        lemma_yenc_round_trip(s.skip(1));
        if needs_escape(c) {
            let enc = seq![0x3du8, wrap_add(c, 64)] + rest;
            assert(yencode_spec(s) == enc);
            assert(enc.len() >= 2);
            assert(enc[0] == 0x3d && enc[1] == wrap_add(c, 64));
            assert(enc.skip(2) =~= rest);
            assert(wrap_sub(wrap_add(c, 64), 106) == s[0]);
            assert(ydecode_spec(enc) =~= seq![s[0]] + ydecode_spec(rest));
            assert(seq![s[0]] + s.skip(1) =~= s);
        } else {
            let enc = seq![c] + rest;
            assert(yencode_spec(s) == enc);
            assert(enc[0] == c && c != 0x0d && c != 0x0a && c != 0x3d);
            assert(enc.skip(1) =~= rest);
            assert(wrap_sub(c, 42) == s[0]);
            assert(ydecode_spec(enc) =~= seq![s[0]] + ydecode_spec(rest));
            assert(seq![s[0]] + s.skip(1) =~= s);
        }
    }
}

/// Runs the de-escape transform over `data[start..end]`.
pub fn ydecode_range(data: &[u8], start: usize, end: usize) -> (out: Vec<u8>)
    requires
        start <= end <= data@.len(),
    ensures
        out@ == ydecode_spec(data@.subrange(start as int, end as int)),
{
    let ghost whole = data@.subrange(start as int, end as int);
    let mut out: Vec<u8> = Vec::new();
    let mut i: usize = start;
    while i < end
        invariant
            start <= i <= end <= data@.len(),
            whole == data@.subrange(start as int, end as int),
            ydecode_spec(whole) == out@ + ydecode_spec(data@.subrange(i as int, end as int)),
        decreases end - i,
    {
        let ghost cur = data@.subrange(i as int, end as int);
        let b = data[i];
        if b == 0x0d || b == 0x0a {
            proof {
                assert(cur.skip(1) =~= data@.subrange(i + 1, end as int));
            }
            i = i + 1;
        } else if b == 0x3d {
            if i + 1 == end {
                proof {
                    assert(ydecode_spec(cur) =~= Seq::<u8>::empty());
                    assert(out@ + Seq::<u8>::empty() =~= out@);
                    assert(data@.subrange(end as int, end as int) =~= Seq::<u8>::empty());
                }
                i = end;
            } else {
                let d = data[i + 1];
                let dec = if d >= 106 {
                    d - 106
                } else {
                    d + 150
                };
                proof {
                    assert(cur[1] == d);
                    assert(dec == wrap_sub(d, 106));
                    assert(cur.skip(2) =~= data@.subrange(i + 2, end as int));
                    assert(out@ + (seq![dec] + ydecode_spec(cur.skip(2))) =~= (out@
                        + seq![dec]) + ydecode_spec(cur.skip(2)));
                }
                out.push(dec);
                i = i + 2;
            }
        } else {
            let dec = if b >= 42 {
                b - 42
            } else {
                b + 214
            };
            proof {
                assert(dec == wrap_sub(b, 42));
                assert(cur.skip(1) =~= data@.subrange(i + 1, end as int));
                assert(out@ + (seq![dec] + ydecode_spec(cur.skip(1))) =~= (out@ + seq![dec])
                    + ydecode_spec(cur.skip(1)));
            }
            out.push(dec);
            i = i + 1;
        }
    }
    proof {
        assert(data@.subrange(end as int, end as int) =~= Seq::<u8>::empty());
        assert(out@ + Seq::<u8>::empty() =~= out@);
    }
    out
}

/// Runs the de-escape transform over a whole buffer.
pub fn ydecode(data: &[u8]) -> (out: Vec<u8>)
    ensures
        out@ == ydecode_spec(data@),
{
    let out = ydecode_range(data, 0, data.len());
    proof {
        assert(data@.subrange(0, data@.len() as int) =~= data@);
    }
    out
}

/// Runs the reference encoder over a whole buffer.
pub fn yencode(data: &[u8]) -> (out: Vec<u8>)
    ensures
        out@ == yencode_spec(data@),
{
    let mut out: Vec<u8> = Vec::new();
    let len = data.len();
    let mut i: usize = 0;
    proof {
        assert(data@.skip(0) =~= data@);
    }
    while i < len
        invariant
            0 <= i <= len == data@.len(),
            yencode_spec(data@) == out@ + yencode_spec(data@.skip(i as int)),
        decreases len - i,
    {
        let ghost cur = data@.skip(i as int);
        let b = data[i];
        let c = if b <= 213 {
            b + 42
        } else {
            b - 214
        };
        proof {
            assert(cur[0] == b);
            assert(c == wrap_add(b, 42));
            assert(cur.skip(1) =~= data@.skip(i + 1));
        }
        if c == 0x00 || c == 0x0a || c == 0x0d || c == 0x3d {
            let e = if c <= 191 {
                c + 64
            } else {
                c - 192
            };
            proof {
                assert(e == wrap_add(c, 64));
                assert(out@ + (seq![0x3du8, e] + yencode_spec(cur.skip(1))) =~= (out@
                    + seq![0x3du8, e]) + yencode_spec(cur.skip(1)));
            }
            out.push(0x3d);
            out.push(e);
        } else {
            proof {
                assert(out@ + (seq![c] + yencode_spec(cur.skip(1))) =~= (out@ + seq![c])
                    + yencode_spec(cur.skip(1)));
            }
            out.push(c);
        }
        i = i + 1;
    }
    proof {
        assert(data@.skip(len as int) =~= Seq::<u8>::empty());
        assert(out@ + Seq::<u8>::empty() =~= out@);
    }
    out
}

/// The least index at or after `from` holding byte `b`, if any.
pub open spec fn find_byte(s: Seq<u8>, from: int, b: u8) -> Option<int>
    decreases s.len() - from,
{
    if from < 0 || from >= s.len() {
        None
    } else if s[from] == b {
        Some(from)
    } else {
        find_byte(s, from + 1, b)
    }
}

/// The greatest index below `upto` holding byte `b`, if any.
pub open spec fn rfind_byte(s: Seq<u8>, upto: int, b: u8) -> Option<int>
    decreases upto,
{
    if upto <= 0 || upto > s.len() {
        None
    } else if s[upto - 1] == b {
        Some(upto - 1)
    } else {
        rfind_byte(s, upto - 1, b)
    }
}

/// The first line start at or after `i` where the two-byte begin marker
/// `=y` stands. `at_line_start` says whether `i` itself begins a line,
/// that is, whether `i` is 0 or follows a line feed.
pub open spec fn find_marker(s: Seq<u8>, i: int, at_line_start: bool) -> Option<int>
    decreases s.len() - i,
{
    if i < 0 || i >= s.len() {
        None
    } else if at_line_start && i + 2 <= s.len() && s[i] == 0x3d && s[i + 1] == 0x79 {
        Some(i)
    } else {
        find_marker(s, i + 1, s[i] == 0x0a)
    }
}

/// The bounds of the encoded payload inside one article body: the marker
/// line is found, two further line boundaries are skipped to reach the
/// payload start, and the last carriage return marks the payload end.
pub open spec fn frame_bounds_spec(s: Seq<u8>) -> Result<(int, int), DecodeError> {
    match find_marker(s, 0, true) {
        None => Err(DecodeError::NoBeginMarker),
        Some(m) => match find_byte(s, m, 0x0a) {
            None => Err(DecodeError::TruncatedHeader),
            Some(nl1) => match find_byte(s, nl1 + 1, 0x0a) {
                None => Err(DecodeError::TruncatedHeader),
                Some(nl2) => match rfind_byte(s, s.len() as int, 0x0d) {
                    None => Err(DecodeError::NoTrailingReturn),
                    Some(end) => if end < nl2 + 1 {
                        Err(DecodeError::NoTrailingReturn)
                    } else {
                        Ok((nl2 + 1, end))
                    },
                },
            },
        },
    }
}

/// What extracting and decoding one article body yields.
pub open spec fn extract_and_decode_spec(s: Seq<u8>) -> Result<Seq<u8>, DecodeError> {
    match frame_bounds_spec(s) {
        Ok((start, end)) => Ok(ydecode_spec(s.subrange(start, end))),
        Err(e) => Err(e),
    }
}

/// Locates the encoded payload of one fetched article body and decodes it.
/// Fails exactly when no line begins with the two-byte begin marker, when
/// fewer than two line boundaries follow it, or when no carriage return
/// stands at or after the payload start.
pub fn extract_and_decode(data: &[u8]) -> (r: Result<Vec<u8>, DecodeError>)
    ensures
        match r {
            Ok(out) => extract_and_decode_spec(data@) == Ok::<Seq<u8>, DecodeError>(out@),
            Err(e) => extract_and_decode_spec(data@) == Err::<Seq<u8>, DecodeError>(e),
        },
{
    let len = data.len();
    // Scan for the first line start bearing the begin marker.
    let mut i: usize = 0;
    let mut at_line_start = true;
    let mut marker: Option<usize> = None;
    while i < len
        invariant_except_break
            marker is None,
        invariant
            0 <= i <= len == data@.len(),
            marker is None ==> find_marker(data@, 0, true) == find_marker(
                data@,
                i as int,
                at_line_start,
            ),
            marker matches Some(m) ==> find_marker(data@, 0, true) == Some(m as int) && m < len,
        ensures
            marker is None ==> find_marker(data@, 0, true) is None,
            marker matches Some(m) ==> find_marker(data@, 0, true) == Some(m as int) && m < len,
        decreases len - i,
    {
        if at_line_start && i + 1 < len && data[i] == 0x3d && data[i + 1] == 0x79 {
            proof {
                assert(find_marker(data@, i as int, true) == Some(i as int));
            }
            marker = Some(i);
            break ;
        }
        at_line_start = data[i] == 0x0a;
        i = i + 1;
    }
    let m = match marker {
        Some(m) => m,
        None => {
            return Err(DecodeError::NoBeginMarker);
        },
    };
    // Skip two line boundaries from the marker-line start.
    let nl1 = match scan_byte(data, m, 0x0a) {
        Some(j) => j,
        None => {
            return Err(DecodeError::TruncatedHeader);
        },
    };
    let nl2 = match scan_byte(data, nl1 + 1, 0x0a) {
        Some(j) => j,
        None => {
            return Err(DecodeError::TruncatedHeader);
        },
    };
    let start = nl2 + 1;
    // The last carriage return marks the payload end.
    let mut k: usize = len;
    while k > 0 && data[k - 1] != 0x0d
        invariant
            0 <= k <= len == data@.len(),
            rfind_byte(data@, len as int, 0x0d) == rfind_byte(data@, k as int, 0x0d),
        decreases k,
    {
        k = k - 1;
    }
    if k == 0 {
        return Err(DecodeError::NoTrailingReturn);
    }
    let end = k - 1;
    if end < start {
        return Err(DecodeError::NoTrailingReturn);
    }
    Ok(ydecode_range(data, start, end))
}

/// Scans forward from `from` for byte `b`, returning its least index.
fn scan_byte(data: &[u8], from: usize, b: u8) -> (r: Option<usize>)
    requires
        from <= data@.len(),
    ensures
        match r {
            Some(j) => find_byte(data@, from as int, b) == Some(j as int) && from <= j < data@.len(),
            None => find_byte(data@, from as int, b) is None,
        },
{
    let len = data.len();
    let mut j = from;
    while j < len && data[j] != b
        invariant
            from <= j <= len == data@.len(),
            find_byte(data@, from as int, b) == find_byte(data@, j as int, b),
        decreases len - j,
    {
        j = j + 1;
    }
    if j < len {
        Some(j)
    } else {
        None
    }
}

/// A minimal well-formed article body for a payload: the begin-marker
/// line, one further header line, the encoded payload, and a closing
/// carriage return and line feed.
pub open spec fn frame_payload_spec(s: Seq<u8>) -> Seq<u8> {
    seq![0x3du8, 0x79u8, 0x0au8, 0x0au8] + yencode_spec(s) + seq![0x0du8, 0x0au8]
}

/// Round trip through the frame: for any byte sequence, framing its
/// reference encoding as an article body and then extracting and decoding
/// yields the original bytes exactly.
pub proof fn lemma_frame_round_trip(s: Seq<u8>)
    ensures
        extract_and_decode_spec(frame_payload_spec(s)) == Ok::<Seq<u8>, DecodeError>(s),
{
    let enc = yencode_spec(s);
    let a = frame_payload_spec(s);
    let n = a.len() as int;
    assert(n == enc.len() + 6);
    lemma_yencode_no_line_breaks(s);
    assert(a[0] == 0x3d && a[1] == 0x79);
    assert(find_marker(a, 0, true) == Some(0int));
    assert(a[2] == 0x0a);
    assert(find_byte(a, 0, 0x0a) == Some(2int)) by {
        reveal_with_fuel(find_byte, 4);
    }
    assert(a[3] == 0x0a);
    assert(find_byte(a, 3, 0x0a) == Some(3int));
    assert(a[n - 1] == 0x0a && a[n - 2] == 0x0d);
    assert(rfind_byte(a, n, 0x0d) == Some(n - 2)) by {
        reveal_with_fuel(rfind_byte, 3);
    }
    assert(n - 2 >= 4);
    assert(frame_bounds_spec(a) == Ok::<(int, int), DecodeError>((4int, n - 2)));
    assert(a.subrange(4, n - 2) =~= enc);
    lemma_yenc_round_trip(s);
}

/// Frames a payload with the reference encoder, producing a minimal
/// well-formed article body.
pub fn encode_article(data: &[u8]) -> (out: Vec<u8>)
    ensures
        out@ == frame_payload_spec(data@),
{
    let mut out: Vec<u8> = Vec::new();
    out.push(0x3d);
    out.push(0x79);
    out.push(0x0a);
    out.push(0x0a);
    let mut enc = yencode(data);
    out.append(&mut enc);
    out.push(0x0d);
    out.push(0x0a);
    proof {
        assert(out@ =~= frame_payload_spec(data@));
    }
    out
}

} // verus!
