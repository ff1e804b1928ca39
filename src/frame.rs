use vstd::prelude::*;
use vstd::utf8::*;

verus! {

/// A RESP frame as it travels on the wire.
#[derive(Debug)]
pub enum Frame {
    Simple(String),
    Error(String),
    Integer(i64),
    Bulk(Option<Vec<u8>>),
    Null,
    Array(Vec<Frame>),
    File(Vec<u8>),
}

/// Why a frame could not be decoded.
#[derive(Debug)]
pub enum Error {
    /// Not enough data is available to parse a message.
    Incomplete,
    /// Invalid message format.
    Other(String),
}

/// The mathematical value of a [`Frame`].
pub enum FrameV {
    Simple(Seq<char>),
    Error(Seq<char>),
    Integer(i64),
    Bulk(Option<Seq<u8>>),
    Null,
    Array(Seq<FrameV>),
    File(Seq<u8>),
}

impl View for Frame {
    type V = FrameV;

    open spec fn view(&self) -> FrameV {
        frame_view(self)
    }
}

/// The value of a frame, element by element for an array.
pub open spec fn frame_view(f: &Frame) -> FrameV
    decreases f,
{
    match f {
        Frame::Simple(s) => FrameV::Simple(s@),
        Frame::Error(s) => FrameV::Error(s@),
        Frame::Integer(n) => FrameV::Integer(*n),
        Frame::Bulk(None) => FrameV::Bulk(None),
        Frame::Bulk(Some(b)) => FrameV::Bulk(Some(b@)),
        Frame::Null => FrameV::Null,
        Frame::Array(v) => FrameV::Array(
            Seq::new(
                v@.len(),
                |i: int|
                    if 0 <= i < v@.len() {
                        frame_view(&v@[i])
                    } else {
                        FrameV::Null
                    },
            ),
        ),
        Frame::File(b) => FrameV::File(b@),
    }
}

/// The values of a sequence of frames.
pub open spec fn views(v: Seq<Frame>) -> Seq<FrameV> {
    Seq::new(v.len(), |i: int| v[i]@)
}

/// An array frame's value is the array of its elements' values.
pub proof fn lemma_array_view(v: Vec<Frame>)
    ensures
        Frame::Array(v)@ == FrameV::Array(views(v@)),
{
    if let FrameV::Array(x) = Frame::Array(v)@ {
        assert(x =~= views(v@));
    }
}

// ----- The wire format -----

pub const CR: u8 = 13;

pub const LF: u8 = 10;

pub open spec fn crlf() -> Seq<u8> {
    seq![CR, LF]
}

/// A CRLF starts at position `i` of `s`.
pub open spec fn crlf_at(s: Seq<u8>, i: int) -> bool {
    0 <= i && i + 1 < s.len() && s[i] == CR && s[i + 1] == LF
}

/// The first position at or after `i` where a CRLF starts, if any.
pub open spec fn line_end(s: Seq<u8>, i: int) -> Option<int>
    decreases s.len() - i,
{
    if i < 0 || i + 1 >= s.len() {
        None
    } else if crlf_at(s, i) {
        Some(i)
    } else {
        line_end(s, i + 1)
    }
}

pub open spec fn is_digit(b: u8) -> bool {
    48 <= b <= 57
}

pub open spec fn all_digits(d: Seq<u8>) -> bool {
    forall|i: int| 0 <= i < d.len() ==> is_digit(#[trigger] d[i])
}

/// The number that a string of ASCII digits spells in base ten.
pub open spec fn digits_value(d: Seq<u8>) -> nat
    decreases d.len(),
{
    if d.len() == 0 {
        0
    } else {
        digits_value(d.drop_last()) * 10 + (d.last() - 48) as nat
    }
}

/// The base-ten ASCII digits of `n`, without leading zeros.
pub open spec fn decimal(n: nat) -> Seq<u8>
    decreases n,
{
    if n < 10 {
        seq![(48 + n) as u8]
    } else {
        decimal(n / 10).push((48 + n % 10) as u8)
    }
}

/// The ASCII text of a signed integer: an optional `-`, then its digits.
pub open spec fn signed_decimal(n: int) -> Seq<u8> {
    if n < 0 {
        seq![45u8] + decimal((-n) as nat)
    } else {
        decimal(n as nat)
    }
}

/// A non-empty run of digits read as an unsigned number.
pub open spec fn unsigned_of(line: Seq<u8>) -> Option<nat> {
    if line.len() > 0 && all_digits(line) {
        Some(digits_value(line))
    } else {
        None
    }
}

/// An optional `-` followed by digits, read as an `i64`.
pub open spec fn integer_of(line: Seq<u8>) -> Option<i64> {
    if line.len() > 0 && line[0] == 45 {
        match unsigned_of(line.drop_first()) {
            Some(m) if m <= 0x8000_0000_0000_0000 => Some((-m) as i64),
            _ => None,
        }
    } else {
        match unsigned_of(line) {
            Some(m) if m <= 0x7fff_ffff_ffff_ffff => Some(m as i64),
            _ => None,
        }
    }
}

/// The tokens of a line split on each single space, empty tokens included.
pub open spec fn split_spaces(line: Seq<u8>) -> Seq<Seq<u8>>
    decreases line.len(),
{
    if line.len() == 0 {
        seq![Seq::<u8>::empty()]
    } else {
        let rest = split_spaces(line.drop_last());
        if line.last() == 32 {
            rest.push(Seq::<u8>::empty())
        } else {
            rest.update(rest.len() - 1, rest.last().push(line.last()))
        }
    }
}

/// An inline command: each token becomes a bulk string.
pub open spec fn inline_frame(line: Seq<u8>) -> FrameV {
    FrameV::Array(split_spaces(line).map_values(|t: Seq<u8>| FrameV::Bulk(Some(t))))
}

/// The bytes that the writer emits for a frame.
pub open spec fn encode(f: FrameV) -> Seq<u8>
    decreases f,
{
    match f {
        FrameV::Simple(s) => seq![43u8] + encode_utf8(s) + crlf(),
        FrameV::Error(s) => seq![45u8] + encode_utf8(s) + crlf(),
        FrameV::Integer(n) => seq![58u8] + signed_decimal(n as int) + crlf(),
        FrameV::Bulk(None) => seq![36u8, 45u8, 49u8] + crlf(),
        FrameV::Bulk(Some(b)) => seq![36u8] + decimal(b.len()) + crlf() + b + crlf(),
        FrameV::Null => Seq::empty(),
        FrameV::Array(fs) => seq![42u8] + decimal(fs.len()) + crlf() + encode_list(fs),
        FrameV::File(b) => seq![36u8] + decimal(b.len()) + crlf() + b,
    }
}

/// The bytes that the writer emits for frames one after the other.
pub open spec fn encode_list(fs: Seq<FrameV>) -> Seq<u8>
    decreases fs,
{
    if fs.len() == 0 {
        Seq::empty()
    } else {
        encode_list(fs.drop_last()) + encode(fs.last())
    }
}

/// What decoding from position `p` of `s` gives.
pub enum ParsedV {
    /// A frame, and the position just after it.
    Done(FrameV, int),
    Incomplete,
    Invalid,
}

/// What decoding `n` frames in a row from position `p` of `s` gives.
pub enum ParsedListV {
    Done(Seq<FrameV>, int),
    Incomplete,
    Invalid,
}

/// Decodes one frame starting at position `p` of `s`; `expect_file` asks for a
/// length-prefixed payload without a trailing CRLF.
pub open spec fn parse_spec(s: Seq<u8>, p: int, expect_file: bool) -> ParsedV
    decreases s.len() - p, 0int,
    via parse_spec_decreases
{
    if p < 0 || p >= s.len() {
        ParsedV::Incomplete
    } else {
        match line_end(s, p + 1) {
            None => ParsedV::Incomplete,
            Some(e) => {
                let tag = s[p];
                let line = s.subrange(p + 1, e);
                if tag == 36 {
                    if line == seq![45u8, 49u8] {
                        ParsedV::Done(FrameV::Bulk(None), e + 2)
                    } else {
                        match unsigned_of(line) {
                            None => ParsedV::Invalid,
                            Some(n) => if n > usize::MAX {
                                ParsedV::Invalid
                            } else if expect_file {
                                if e + 2 + n > s.len() {
                                    ParsedV::Incomplete
                                } else {
                                    ParsedV::Done(FrameV::File(s.subrange(e + 2, e + 2 + n)), e + 2 + n)
                                }
                            } else if e + 4 + n > s.len() {
                                ParsedV::Incomplete
                            } else if !crlf_at(s, e + 2 + n) {
                                ParsedV::Invalid
                            } else {
                                ParsedV::Done(FrameV::Bulk(Some(s.subrange(e + 2, e + 2 + n))), e + 4 + n)
                            },
                        }
                    }
                } else if tag == 42 {
                    match unsigned_of(line) {
                        None => ParsedV::Invalid,
                        Some(n) => if n > usize::MAX {
                            ParsedV::Invalid
                        } else {
                            match parse_list_spec(s, e + 2, n) {
                                ParsedListV::Done(fs, q) => ParsedV::Done(FrameV::Array(fs), q),
                                ParsedListV::Incomplete => ParsedV::Incomplete,
                                ParsedListV::Invalid => ParsedV::Invalid,
                            }
                        },
                    }
                } else if tag == 43 || tag == 45 {
                    if valid_utf8(line) {
                        if tag == 43 {
                            ParsedV::Done(FrameV::Simple(decode_utf8(line)), e + 2)
                        } else {
                            ParsedV::Done(FrameV::Error(decode_utf8(line)), e + 2)
                        }
                    } else {
                        ParsedV::Invalid
                    }
                } else if tag == 58 {
                    match integer_of(line) {
                        Some(v) => ParsedV::Done(FrameV::Integer(v), e + 2),
                        None => ParsedV::Invalid,
                    }
                } else {
                    ParsedV::Done(inline_frame(s.subrange(p, e)), e + 2)
                }
            },
        }
    }
}

#[via_fn]
proof fn parse_spec_decreases(s: Seq<u8>, p: int, expect_file: bool) {
    if 0 <= p < s.len() {
        lemma_line_end_bounds(s, p + 1);
    }
}

/// A line end found from `i` lies at or after `i`, with room for the CRLF.
pub proof fn lemma_line_end_bounds(s: Seq<u8>, i: int)
    ensures
        line_end(s, i) matches Some(e) ==> i <= e && crlf_at(s, e) && e + 1 < s.len(),
    decreases s.len() - i,
{
    if i < 0 || i + 1 >= s.len() {
    } else if crlf_at(s, i) {
    } else {
        lemma_line_end_bounds(s, i + 1);
    }
}

/// Decodes `n` frames in a row, starting at position `p` of `s`.
pub open spec fn parse_list_spec(s: Seq<u8>, p: int, n: nat) -> ParsedListV
    decreases s.len() - p, 1int, n,
{
    if n == 0 {
        ParsedListV::Done(Seq::empty(), p)
    } else if p < 0 || p >= s.len() {
        ParsedListV::Incomplete
    } else {
        match parse_spec(s, p, false) {
            ParsedV::Done(f, q) => if q <= p || q > s.len() {
                ParsedListV::Invalid
            } else {
                match parse_list_spec(s, q, (n - 1) as nat) {
                    ParsedListV::Done(fs, r) => ParsedListV::Done(seq![f] + fs, r),
                    other => other,
                }
            },
            ParsedV::Incomplete => ParsedListV::Incomplete,
            ParsedV::Invalid => ParsedListV::Invalid,
        }
    }
}


// ----- Decoding -----

/// Finds the first CRLF at or after `start`.
fn get_line(src: &[u8], start: usize) -> (r: Option<usize>)
    ensures
        r matches Some(e) ==> line_end(src@, start as int) == Some(e as int),
        r is None ==> line_end(src@, start as int) is None,
{
    let mut i = start;
    while i < src.len() && i + 1 < src.len()
        invariant
            start <= i,
            line_end(src@, start as int) == line_end(src@, i as int),
        decreases src.len() - i,
    {
        if src[i] == CR && src[i + 1] == LF {
            return Some(i);
        }
        i = i + 1;
    }
    None
}

/// A prefix of a run of digits never spells a larger number than the run.
pub proof fn lemma_digits_value_prefix(d: Seq<u8>, k: int)
    requires
        0 <= k <= d.len(),
    ensures
        digits_value(d.subrange(0, k)) <= digits_value(d),
    decreases d.len(),
{
    if k < d.len() {
        lemma_digits_value_prefix(d.drop_last(), k);
        assert(d.drop_last().subrange(0, k) =~= d.subrange(0, k));
    } else {
        assert(d.subrange(0, k) =~= d);
    }
}

/// Reads the digits between `start` and `end` as an unsigned number that fits a `u64`.
fn get_decimal(src: &[u8], start: usize, end: usize) -> (r: Option<u64>)
    requires
        start <= end <= src@.len(),
    ensures
        match unsigned_of(src@.subrange(start as int, end as int)) {
            Some(n) => if n <= u64::MAX { r == Some(n as u64) } else { r is None },
            None => r is None,
        },
{
    let ghost line = src@.subrange(start as int, end as int);
    if start == end {
        return None;
    }
    let mut acc: u64 = 0;
    let mut k = start;
    while k < end
        invariant
            start <= k <= end <= src@.len(),
            line == src@.subrange(start as int, end as int),
            all_digits(src@.subrange(start as int, k as int)),
            acc == digits_value(src@.subrange(start as int, k as int)),
        decreases end - k,
    {
        let b = src[k];
        let ghost next = src@.subrange(start as int, k + 1);
        assert(next.drop_last() =~= src@.subrange(start as int, k as int));
        if b < 48 || b > 57 {
            assert(!is_digit(line[k - start]));
            return None;
        }
        let digit = (b - 48) as u64;
        proof {
            lemma_digits_value_prefix(line, k + 1 - start);
            assert(line.subrange(0, k + 1 - start) =~= next);
        }
        match acc.checked_mul(10) {
            None => {
                return None;
            },
            Some(m) => match m.checked_add(digit) {
                None => {
                    return None;
                },
                Some(v) => {
                    acc = v;
                },
            },
        }
        k = k + 1;
    }
    assert(src@.subrange(start as int, k as int) =~= line);
    Some(acc)
}

/// Copies the bytes between `start` and `end`.
pub(crate) fn copy_range(src: &[u8], start: usize, end: usize) -> (r: Vec<u8>)
    requires
        start <= end <= src@.len(),
    ensures
        r@ == src@.subrange(start as int, end as int),
{
    let mut out: Vec<u8> = Vec::new();
    let mut k = start;
    while k < end
        invariant
            start <= k <= end <= src@.len(),
            out@ == src@.subrange(start as int, k as int),
        decreases end - k,
    {
        out.push(src[k]);
        assert(out@ =~= src@.subrange(start as int, k + 1));
        k = k + 1;
    }
    out
}

/// Splits the bytes between `start` and `end` on each space into bulk strings.
fn split_inline(src: &[u8], start: usize, end: usize) -> (r: Vec<Frame>)
    requires
        start <= end <= src@.len(),
    ensures
        FrameV::Array(views(r@)) == inline_frame(src@.subrange(start as int, end as int)),
{
    let mut tokens: Vec<Frame> = Vec::new();
    let mut cur: Vec<u8> = Vec::new();
    let mut k = start;
    assert(src@.subrange(start as int, start as int) =~= Seq::<u8>::empty());
    while k < end
        invariant
            start <= k <= end <= src@.len(),
            ({
                let sp = split_spaces(src@.subrange(start as int, k as int));
                &&& tokens@.len() + 1 == sp.len()
                &&& forall|i: int| 0 <= i < tokens@.len() ==> #[trigger] tokens@[i]@ == FrameV::Bulk(Some(sp[i]))
                &&& cur@ == sp.last()
            }),
        decreases end - k,
    {
        let ghost line = src@.subrange(start as int, k + 1);
        assert(line.drop_last() =~= src@.subrange(start as int, k as int));
        let b = src[k];
        if b == 32 {
            let token = cur;
            cur = Vec::new();
            tokens.push(Frame::Bulk(Some(token)));
        } else {
            cur.push(b);
        }
        k = k + 1;
    }
    let ghost sp = split_spaces(src@.subrange(start as int, end as int));
    tokens.push(Frame::Bulk(Some(cur)));
    assert(views(tokens@) =~= sp.map_values(|t: Seq<u8>| FrameV::Bulk(Some(t))));
    tokens
}

/// Reads an optional `-` and digits between `start` and `end` as an `i64`.
pub(crate) fn get_integer(src: &[u8], start: usize, end: usize) -> (r: Option<i64>)
    requires
        start <= end <= src@.len(),
    ensures
        r == integer_of(src@.subrange(start as int, end as int)),
{
    let ghost line = src@.subrange(start as int, end as int);
    if start < end && src[start] == 45 {
        assert(line.drop_first() =~= src@.subrange(start + 1, end as int));
        match get_decimal(src, start + 1, end) {
            Some(m) => if m <= 0x8000_0000_0000_0000 {
                if m == 0x8000_0000_0000_0000 {
                    Some(i64::MIN)
                } else {
                    Some(-(m as i64))
                }
            } else {
                None
            },
            None => None,
        }
    } else {
        match get_decimal(src, start, end) {
            Some(m) => if m <= 0x7fff_ffff_ffff_ffff {
                Some(m as i64)
            } else {
                None
            },
            None => None,
        }
    }
}

/// The exec counterpart of [`ParsedV`].
pub open spec fn parsed_matches(r: Result<(Frame, usize), Error>, v: ParsedV) -> bool {
    match r {
        Ok((f, q)) => v == ParsedV::Done(f@, q as int),
        Err(Error::Incomplete) => v is Incomplete,
        Err(Error::Other(_)) => v is Invalid,
    }
}

fn invalid() -> (r: Error)
    ensures
        r is Other,
{
    Error::Other("protocol error; invalid frame format".to_string())
}

/// Decodes one frame starting at `p`; on success also gives the position after it.
fn parse_at(src: &[u8], p: usize, expect_file: bool) -> (r: Result<(Frame, usize), Error>)
    ensures
        parsed_matches(r, parse_spec(src@, p as int, expect_file)),
        r matches Ok((_, q)) ==> p < q <= src@.len(),
    decreases src@.len() - p,
{
    let ghost s = src@;
    if p >= src.len() {
        return Err(Error::Incomplete);
    }
    let e = match get_line(src, p + 1) {
        None => {
            return Err(Error::Incomplete);
        },
        Some(e) => e,
    };
    proof {
        lemma_line_end_bounds(s, p + 1);
    }
    let ghost line = s.subrange(p + 1, e as int);
    let tag = src[p];
    if tag == 36 {
        if e == p + 3 && src[p + 1] == 45 && src[p + 2] == 49 {
            assert(line =~= seq![45u8, 49u8]);
            return Ok((Frame::Bulk(None), e + 2));
        }
        assert(line != seq![45u8, 49u8]) by {
            if line == seq![45u8, 49u8] {
                assert(line[0] == 45 && line[1] == 49 && line.len() == 2);
            }
        }
        let n = match get_decimal(src, p + 1, e) {
            None => {
                return Err(invalid());
            },
            Some(n) => n,
        };
        if n > usize::MAX as u64 {
            return Err(invalid());
        }
        let n = n as usize;
        let start = e + 2;
        if expect_file {
            if n > src.len() - start {
                return Err(Error::Incomplete);
            }
            let payload = copy_range(src, start, start + n);
            Ok((Frame::File(payload), start + n))
        } else {
            if n > src.len() - start || src.len() - start - n < 2 {
                return Err(Error::Incomplete);
            }
            if src[start + n] != CR || src[start + n + 1] != LF {
                return Err(invalid());
            }
            let payload = copy_range(src, start, start + n);
            Ok((Frame::Bulk(Some(payload)), start + n + 2))
        }
    } else if tag == 42 {
        let n = match get_decimal(src, p + 1, e) {
            None => {
                return Err(invalid());
            },
            Some(n) => n,
        };
        if n > usize::MAX as u64 {
            return Err(invalid());
        }
        let n = n as usize;
        let mut items: Vec<Frame> = Vec::new();
        let mut q = e + 2;
        let mut k: usize = 0;
        while k < n
            invariant
                s == src@,
                p < q <= s.len(),
                p + 1 < e + 2,
                s[p as int] == 42,
                line_end(s, p + 1) == Some(e as int),
                line == s.subrange(p + 1, e as int),
                unsigned_of(line) == Some(n as nat),
                k <= n,
                items@.len() == k,
                parse_list_spec(s, e + 2, n as nat) == prepend_list(
                    views(items@),
                    parse_list_spec(s, q as int, (n - k) as nat),
                ),
            decreases n - k,
        {
            if q >= src.len() {
                assert(parse_list_spec(s, q as int, (n - k) as nat) is Incomplete);
                assert(parse_list_spec(s, e + 2, n as nat) is Incomplete);
                return Err(Error::Incomplete);
            }
            match parse_at(src, q, false) {
                Ok((f, q2)) => {
                    let ghost old_views = views(items@);
                    let ghost fv = f@;
                    items.push(f);
                    assert(views(items@) =~= old_views.push(fv));
                    proof {
                        lemma_prepend_list_push(old_views, fv, parse_list_spec(s, q2 as int, (n - k - 1) as nat));
                    }
                    q = q2;
                },
                Err(err) => {
                    assert(parse_list_spec(s, q as int, (n - k) as nat) is Incomplete || parse_list_spec(s, q as int, (n - k) as nat) is Invalid);
                    return Err(err);
                },
            }
            k = k + 1;
        }
        let ghost iv = views(items@);
        let f = Frame::Array(items);
        proof {
            assert(parse_list_spec(s, q as int, 0) == ParsedListV::Done(Seq::empty(), q as int));
            assert(iv + Seq::empty() =~= iv);
            if let FrameV::Array(x) = f@ {
                assert(x =~= iv);
            }
        }
        Ok((f, q))
    } else if tag == 43 || tag == 45 {
        let bytes = copy_range(src, p + 1, e);
        match string_from_utf8(bytes) {
            None => Err(invalid()),
            Some(text) => if tag == 43 {
                Ok((Frame::Simple(text), e + 2))
            } else {
                Ok((Frame::Error(text), e + 2))
            },
        }
    } else if tag == 58 {
        match get_integer(src, p + 1, e) {
            Some(v) => Ok((Frame::Integer(v), e + 2)),
            None => Err(invalid()),
        }
    } else {
        let tokens = split_inline(src, p, e);
        let ghost tv = views(tokens@);
        let f = Frame::Array(tokens);
        proof {
            if let FrameV::Array(x) = f@ {
                assert(x =~= tv);
            }
        }
        Ok((f, e + 2))
    }
}

/// Puts decoded frames in front of what decoding the rest gives.
pub open spec fn prepend_list(fs: Seq<FrameV>, r: ParsedListV) -> ParsedListV {
    match r {
        ParsedListV::Done(gs, q) => ParsedListV::Done(fs + gs, q),
        other => other,
    }
}

proof fn lemma_prepend_list_push(fs: Seq<FrameV>, f: FrameV, r: ParsedListV)
    ensures
        prepend_list(fs, prepend_list(seq![f], r)) == prepend_list(fs.push(f), r),
{
    if let ParsedListV::Done(gs, q) = r {
        assert(fs + (seq![f] + gs) =~= fs.push(f) + gs);
    }
}

/// Relies on `String::from_utf8`: it succeeds exactly on valid UTF-8, and the
/// string then holds the characters that the bytes encode.
#[verifier::external_body]
pub(crate) fn string_from_utf8(bytes: Vec<u8>) -> (r: Option<String>)
    ensures
        r is Some <==> valid_utf8(bytes@),
        r matches Some(s) ==> s@ == decode_utf8(bytes@),
{
    String::from_utf8(bytes).ok()
}

// ----- Laws of the codec -----

/// No byte of `b` is a CR or an LF.
pub open spec fn no_cr_lf(b: Seq<u8>) -> bool {
    forall|i: int| 0 <= i < b.len() ==> #[trigger] b[i] != CR && b[i] != LF
}

/// The frames that the writer can emit so that decoding gives them back:
/// status lines without CR or LF, no `Null`, a file only at the top level.
pub open spec fn writable(f: FrameV, top: bool) -> bool
    decreases f,
{
    match f {
        FrameV::Simple(s) => no_cr_lf(encode_utf8(s)),
        FrameV::Error(s) => no_cr_lf(encode_utf8(s)),
        FrameV::Integer(_) => true,
        FrameV::Bulk(None) => true,
        FrameV::Bulk(Some(b)) => b.len() <= usize::MAX,
        FrameV::Null => false,
        FrameV::Array(fs) => fs.len() <= usize::MAX && writable_list(fs),
        FrameV::File(b) => top && b.len() <= usize::MAX,
    }
}

/// Each frame of `fs` is writable inside an array.
pub open spec fn writable_list(fs: Seq<FrameV>) -> bool
    decreases fs,
{
    if fs.len() == 0 {
        true
    } else {
        writable_list(fs.drop_last()) && writable(fs.last(), false)
    }
}

proof fn lemma_decimal(n: nat)
    ensures
        decimal(n).len() > 0,
        all_digits(decimal(n)),
        digits_value(decimal(n)) == n,
    decreases n,
{
    if n >= 10 {
        lemma_decimal(n / 10);
        assert(decimal(n).drop_last() =~= decimal(n / 10));
        vstd::arithmetic::div_mod::lemma_fundamental_div_mod(n as int, 10);
        assert(0 <= n % 10 < 10);
        assert(decimal(n).last() == (48 + n % 10) as u8);
        assert(digits_value(decimal(n)) == digits_value(decimal(n / 10)) * 10 + (n % 10));
    } else {
        assert(decimal(n).drop_last() =~= Seq::<u8>::empty());
        assert(digits_value(decimal(n)) == digits_value(Seq::<u8>::empty()) * 10 + n);
    }
}

proof fn lemma_signed_decimal(n: i64)
    ensures
        integer_of(signed_decimal(n as int)) == Some(n),
        no_cr_lf(signed_decimal(n as int)),
{
    if n < 0 {
        let d = decimal((-n) as nat);
        lemma_decimal((-n) as nat);
        assert(signed_decimal(n as int).drop_first() =~= d);
    } else {
        lemma_decimal(n as nat);
    }
}

/// Where the bytes from `i` to `j` hold no CR and a CRLF starts at `j`, the
/// line from `i` ends at `j`.
proof fn lemma_line_end_at(s: Seq<u8>, i: int, j: int)
    requires
        0 <= i <= j,
        crlf_at(s, j),
        forall|k: int| i <= k < j ==> #[trigger] s[k] != CR,
    ensures
        line_end(s, i) == Some(j),
    decreases j - i,
{
    if i < j {
        lemma_line_end_at(s, i + 1, j);
    }
}

proof fn lemma_encode_list_front(fs: Seq<FrameV>)
    requires
        fs.len() > 0,
    ensures
        encode_list(fs) == encode(fs[0]) + encode_list(fs.drop_first()),
        writable_list(fs) ==> writable(fs[0], false) && writable_list(fs.drop_first()),
    decreases fs.len(),
{
    if fs.len() == 1 {
        assert(fs.drop_last() =~= Seq::<FrameV>::empty());
        assert(fs.drop_first() =~= Seq::<FrameV>::empty());
        assert(encode_list(fs) =~= encode(fs[0]) + encode_list(fs.drop_first()));
    } else {
        let init = fs.drop_last();
        lemma_encode_list_front(init);
        assert(init.drop_first() =~= fs.drop_first().drop_last());
        assert(fs.drop_first().last() == fs.last());
        assert(encode_list(fs) =~= encode(fs[0]) + encode_list(fs.drop_first()));
    }
}

/// A line `<tag><body>CRLF` followed by `rest` at position `p` of `s`, where
/// the body holds no CR: the line ends right after the body.
proof fn lemma_line_at(s: Seq<u8>, p: int, tag: u8, body: Seq<u8>, rest: Seq<u8>)
    requires
        0 <= p,
        p + 1 + body.len() + 2 + rest.len() <= s.len(),
        s.subrange(p, p + 1 + body.len() + 2 + rest.len()) == seq![tag] + body + crlf() + rest,
        forall|i: int| 0 <= i < body.len() ==> #[trigger] body[i] != CR,
    ensures
        s[p] == tag,
        line_end(s, p + 1) == Some(p + 1 + body.len()),
        s.subrange(p + 1, p + 1 + body.len()) == body,
        s.subrange(p + 3 + body.len(), p + 3 + body.len() + rest.len()) == rest,
{
    let e = p + 1 + body.len();
    let whole = seq![tag] + body + crlf() + rest;
    assert forall|i: int| 0 <= i < whole.len() implies s[p + i] == whole[i] by {
        assert(s.subrange(p, p + whole.len())[i] == s[p + i]);
    }
    assert(s[p] == whole[0]);
    assert forall|k: int| p + 1 <= k < e implies #[trigger] s[k] != CR by {
        assert(s[p + (k - p)] == whole[k - p]);
    }
    assert(s[e] == whole[e - p]);
    assert(s[e + 1] == whole[e + 1 - p]);
    lemma_line_end_at(s, p + 1, e);
    assert forall|i: int| 0 <= i < body.len() implies s.subrange(p + 1, e)[i] == body[i] by {
        assert(s[p + (1 + i)] == whole[1 + i]);
    }
    assert(s.subrange(p + 1, e) =~= body);
    assert forall|i: int| 0 <= i < rest.len() implies s.subrange(e + 2, e + 2 + rest.len())[i] == rest[i] by {
        assert(s[p + (e + 2 - p + i)] == whole[e + 2 - p + i]);
    }
    assert(s.subrange(e + 2, e + 2 + rest.len()) =~= rest);
}

/// The digits of a length read back as that length, and never as `-1`.
proof fn lemma_decimal_line(n: nat)
    ensures
        unsigned_of(decimal(n)) == Some(n),
        decimal(n) != seq![45u8, 49u8],
        forall|i: int| 0 <= i < decimal(n).len() ==> #[trigger] decimal(n)[i] != CR,
{
    lemma_decimal(n);
    assert(is_digit(decimal(n)[0]));
    assert forall|i: int| 0 <= i < decimal(n).len() implies #[trigger] decimal(n)[i] != CR by {
        assert(is_digit(decimal(n)[i]));
    }
}

/// Decoding at `p` gives back a writable frame whose encoding stands there.
pub proof fn lemma_parse_encode_at(f: FrameV, s: Seq<u8>, p: int, top: bool)
    requires
        writable(f, top),
        0 <= p,
        p + encode(f).len() <= s.len(),
        s.subrange(p, p + encode(f).len()) == encode(f),
    ensures
        parse_spec(s, p, f is File) == ParsedV::Done(f, p + encode(f).len()),
    decreases f,
{
    broadcast use encode_utf8_valid_utf8, encode_utf8_decode_utf8;

    let ef = f is File;
    match f {
        FrameV::Simple(st) => {
            let b = encode_utf8(st);
            assert(encode(f) =~= seq![43u8] + b + crlf() + Seq::<u8>::empty());
            lemma_line_at(s, p, 43, b, Seq::empty());
        },
        FrameV::Error(st) => {
            let b = encode_utf8(st);
            assert(encode(f) =~= seq![45u8] + b + crlf() + Seq::<u8>::empty());
            lemma_line_at(s, p, 45, b, Seq::empty());
        },
        FrameV::Integer(n) => {
            let b = signed_decimal(n as int);
            lemma_signed_decimal(n);
            assert(encode(f) =~= seq![58u8] + b + crlf() + Seq::<u8>::empty());
            lemma_line_at(s, p, 58, b, Seq::empty());
        },
        FrameV::Bulk(None) => {
            let b = seq![45u8, 49u8];
            assert(encode(f) =~= seq![36u8] + b + crlf() + Seq::<u8>::empty());
            lemma_line_at(s, p, 36, b, Seq::empty());
        },
        FrameV::Bulk(Some(b)) => {
            let d = decimal(b.len());
            lemma_decimal_line(b.len());
            assert(encode(f) =~= seq![36u8] + d + crlf() + (b + crlf()));
            lemma_line_at(s, p, 36, d, b + crlf());
            let e = p + 1 + d.len();
            let t = s.subrange(e + 2, e + 2 + b.len() + 2);
            assert(t[b.len() as int] == CR && t[b.len() + 1int] == LF);
            assert(crlf_at(s, e + 2 + b.len()));
            assert(s.subrange(e + 2, e + 2 + b.len()) =~= b) by {
                assert forall|i: int| 0 <= i < b.len() implies s.subrange(e + 2, e + 2 + b.len())[i] == b[i] by {
                    assert(t[i] == (b + crlf())[i]);
                }
            }
        },
        FrameV::Null => {},
        FrameV::Array(fs) => {
            let d = decimal(fs.len());
            lemma_decimal_line(fs.len());
            assert(encode(f) =~= seq![42u8] + d + crlf() + encode_list(fs));
            lemma_line_at(s, p, 42, d, encode_list(fs));
            assert(decreases_to!(f => f->Array_0));
            lemma_parse_encode_list_at(fs, s, p + 3 + d.len());
        },
        FrameV::File(b) => {
            let d = decimal(b.len());
            lemma_decimal_line(b.len());
            assert(encode(f) =~= seq![36u8] + d + crlf() + b);
            lemma_line_at(s, p, 36, d, b);
        },
    }
}

/// Decoding a run of writable frames gives them back.
pub proof fn lemma_parse_encode_list_at(fs: Seq<FrameV>, s: Seq<u8>, p: int)
    requires
        writable_list(fs),
        0 <= p,
        p + encode_list(fs).len() <= s.len(),
        s.subrange(p, p + encode_list(fs).len()) == encode_list(fs),
    ensures
        parse_list_spec(s, p, fs.len()) == ParsedListV::Done(fs, p + encode_list(fs).len()),
    decreases fs,
{
    if fs.len() > 0 {
        lemma_encode_list_front(fs);
        let e0 = encode(fs[0]);
        let tail = fs.subrange(1, fs.len() as int);
        assert(tail =~= fs.drop_first());
        let et = encode_list(tail);
        let whole = encode_list(fs);
        assert(s.subrange(p, p + e0.len()) =~= e0) by {
            assert forall|i: int| 0 <= i < e0.len() implies s.subrange(p, p + e0.len())[i] == e0[i] by {
                assert(s.subrange(p, p + whole.len())[i] == whole[i]);
            }
        }
        assert(s.subrange(p + e0.len(), p + e0.len() + et.len()) =~= et) by {
            assert forall|i: int| 0 <= i < et.len() implies s.subrange(p + e0.len(), p + e0.len() + et.len())[i] == et[i] by {
                assert(s.subrange(p, p + whole.len())[e0.len() + i] == whole[e0.len() + i]);
            }
        }
        assert(!(fs[0] is File));
        assert(decreases_to!(fs => fs[0]));
        lemma_parse_encode_at(fs[0], s, p, false);
        assert(decreases_to!(fs => fs.subrange(1, fs.len() as int)));
        lemma_parse_encode_list_at(tail, s, p + e0.len());
        assert(!(fs[0] is Null));
        assert(e0.len() > 0);
        assert(seq![fs[0]] + tail =~= fs);
        assert(tail.len() == (fs.len() - 1) as nat);
    } else {
        assert(encode_list(fs).len() == 0);
        assert(fs =~= Seq::<FrameV>::empty());
    }
}

/// Where no CRLF starts at or after `i`, no line ends there.
proof fn lemma_line_end_no_crlf(s: Seq<u8>, i: int)
    requires
        0 <= i,
        forall|k: int| i <= k < s.len() ==> !#[trigger] crlf_at(s, k),
    ensures
        line_end(s, i) is None,
    decreases s.len() - i,
{
    if i + 1 < s.len() {
        lemma_line_end_no_crlf(s, i + 1);
    }
}

/// A line `<tag><body>CRLF` of which `s` holds, from `p` on, only a proper
/// prefix, where the body holds no CR: no line ends in it.
proof fn lemma_line_cut(s: Seq<u8>, p: int, tag: u8, body: Seq<u8>, rest: Seq<u8>)
    requires
        0 <= p < s.len(),
        s.len() - p < 1 + body.len() + 2,
        s.subrange(p, s.len() as int) == (seq![tag] + body + crlf() + rest).subrange(0, s.len() - p),
        forall|i: int| 0 <= i < body.len() ==> #[trigger] body[i] != CR,
    ensures
        line_end(s, p + 1) is None,
{
    let whole = seq![tag] + body + crlf() + rest;
    assert forall|k: int| p + 1 <= k < s.len() implies !#[trigger] crlf_at(s, k) by {
        assert(s.subrange(p, s.len() as int)[k - p] == whole[k - p]);
        if k + 1 < s.len() {
            assert(k - p - 1 < body.len());
        }
    }
    lemma_line_end_no_crlf(s, p + 1);
}

/// A proper prefix of the encoding of a writable frame, standing at the end of
/// `s` from `p` on, decodes as incomplete.
pub proof fn lemma_parse_prefix_at(f: FrameV, s: Seq<u8>, p: int, top: bool)
    requires
        writable(f, top),
        0 <= p <= s.len(),
        s.len() - p < encode(f).len(),
        s.subrange(p, s.len() as int) == encode(f).subrange(0, s.len() - p),
    ensures
        parse_spec(s, p, f is File) is Incomplete,
    decreases f,
{
    if p < s.len() {
        let m = s.len() - p;
        match f {
            FrameV::Simple(st) => {
                assert(encode(f) =~= seq![43u8] + encode_utf8(st) + crlf() + Seq::<u8>::empty());
                lemma_line_cut(s, p, 43, encode_utf8(st), Seq::empty());
            },
            FrameV::Error(st) => {
                assert(encode(f) =~= seq![45u8] + encode_utf8(st) + crlf() + Seq::<u8>::empty());
                lemma_line_cut(s, p, 45, encode_utf8(st), Seq::empty());
            },
            FrameV::Integer(n) => {
                lemma_signed_decimal(n);
                let b = signed_decimal(n as int);
                assert(encode(f) =~= seq![58u8] + b + crlf() + Seq::<u8>::empty());
                lemma_line_cut(s, p, 58, b, Seq::empty());
            },
            FrameV::Bulk(None) => {
                let b = seq![45u8, 49u8];
                assert(encode(f) =~= seq![36u8] + b + crlf() + Seq::<u8>::empty());
                lemma_line_cut(s, p, 36, b, Seq::empty());
            },
            FrameV::Bulk(Some(b)) => {
                let d = decimal(b.len());
                lemma_decimal_line(b.len());
                let whole = seq![36u8] + d + crlf() + (b + crlf());
                assert(encode(f) =~= whole);
                if m < 1 + d.len() + 2 {
                    lemma_line_cut(s, p, 36, d, b + crlf());
                } else {
                    let s2 = s + whole.subrange(m, whole.len() as int);
                    lemma_complete(s, p, whole);
                    lemma_line_at(s2, p, 36, d, b + crlf());
                    lemma_line_end_prefix(s2, s, p + 1, p + 1 + d.len());
                    assert(s.subrange(p + 1, p + 1 + d.len()) =~= s2.subrange(p + 1, p + 1 + d.len()));
                }
            },
            FrameV::Null => {},
            FrameV::Array(fs) => {
                let d = decimal(fs.len());
                lemma_decimal_line(fs.len());
                let whole = seq![42u8] + d + crlf() + encode_list(fs);
                assert(encode(f) =~= whole);
                if m < 1 + d.len() + 2 {
                    lemma_line_cut(s, p, 42, d, encode_list(fs));
                } else {
                    let s2 = s + whole.subrange(m, whole.len() as int);
                    lemma_complete(s, p, whole);
                    lemma_line_at(s2, p, 42, d, encode_list(fs));
                    lemma_line_end_prefix(s2, s, p + 1, p + 1 + d.len());
                    assert(s.subrange(p + 1, p + 1 + d.len()) =~= s2.subrange(p + 1, p + 1 + d.len()));
                    let q = p + 3 + d.len();
                    assert(s.subrange(q, s.len() as int) =~= encode_list(fs).subrange(0, s.len() - q)) by {
                        assert forall|i: int| 0 <= i < s.len() - q implies s.subrange(q, s.len() as int)[i]
                            == encode_list(fs).subrange(0, s.len() - q)[i] by {
                            assert(s.subrange(p, s.len() as int)[q - p + i] == whole[q - p + i]);
                        }
                    }
                    assert(decreases_to!(f => f->Array_0));
                    lemma_parse_prefix_list_at(fs, s, q);
                }
            },
            FrameV::File(b) => {
                let d = decimal(b.len());
                lemma_decimal_line(b.len());
                let whole = seq![36u8] + d + crlf() + b;
                assert(encode(f) =~= whole);
                if m < 1 + d.len() + 2 {
                    lemma_line_cut(s, p, 36, d, b);
                } else {
                    let s2 = s + whole.subrange(m, whole.len() as int);
                    lemma_complete(s, p, whole);
                    lemma_line_at(s2, p, 36, d, b);
                    lemma_line_end_prefix(s2, s, p + 1, p + 1 + d.len());
                    assert(s.subrange(p + 1, p + 1 + d.len()) =~= s2.subrange(p + 1, p + 1 + d.len()));
                }
            },
        }
    }
}

/// Completing a cut encoding with its missing bytes puts the whole of it at `p`.
proof fn lemma_complete(s: Seq<u8>, p: int, whole: Seq<u8>)
    requires
        0 <= p <= s.len(),
        s.len() - p <= whole.len(),
        s.subrange(p, s.len() as int) == whole.subrange(0, s.len() - p),
    ensures
        ({
            let s2 = s + whole.subrange(s.len() - p, whole.len() as int);
            &&& s2.subrange(p, s2.len() as int) == whole
            &&& forall|k: int| 0 <= k < s.len() ==> s2[k] == s[k]
        }),
{
    let m = s.len() - p;
    let s2 = s + whole.subrange(m, whole.len() as int);
    assert forall|i: int| 0 <= i < whole.len() implies s2.subrange(p, s2.len() as int)[i] == whole[i] by {
        if i < m {
            assert(s.subrange(p, s.len() as int)[i] == whole.subrange(0, m)[i]);
        }
    }
    assert(s2.subrange(p, s2.len() as int) =~= whole);
}

/// A line end found in `long` that also lies inside `short`, where the two
/// agree up to the end of `short`, is found in `short` too.
proof fn lemma_line_end_prefix(long: Seq<u8>, short: Seq<u8>, i: int, e: int)
    requires
        0 <= i <= e,
        e + 1 < short.len() <= long.len(),
        forall|k: int| 0 <= k < short.len() ==> long[k] == short[k],
        line_end(long, i) == Some(e),
    ensures
        line_end(short, i) == Some(e),
    decreases e - i,
{
    assert(long[i] == short[i] && long[i + 1] == short[i + 1]);
    lemma_line_end_bounds(long, i + 1);
    if i < e {
        if crlf_at(long, i) {
        } else {
            lemma_line_end_prefix(long, short, i + 1, e);
        }
    }
}

/// A proper prefix of the encoding of writable frames, standing at the end of
/// `s` from `p` on, decodes as incomplete.
pub proof fn lemma_parse_prefix_list_at(fs: Seq<FrameV>, s: Seq<u8>, p: int)
    requires
        writable_list(fs),
        0 <= p <= s.len(),
        s.len() - p < encode_list(fs).len(),
        s.subrange(p, s.len() as int) == encode_list(fs).subrange(0, s.len() - p),
    ensures
        parse_list_spec(s, p, fs.len()) is Incomplete,
    decreases fs,
{
    if fs.len() == 0 {
        assert(encode_list(fs).len() == 0);
    } else if p < s.len() {
        lemma_encode_list_front(fs);
        let e0 = encode(fs[0]);
        let tail = fs.subrange(1, fs.len() as int);
        assert(tail =~= fs.drop_first());
        let et = encode_list(tail);
        let whole = encode_list(fs);
        let m = s.len() - p;
        assert(!(fs[0] is File));
        assert(decreases_to!(fs => fs[0]));
        if m < e0.len() {
            assert(s.subrange(p, s.len() as int) =~= e0.subrange(0, m)) by {
                assert forall|i: int| 0 <= i < m implies s.subrange(p, s.len() as int)[i] == e0.subrange(0, m)[i] by {
                    assert(whole.subrange(0, m)[i] == whole[i]);
                }
            }
            lemma_parse_prefix_at(fs[0], s, p, false);
        } else {
            assert(s.subrange(p, p + e0.len()) =~= e0) by {
                assert forall|i: int| 0 <= i < e0.len() implies s.subrange(p, p + e0.len())[i] == e0[i] by {
                    assert(s.subrange(p, s.len() as int)[i] == whole.subrange(0, m)[i]);
                }
            }
            lemma_parse_encode_at(fs[0], s, p, false);
            let q = p + e0.len();
            assert(s.subrange(q, s.len() as int) =~= et.subrange(0, s.len() - q)) by {
                assert forall|i: int| 0 <= i < s.len() - q implies s.subrange(q, s.len() as int)[i]
                    == et.subrange(0, s.len() - q)[i] by {
                    assert(s.subrange(p, s.len() as int)[e0.len() + i] == whole.subrange(0, m)[e0.len() + i]);
                }
            }
            assert(decreases_to!(fs => fs.subrange(1, fs.len() as int)));
            lemma_parse_prefix_list_at(tail, s, q);
            assert(!(fs[0] is Null));
        }
    }
}

/// Decoding what the writer emits for a writable frame gives that frame back,
/// whatever bytes follow it, and the position just after its encoding.
pub proof fn law_round_trip(f: FrameV, rest: Seq<u8>)
    requires
        writable(f, true),
    ensures
        parse_spec(encode(f) + rest, 0, f is File) == ParsedV::Done(f, encode(f).len() as int),
{
    let s = encode(f) + rest;
    assert(s.subrange(0, encode(f).len() as int) =~= encode(f));
    lemma_parse_encode_at(f, s, 0, true);
}

/// Any proper prefix of the encoding of a writable frame decodes as
/// incomplete, and the whole encoding decodes as the frame.
pub proof fn law_incremental(f: FrameV, k: int)
    requires
        writable(f, true),
        0 <= k < encode(f).len(),
    ensures
        parse_spec(encode(f).subrange(0, k), 0, f is File) is Incomplete,
        parse_spec(encode(f), 0, f is File) == ParsedV::Done(f, encode(f).len() as int),
{
    let e = encode(f);
    let p = e.subrange(0, k);
    assert(p.subrange(0, k) =~= e.subrange(0, k));
    lemma_parse_prefix_at(f, p, 0, true);
    assert(e.subrange(0, e.len() as int) =~= e);
    lemma_parse_encode_at(f, e, 0, true);
}

// ----- Encoding -----

/// Appends the base-ten digits of `n`.
fn push_decimal(out: &mut Vec<u8>, n: u64)
    ensures
        final(out)@ == old(out)@ + decimal(n as nat),
    decreases n,
{
    if n < 10 {
        out.push((48 + n) as u8);
        assert(final(out)@ =~= old(out)@ + decimal(n as nat));
    } else {
        push_decimal(out, n / 10);
        out.push((48 + n % 10) as u8);
        assert(final(out)@ =~= old(out)@ + decimal(n as nat));
    }
}

/// Appends the bytes of `b`.
fn push_bytes(out: &mut Vec<u8>, b: &[u8])
    ensures
        final(out)@ == old(out)@ + b@,
{
    let mut k: usize = 0;
    while k < b.len()
        invariant
            k <= b@.len(),
            out@ == old(out)@ + b@.subrange(0, k as int),
        decreases b.len() - k,
    {
        out.push(b[k]);
        assert(out@ =~= old(out)@ + b@.subrange(0, k + 1));
        k = k + 1;
    }
    assert(b@.subrange(0, k as int) =~= b@);
}

fn push_crlf(out: &mut Vec<u8>)
    ensures
        final(out)@ == old(out)@ + crlf(),
{
    out.push(CR);
    out.push(LF);
    assert(final(out)@ =~= old(out)@ + crlf());
}

impl Frame {
    /// Appends the wire encoding of this frame to `out`.
    pub fn write_to(&self, out: &mut Vec<u8>)
        ensures
            final(out)@ == old(out)@ + encode(self@),
        decreases self@,
    {
        let ghost start = out@;
        match self {
            Frame::Simple(s) => {
                out.push(43);
                push_bytes(out, s.as_str().as_bytes());
                push_crlf(out);
            },
            Frame::Error(s) => {
                out.push(45);
                push_bytes(out, s.as_str().as_bytes());
                push_crlf(out);
            },
            Frame::Integer(n) => {
                out.push(58);
                if *n < 0 {
                    out.push(45);
                    let m: u64 = if *n == i64::MIN {
                        0x8000_0000_0000_0000
                    } else {
                        (-*n) as u64
                    };
                    push_decimal(out, m);
                } else {
                    push_decimal(out, *n as u64);
                }
                push_crlf(out);
            },
            Frame::Bulk(None) => {
                out.push(36);
                out.push(45);
                out.push(49);
                push_crlf(out);
            },
            Frame::Bulk(Some(b)) => {
                out.push(36);
                push_decimal(out, b.len() as u64);
                push_crlf(out);
                push_bytes(out, b.as_slice());
                push_crlf(out);
            },
            Frame::Null => {},
            Frame::Array(v) => {
                out.push(42);
                push_decimal(out, v.len() as u64);
                push_crlf(out);
                let ghost head = out@;
                let ghost vs = views(v@);
                let mut k: usize = 0;
                while k < v.len()
                    invariant
                        k <= v@.len(),
                        *self == Frame::Array(*v),
                        vs == views(v@),
                        out@ == head + encode_list(vs.subrange(0, k as int)),
                    decreases v.len() - k,
                {
                    proof {
                        let fs = views(v@);
                        assert(self@ == FrameV::Array(fs)) by {
                            if let FrameV::Array(x) = self@ {
                                assert(x =~= fs);
                            }
                        }
                        vstd::seq::axiom_seq_index_decreases(fs, k as int);
                        assert(decreases_to!(self@ => self@->Array_0));
                        assert(fs[k as int] == v[k as int]@);
                        assert(decreases_to!(self@ => v[k as int]@));
                    }
                    v[k].write_to(out);
                    assert(vs.subrange(0, k + 1).drop_last() =~= vs.subrange(0, k as int));
                    k = k + 1;
                }
                assert(vs.subrange(0, k as int) =~= vs);
                assert(self@ == FrameV::Array(vs)) by {
                    if let FrameV::Array(x) = self@ {
                        assert(x =~= vs);
                    }
                }
            },
            Frame::File(b) => {
                out.push(36);
                push_decimal(out, b.len() as u64);
                push_crlf(out);
                push_bytes(out, b.as_slice());
            },
        }
        assert(out@ =~= start + encode(self@));
    }

    /// The wire encoding of this frame.
    pub fn encode(&self) -> (r: Vec<u8>)
        ensures
            r@ == encode(self@),
    {
        let mut out: Vec<u8> = Vec::new();
        self.write_to(&mut out);
        assert(out@ =~= encode(self@));
        out
    }

    /// The number of bytes in the wire encoding of this frame.
    pub fn len(&self) -> (r: usize)
        ensures
            r == encode(self@).len(),
    {
        self.encode().len()
    }

    /// Tells whether a complete frame starts at `*pos` of `src`. On success
    /// `*pos` moves past the frame; otherwise it stays.
    pub fn check(src: &[u8], pos: &mut usize, expect_file: bool) -> (r: Result<(), Error>)
        ensures
            match parse_spec(src@, *old(pos) as int, expect_file) {
                ParsedV::Done(_, q) => r is Ok && *final(pos) == q,
                ParsedV::Incomplete => r matches Err(Error::Incomplete) && *final(pos) == *old(pos),
                ParsedV::Invalid => r matches Err(Error::Other(_)) && *final(pos) == *old(pos),
            },
    {
        match parse_at(src, *pos, expect_file) {
            Ok((_, q)) => {
                *pos = q;
                Ok(())
            },
            Err(e) => Err(e),
        }
    }

    /// Decodes the frame that starts at `*pos` of `src`. On success `*pos`
    /// moves past the frame; otherwise it stays.
    pub fn parse(src: &[u8], pos: &mut usize, expect_file: bool) -> (r: Result<Frame, Error>)
        ensures
            match parse_spec(src@, *old(pos) as int, expect_file) {
                ParsedV::Done(f, q) => r matches Ok(g) && g@ == f && *final(pos) == q,
                ParsedV::Incomplete => r matches Err(Error::Incomplete) && *final(pos) == *old(pos),
                ParsedV::Invalid => r matches Err(Error::Other(_)) && *final(pos) == *old(pos),
            },
            r is Ok ==> *old(pos) < *final(pos) <= src@.len(),
    {
        match parse_at(src, *pos, expect_file) {
            Ok((f, q)) => {
                *pos = q;
                Ok(f)
            },
            Err(e) => Err(e),
        }
    }
}

} // verus!
