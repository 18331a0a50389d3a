//! Length-prefixed frames: `Content-Length: N\r\n\r\n` followed by exactly
//! `N` bytes of payload.

use vstd::prelude::*;
use vstd::slice::{slice_subrange, slice_to_vec};

verus! {

/// ASCII `Content-Length:`, the header field that declares the payload length.
pub const LENGTH_FIELD: [u8; 15] = [67, 111, 110, 116, 101, 110, 116, 45, 76, 101, 110, 103, 116, 104, 58];

/// Decimal digits of `n`, most significant first, without leading zeros.
pub open spec fn decimal(n: nat) -> Seq<u8>
    decreases n,
{
    if n < 10 {
        seq![(48 + n) as u8]
    } else {
        decimal(n / 10).push((48 + n % 10) as u8)
    }
}

pub open spec fn is_digit(b: u8) -> bool {
    48 <= b <= 57
}

pub open spec fn all_digits(s: Seq<u8>) -> bool {
    forall|i: int| 0 <= i < s.len() ==> is_digit(#[trigger] s[i])
}

/// The number that a run of decimal digits denotes.
pub open spec fn digits_value(s: Seq<u8>) -> nat
    decreases s.len(),
{
    if s.len() == 0 {
        0
    } else {
        digits_value(s.drop_last()) * 10 + (s.last() - 48) as nat
    }
}

pub proof fn lemma_decimal(n: nat)
    ensures
        decimal(n).len() >= 1,
        all_digits(decimal(n)),
        digits_value(decimal(n)) == n,
    decreases n,
{
    if n < 10 {
        assert(decimal(n).drop_last() =~= Seq::<u8>::empty());
        assert(decimal(n).last() == 48 + n);
        assert(digits_value(decimal(n)) == digits_value(Seq::<u8>::empty()) * 10 + n);
    } else {
        lemma_decimal(n / 10);
        assert(decimal(n).drop_last() =~= decimal(n / 10));
        assert(n == (n / 10) * 10 + n % 10) by (nonlinear_arith);
        assert(decimal(n).last() == 48 + n % 10);
    }
}

/// Appends the decimal digits of `n`.
pub fn push_decimal(out: &mut Vec<u8>, n: u64)
    ensures
        final(out)@ == old(out)@ + decimal(n as nat),
    decreases n,
{
    if n >= 10 {
        push_decimal(out, n / 10);
    }
    let d: u8 = (n % 10) as u8;
    out.push(48 + d);
    assert(final(out)@ =~= old(out)@ + decimal(n as nat));
}


/// The bytes before a payload of `len` bytes: the length field, one blank,
/// the decimal length, the end of that line and the empty line.
pub open spec fn frame_header(len: nat) -> Seq<u8> {
    LENGTH_FIELD@ + seq![32u8] + decimal(len) + seq![13u8, 10u8, 13u8, 10u8]
}

/// The frame that carries `body`.
pub open spec fn frame_of(body: Seq<u8>) -> Seq<u8> {
    frame_header(body.len()) + body
}

/// Frames `body`: header, empty line, then the body itself, in one buffer so
/// that it can be written at once.
pub fn encode_frame(body: &[u8]) -> (r: Vec<u8>)
    ensures
        r@ == frame_of(body@),
{
    let mut out: Vec<u8> = Vec::new();
    let mut i: usize = 0;
    while i < 15
        invariant
            i <= 15,
            out@ == LENGTH_FIELD@.subrange(0, i as int),
        decreases 15 - i,
    {
        out.push(LENGTH_FIELD[i]);
        i = i + 1;
        assert(out@ =~= LENGTH_FIELD@.subrange(0, i as int));
    }
    out.push(32);
    push_decimal(&mut out, body.len() as u64);
    out.push(13);
    out.push(10);
    out.push(13);
    out.push(10);
    out.extend_from_slice(body);
    assert(out@ =~= frame_of(body@));
    out
}

pub open spec fn is_blank(b: u8) -> bool {
    b == 32 || b == 9
}

/// First index at or after `i` that does not hold a blank.
pub open spec fn skip_blanks(s: Seq<u8>, i: int) -> int
    decreases s.len() - i,
{
    if 0 <= i < s.len() && is_blank(s[i]) {
        skip_blanks(s, i + 1)
    } else {
        i
    }
}

/// The end `j` of `s[lo..j]` with trailing blanks removed.
pub open spec fn trim_end(s: Seq<u8>, lo: int, j: int) -> int
    decreases j - lo,
{
    if lo < j <= s.len() && is_blank(s[j - 1]) {
        trim_end(s, lo, j - 1)
    } else {
        j
    }
}

/// A header line that declares the payload length.
pub open spec fn is_length_line(line: Seq<u8>) -> bool {
    line.len() >= 15 && line.subrange(0, 15) == LENGTH_FIELD@
}

/// The value of a length line: the digits after the field name, between
/// optional blanks, when they are a number that fits in `usize`.
pub open spec fn length_value(line: Seq<u8>) -> Option<nat> {
    let a = skip_blanks(line, 15);
    let b = trim_end(line, a, line.len() as int);
    let digits = line.subrange(a, b);
    if digits.len() > 0 && all_digits(digits) && digits_value(digits) <= usize::MAX {
        Some(digits_value(digits))
    } else {
        None
    }
}

/// A line without its end: the bytes before `\n`, less one `\r` before it.
pub open spec fn line_text(s: Seq<u8>, start: int, nl: int) -> Seq<u8> {
    if start < nl && s[nl - 1] == 13 {
        s.subrange(start, nl - 1)
    } else {
        s.subrange(start, nl)
    }
}

/// What the front of a byte stream holds.
pub ghost enum Scan {
    /// A whole frame whose payload is `s[start..start + len]`.
    Frame { start: nat, len: nat },
    /// No whole frame yet.
    NeedMore,
    /// A length line whose value is not a usable number.
    Malformed,
}

/// Reads header lines from `i` on, the current line starting at `line_start`.
/// Lines other than a length line are skipped; an empty line ends the
/// header once a length has been declared; the last declared length counts.
pub open spec fn scan_from(s: Seq<u8>, line_start: int, i: int, len: Option<nat>) -> Scan
    decreases s.len() - i,
{
    if i < 0 || i >= s.len() {
        Scan::NeedMore
    } else if s[i] != 10 {
        scan_from(s, line_start, i + 1, len)
    } else {
        let line = line_text(s, line_start, i);
        if line.len() == 0 && len is Some {
            if i + 1 + len->0 <= s.len() {
                Scan::Frame { start: (i + 1) as nat, len: len->0 }
            } else {
                Scan::NeedMore
            }
        } else if is_length_line(line) {
            match length_value(line) {
                Some(n) => scan_from(s, i + 1, i + 1, Some(n)),
                None => Scan::Malformed,
            }
        } else {
            scan_from(s, i + 1, i + 1, len)
        }
    }
}

/// What the front of the stream `s` holds.
pub open spec fn scan(s: Seq<u8>) -> Scan {
    scan_from(s, 0, 0, None)
}


pub proof fn lemma_digits_prefix(s: Seq<u8>, k: int)
    requires
        all_digits(s),
        0 <= k <= s.len(),
    ensures
        digits_value(s.subrange(0, k)) <= digits_value(s),
    decreases s.len(),
{
    if k < s.len() {
        let t = s.drop_last();
        lemma_digits_prefix(t, k);
        assert(t.subrange(0, k) =~= s.subrange(0, k));
    } else {
        assert(s.subrange(0, k) =~= s);
    }
}

/// Whether `buf[start..end]` is a length line.
fn is_length_line_at(buf: &[u8], start: usize, end: usize) -> (r: bool)
    requires
        start <= end <= buf@.len(),
    ensures
        r == is_length_line(buf@.subrange(start as int, end as int)),
{
    let ghost line = buf@.subrange(start as int, end as int);
    if end - start < 15 {
        return false;
    }
    let mut k: usize = 0;
    while k < 15
        invariant
            k <= 15,
            start + 15 <= end <= buf@.len(),
            line == buf@.subrange(start as int, end as int),
            line.subrange(0, k as int) == LENGTH_FIELD@.subrange(0, k as int),
        decreases 15 - k,
    {
        if buf[start + k] != LENGTH_FIELD[k] {
            assert(line.subrange(0, 15)[k as int] != LENGTH_FIELD@[k as int]);
            return false;
        }
        k = k + 1;
        assert(line.subrange(0, k as int) =~= LENGTH_FIELD@.subrange(0, k as int));
    }
    assert(LENGTH_FIELD@.subrange(0, 15) =~= LENGTH_FIELD@);
    true
}

/// The value of the length line `buf[start..end]`.
fn length_value_at(buf: &[u8], start: usize, end: usize) -> (r: Option<usize>)
    requires
        start <= end <= buf@.len(),
        is_length_line(buf@.subrange(start as int, end as int)),
    ensures
        match length_value(buf@.subrange(start as int, end as int)) {
            Some(n) => r == Some(n as usize),
            None => r is None,
        },
{
    let ghost line = buf@.subrange(start as int, end as int);
    let mut a: usize = start + 15;
    while a < end && (buf[a] == 32 || buf[a] == 9)
        invariant
            start + 15 <= a <= end <= buf@.len(),
            line == buf@.subrange(start as int, end as int),
            skip_blanks(line, 15) == skip_blanks(line, a - start),
        decreases end - a,
    {
        a = a + 1;
    }
    let mut b: usize = end;
    while b > a && (buf[b - 1] == 32 || buf[b - 1] == 9)
        invariant
            start + 15 <= a <= b <= end <= buf@.len(),
            line == buf@.subrange(start as int, end as int),
            skip_blanks(line, 15) == a - start,
            trim_end(line, a - start, line.len() as int) == trim_end(line, a - start, b - start),
        decreases b - a,
    {
        b = b - 1;
    }
    let ghost digits = line.subrange(a - start, b - start);
    assert(digits =~= buf@.subrange(a as int, b as int));
    assert(length_value(line) == if digits.len() > 0 && all_digits(digits) && digits_value(digits)
        <= usize::MAX {
        Some(digits_value(digits))
    } else {
        None
    });
    if a == b {
        return None;
    }
    let mut acc: usize = 0;
    let mut k: usize = a;
    while k < b
        invariant
            a <= k <= b <= buf@.len(),
            digits == buf@.subrange(a as int, b as int),
            length_value(buf@.subrange(start as int, end as int)) == if digits.len() > 0
                && all_digits(digits) && digits_value(digits) <= usize::MAX {
                Some(digits_value(digits))
            } else {
                None
            },
            all_digits(digits.subrange(0, k - a)),
            acc == digits_value(digits.subrange(0, k - a)),
        decreases b - k,
    {
        let c = buf[k];
        if c < 48 || c > 57 {
            assert(!is_digit(digits[k - a]));
            return None;
        }
        let d: usize = (c - 48) as usize;
        let ghost next = digits.subrange(0, k + 1 - a);
        assert(next.drop_last() =~= digits.subrange(0, k - a));
        if acc > (usize::MAX - d) / 10 {
            assert(acc * 10 + d > usize::MAX) by (nonlinear_arith)
                requires
                    acc > (usize::MAX - d) / 10,
                    d <= 9,
            ;
            proof {
                if all_digits(digits) {
                    lemma_digits_prefix(digits, k + 1 - a);
                }
            }
            return None;
        }
        assert(acc * 10 + d <= usize::MAX) by (nonlinear_arith)
            requires
                acc <= (usize::MAX - d) / 10,
                d <= 9,
        ;
        acc = acc * 10 + d;
        k = k + 1;
    }
    assert(digits.subrange(0, k - a) =~= digits);
    Some(acc)
}

/// What a buffer of received bytes holds at its front.
pub enum FrameStatus {
    /// A whole frame, whose payload is `buf[body_start..body_start + body_len]`.
    Complete { body_start: usize, body_len: usize },
    /// More bytes are needed.
    Incomplete,
    /// The declared length cannot be read.
    Malformed,
}

impl View for FrameStatus {
    type V = Scan;

    open spec fn view(&self) -> Scan {
        match *self {
            FrameStatus::Complete { body_start, body_len } => Scan::Frame {
                start: body_start as nat,
                len: body_len as nat,
            },
            FrameStatus::Incomplete => Scan::NeedMore,
            FrameStatus::Malformed => Scan::Malformed,
        }
    }
}

pub open spec fn opt_nat(len: Option<usize>) -> Option<nat> {
    match len {
        Some(n) => Some(n as nat),
        None => None,
    }
}

/// Reads the header at the front of `buf` and says where the payload is.
pub fn scan_frame(buf: &[u8]) -> (r: FrameStatus)
    ensures
        r@ == scan(buf@),
{
    let mut line_start: usize = 0;
    let mut i: usize = 0;
    let mut len: Option<usize> = None;
    while i < buf.len()
        invariant
            line_start <= i <= buf@.len(),
            scan(buf@) == scan_from(buf@, line_start as int, i as int, opt_nat(len)),
        decreases buf@.len() - i,
    {
        if buf[i] != 10 {
            i = i + 1;
        } else {
            let end: usize = if line_start < i && buf[i - 1] == 13 {
                i - 1
            } else {
                i
            };
            assert(line_text(buf@, line_start as int, i as int) =~= buf@.subrange(
                line_start as int,
                end as int,
            ));
            if end == line_start && len.is_some() {
                let n = len.unwrap();
                if n <= buf.len() - (i + 1) {
                    return FrameStatus::Complete { body_start: i + 1, body_len: n };
                } else {
                    return FrameStatus::Incomplete;
                }
            } else if is_length_line_at(buf, line_start, end) {
                match length_value_at(buf, line_start, end) {
                    Some(n) => {
                        len = Some(n);
                    },
                    None => {
                        return FrameStatus::Malformed;
                    },
                }
            }
            i = i + 1;
            line_start = i;
        }
    }
    FrameStatus::Incomplete
}


/// Why the bytes received cannot be read as frames.
#[derive(PartialEq, Eq, Structural, Clone, Copy, Debug)]
pub enum FrameError {
    /// A length line whose value is not a number that fits in `usize`.
    Malformed,
    /// The stream ended inside a frame.
    Truncated,
}

/// The bytes received on the read side that have not yet been taken as frames.
pub struct FrameReader {
    buf: Vec<u8>,
}

impl View for FrameReader {
    type V = Seq<u8>;

    closed spec fn view(&self) -> Seq<u8> {
        self.buf@
    }
}

impl FrameReader {
    pub fn new() -> (r: FrameReader)
        ensures
            r@ == Seq::<u8>::empty(),
    {
        FrameReader { buf: Vec::new() }
    }

    /// Adds bytes read from the stream.
    pub fn feed(&mut self, chunk: &[u8])
        ensures
            final(self)@ == old(self)@ + chunk@,
    {
        self.buf.extend_from_slice(chunk);
    }

    /// Takes the payload of the first frame, once all of it has been received.
    pub fn next_frame(&mut self) -> (r: Result<Option<Vec<u8>>, FrameError>)
        ensures
            match r {
                Ok(Some(body)) => match scan(old(self)@) {
                    Scan::Frame { start, len } => {
                        &&& body@ == old(self)@.subrange(start as int, (start + len) as int)
                        &&& final(self)@ == old(self)@.skip((start + len) as int)
                    },
                    _ => false,
                },
                Ok(None) => scan(old(self)@) is NeedMore && final(self)@ == old(self)@,
                Err(e) => scan(old(self)@) is Malformed && e == FrameError::Malformed
                    && final(self)@ == old(self)@,
            },
    {
        proof {
            lemma_scan_bounds(self.buf@, 0, 0, None);
        }
        let total = self.buf.len();
        match scan_frame(self.buf.as_slice()) {
            FrameStatus::Complete { body_start, body_len } => {
                assert(body_start + body_len <= total);
                let end = body_start + body_len;
                let body = slice_to_vec(slice_subrange(self.buf.as_slice(), body_start, end));
                let rest = slice_to_vec(slice_subrange(self.buf.as_slice(), end, self.buf.len()));
                self.buf = rest;
                Ok(Some(body))
            },
            FrameStatus::Incomplete => Ok(None),
            FrameStatus::Malformed => Err(FrameError::Malformed),
        }
    }

    /// Says, once the stream has ended, whether it ended between frames.
    pub fn finish(&self) -> (r: Result<(), FrameError>)
        ensures
            r is Ok <==> self@.len() == 0,
            r is Err ==> r == Err::<(), FrameError>(FrameError::Truncated),
    {
        if self.buf.len() == 0 {
            Ok(())
        } else {
            Err(FrameError::Truncated)
        }
    }
}

proof fn lemma_scan_skips_text(s: Seq<u8>, line_start: int, i: int, j: int, len: Option<nat>)
    requires
        0 <= i <= j < s.len(),
        forall|k: int| i <= k < j ==> s[k] != 10,
    ensures
        scan_from(s, line_start, i, len) == scan_from(s, line_start, j, len),
    decreases j - i,
{
    if i < j {
        lemma_scan_skips_text(s, line_start, i + 1, j, len);
    }
}

proof fn lemma_scan_bounds(s: Seq<u8>, line_start: int, i: int, len: Option<nat>)
    ensures
        match scan_from(s, line_start, i, len) {
            Scan::Frame { start, len: n } => start + n <= s.len(),
            _ => true,
        },
    decreases s.len() - i,
{
    if 0 <= i < s.len() {
        if s[i] != 10 {
            lemma_scan_bounds(s, line_start, i + 1, len);
        } else {
            let line = line_text(s, line_start, i);
            if is_length_line(line) && length_value(line) is Some {
                lemma_scan_bounds(s, i + 1, i + 1, length_value(line));
            }
            lemma_scan_bounds(s, i + 1, i + 1, len);
        }
    }
}

/// The line that declares a length of `n`.
pub open spec fn length_line(n: nat) -> Seq<u8> {
    LENGTH_FIELD@ + seq![32u8] + decimal(n)
}

proof fn lemma_length_line(n: nat)
    requires
        n <= usize::MAX,
    ensures
        is_length_line(length_line(n)),
        length_value(length_line(n)) == Some(n),
        forall|k: int| 0 <= k < length_line(n).len() ==> #[trigger] length_line(n)[k] != 10
            && length_line(n)[k] != 13,
        length_line(n).len() == 16 + decimal(n).len(),
{
    let d = decimal(n);
    lemma_decimal(n);
    let line = length_line(n);
    let e = line.len() as int;
    assert(line.subrange(0, 15) =~= LENGTH_FIELD@);
    assert(is_blank(line[15]));
    assert(d[0] == line[16]);
    assert(!is_blank(line[16]));
    assert(skip_blanks(line, 16) == 16);
    assert(skip_blanks(line, 15) == 16);
    assert(d[d.len() - 1] == line[e - 1]);
    assert(!is_blank(line[e - 1]));
    assert(trim_end(line, 16, e) == e);
    assert(line.subrange(16, e) =~= d);
    assert forall|k: int| 0 <= k < e implies #[trigger] line[k] != 10 && line[k] != 13 by {
        if k < 15 {
            assert(line[k] == LENGTH_FIELD@[k]);
        } else if k > 15 {
            assert(line[k] == d[k - 16]);
            assert(is_digit(d[k - 16]));
        }
    }
}

/// A frame, followed by anything, reads back as its own payload: the header
/// declares exactly the payload's length, and the payload is taken whole.
pub proof fn lemma_frame_round_trip(body: Seq<u8>, rest: Seq<u8>)
    requires
        body.len() <= usize::MAX,
    ensures
        frame_header(body.len()) == length_line(body.len()) + seq![13u8, 10u8, 13u8, 10u8],
        length_value(length_line(body.len())) == Some(body.len()),
        scan(frame_of(body) + rest) == (Scan::Frame {
            start: frame_header(body.len()).len(),
            len: body.len(),
        }),
        (frame_of(body) + rest).subrange(
            frame_header(body.len()).len() as int,
            (frame_header(body.len()).len() + body.len()) as int,
        ) == body,
        (frame_of(body) + rest).skip((frame_header(body.len()).len() + body.len()) as int) == rest,
{
    let n = body.len();
    lemma_length_line(n);
    let line = length_line(n);
    let e = line.len() as int;
    let h = frame_header(n);
    let s = frame_of(body) + rest;
    assert(h =~= line + seq![13u8, 10u8, 13u8, 10u8]);
    assert(s =~= line + (seq![13u8, 10u8, 13u8, 10u8] + (body + rest)));
    assert forall|k: int| 0 <= k < e + 1 implies s[k] != 10 by {
        if k < e {
            assert(s[k] == line[k]);
        }
    }
    lemma_scan_skips_text(s, 0, 0, e + 1, None);
    assert(line_text(s, 0, e + 1) =~= line);
    lemma_scan_skips_text(s, e + 2, e + 2, e + 3, Some(n));
    assert(line_text(s, e + 2, e + 3) =~= Seq::<u8>::empty());
    assert(s.subrange(e + 4, e + 4 + n) =~= body);
    assert(s.skip(e + 4 + n) =~= rest);
}

} // verus!
