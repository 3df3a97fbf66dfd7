use vstd::prelude::*;
use vstd::slice::{slice_subrange, slice_to_vec};
use vstd::utf8::{decode_utf8, valid_utf8};

use super::frame::{Frame, FrameView};
use super::number::{parse_i64, parse_i64_spec, parse_usize, parse_usize_spec};
use crate::text::utf8_to_string;

verus! {

/// Why a byte stream is not RESP2.
#[derive(Debug, Clone, Copy, PartialEq, Eq)]
pub enum ProtocolError {
    /// A simple string, or the text of a number, is not UTF-8.
    InvalidUtf8,
    /// A number does not parse as one.
    InvalidInteger,
    /// A bulk string announces a negative length other than -1.
    NegativeBulkLength,
    /// A bulk string is not followed by CRLF.
    MissingCrlf,
    /// The stream ends inside an array or a bulk string.
    UnexpectedEof,
}

/// What one attempt to read a frame from the front of a buffer gives.
#[derive(Debug)]
pub enum Decoded {
    /// A frame, and the number of bytes it took.
    Frame(Frame, usize),
    /// The buffer holds the start of a frame only; more bytes are needed.
    NeedMore,
    /// The stream has ended before any byte of a new frame.
    End,
}

/// The model of what reading a frame gives.
pub enum Step {
    Done(FrameView, int),
    NeedMore,
    End,
    Failed(ProtocolError),
}

/// The model of what reading the items of an array gives.
pub enum ItemsStep {
    Done(Seq<FrameView>, int),
    NeedMore,
    Failed(ProtocolError),
}

/// The model of a line read up to and including its `\n`: the line without
/// its terminator, and the number of bytes taken.
pub enum LineRead {
    Line(Seq<u8>, int),
    NeedMore,
    End,
}

pub open spec fn step_of(r: Result<Decoded, ProtocolError>) -> Step {
    match r {
        Ok(Decoded::Frame(f, n)) => Step::Done(f@, n as int),
        Ok(Decoded::NeedMore) => Step::NeedMore,
        Ok(Decoded::End) => Step::End,
        Err(e) => Step::Failed(e),
    }
}

/// The index of the first `\n` in `s` at or after `i`.
pub open spec fn newline_index(s: Seq<u8>, i: nat) -> Option<nat>
    decreases s.len() - i,
{
    if i >= s.len() {
        None
    } else if s[i as int] == 10 {
        Some(i)
    } else {
        newline_index(s, i + 1)
    }
}

/// A line without its final `\r\n`, or else without its final `\n`.
pub open spec fn trim_crlf(l: Seq<u8>) -> Seq<u8> {
    if l.len() >= 2 && l[l.len() - 2] == 13 && l[l.len() - 1] == 10 {
        l.take(l.len() - 2)
    } else if l.len() >= 1 && l[l.len() - 1] == 10 {
        l.take(l.len() - 1)
    } else {
        l
    }
}

/// Reads a line: up to and including the first `\n`; at the end of the
/// stream, whatever is left; nothing when nothing is left.
pub open spec fn read_line(s: Seq<u8>, at_eof: bool) -> LineRead {
    match newline_index(s, 0) {
        Some(p) => LineRead::Line(trim_crlf(s.take(p + 1int)), p + 1int),
        None => if !at_eof {
            LineRead::NeedMore
        } else if s.len() == 0 {
            LineRead::End
        } else {
            LineRead::Line(trim_crlf(s), s.len() as int)
        },
    }
}

/// The characters `\t`, `\n`, form feed, `\r` and space.
pub open spec fn is_ascii_whitespace(b: u8) -> bool {
    b == 9 || b == 10 || b == 12 || b == 13 || b == 32
}

/// The length of the run of non-whitespace bytes at the front of `s`.
pub open spec fn token_len(s: Seq<u8>) -> nat
    decreases s.len(),
{
    if s.len() == 0 || is_ascii_whitespace(s[0]) {
        0
    } else {
        1 + token_len(s.skip(1))
    }
}

/// The non-empty runs of non-whitespace bytes of `s`, in order.
pub open spec fn words(s: Seq<u8>) -> Seq<Seq<u8>>
    decreases s.len(),
{
    if s.len() == 0 {
        Seq::empty()
    } else if is_ascii_whitespace(s[0]) {
        words(s.skip(1))
    } else {
        let t = token_len(s);
        // `t` is at least 1, as `s[0]` is not whitespace, and at most `s.len()`.
        if 1 <= t <= s.len() {
            seq![s.take(t as int)] + words(s.skip(t as int))
        } else {
            Seq::empty()
        }
    }
}

/// An inline command: its words as bulk strings.
pub open spec fn inline_command(l: Seq<u8>) -> FrameView {
    FrameView::Array(words(l).map_values(|w: Seq<u8>| FrameView::Bulk(w)))
}

/// The error for text that is not a number: it is not UTF-8, or it is UTF-8
/// that does not denote a number.
pub open spec fn number_error(b: Seq<u8>) -> ProtocolError {
    if valid_utf8(b) {
        ProtocolError::InvalidInteger
    } else {
        ProtocolError::InvalidUtf8
    }
}

pub open spec fn empty_request_text() -> Seq<char> {
    seq!['E', 'R', 'R', ' ', 'e', 'm', 'p', 't', 'y', ' ', 'r', 'e', 'q', 'u', 'e', 's', 't']
}

pub open spec fn shift(r: Step, n: int) -> Step {
    match r {
        Step::Done(f, m) => Step::Done(f, n + m),
        other => other,
    }
}

/// A bulk string whose announced length is the text `len_text`, with `rest`
/// the bytes after its header line. Consumed counts start after the header.
pub open spec fn bulk_spec(rest: Seq<u8>, at_eof: bool, len_text: Seq<u8>) -> Step {
    match parse_i64_spec(len_text) {
        None => Step::Failed(number_error(len_text)),
        Some(len) => if len == -1 {
            Step::Done(FrameView::Null, 0)
        } else if len < 0 {
            Step::Failed(ProtocolError::NegativeBulkLength)
        } else if rest.len() < len + 2 {
            if at_eof {
                Step::Failed(ProtocolError::UnexpectedEof)
            } else {
                Step::NeedMore
            }
        } else if rest[len as int] != 13 || rest[len + 1] != 10 {
            Step::Failed(ProtocolError::MissingCrlf)
        } else {
            Step::Done(FrameView::Bulk(rest.take(len as int)), len + 2)
        },
    }
}

/// Reading one frame from the front of `s`, where `at_eof` says whether the
/// stream ends after `s`.
pub open spec fn decode_spec(s: Seq<u8>, at_eof: bool) -> Step
    decreases s.len(), 0int,
{
    match read_line(s, at_eof) {
        LineRead::End => Step::End,
        LineRead::NeedMore => Step::NeedMore,
        // A line takes at least one byte and at most all of them
        // (`law_decode_extends` shows it); the first branch is never taken.
        LineRead::Line(l, n) => if !(1 <= n <= s.len()) {
            Step::NeedMore
        } else if l.len() == 0 {
            Step::Done(FrameView::Error(empty_request_text()), n)
        } else if l[0] == 42 {
            match parse_usize_spec(l.skip(1)) {
                None => Step::Failed(number_error(l.skip(1))),
                Some(count) => match items_spec(s.skip(n), at_eof, count as nat) {
                    ItemsStep::Done(items, m) => Step::Done(FrameView::Array(items), n + m),
                    ItemsStep::NeedMore => Step::NeedMore,
                    ItemsStep::Failed(e) => Step::Failed(e),
                },
            }
        } else if l[0] == 36 {
            shift(bulk_spec(s.skip(n), at_eof, l.skip(1)), n)
        } else if l[0] == 43 {
            if valid_utf8(l.skip(1)) {
                Step::Done(FrameView::Simple(decode_utf8(l.skip(1))), n)
            } else {
                Step::Failed(ProtocolError::InvalidUtf8)
            }
        } else if l[0] == 58 {
            match parse_i64_spec(l.skip(1)) {
                Some(v) => Step::Done(FrameView::Integer(v as int), n),
                None => Step::Failed(number_error(l.skip(1))),
            }
        } else {
            Step::Done(inline_command(l), n)
        },
    }
}

/// Reading `count` frames one after the other from the front of `s`; the
/// stream ending before all have come is an error.
pub open spec fn items_spec(s: Seq<u8>, at_eof: bool, count: nat) -> ItemsStep
    decreases s.len(), 1int,
{
    if count == 0 {
        ItemsStep::Done(Seq::empty(), 0)
    } else {
        match decode_spec(s, at_eof) {
            Step::End => ItemsStep::Failed(ProtocolError::UnexpectedEof),
            Step::NeedMore => ItemsStep::NeedMore,
            Step::Failed(e) => ItemsStep::Failed(e),
            // A frame takes at least one byte and at most all of them; the
            // first branch is never taken.
            Step::Done(f, k) => if !(1 <= k <= s.len()) {
                ItemsStep::NeedMore
            } else {
                prepend_items(seq![f], k, items_spec(s.skip(k), at_eof, (count - 1) as nat))
            },
        }
    }
}

pub open spec fn prepend_items(prefix: Seq<FrameView>, k: int, r: ItemsStep) -> ItemsStep {
    match r {
        ItemsStep::Done(items, m) => ItemsStep::Done(prefix + items, k + m),
        other => other,
    }
}


fn find_newline(buf: &[u8], pos: usize) -> (r: Option<usize>)
    requires
        pos <= buf.len(),
    ensures
        match r {
            Some(p) => pos <= p < buf.len() && newline_index(buf@.skip(pos as int), 0)
                == Some((p - pos) as nat),
            None => newline_index(buf@.skip(pos as int), 0) is None,
        },
{
    let ghost s = buf@.skip(pos as int);
    let mut i: usize = pos;
    while i < buf.len()
        invariant
            pos <= i <= buf.len(),
            s == buf@.skip(pos as int),
            newline_index(s, 0) == newline_index(s, (i - pos) as nat),
        decreases buf.len() - i,
    {
        assert(s[i - pos] == buf@[i as int]);
        if buf[i] == 10 {
            return Some(i);
        }
        i = i + 1;
    }
    None
}

fn number_error_of(text: &[u8]) -> (e: ProtocolError)
    ensures
        e == number_error(text@),
{
    if utf8_to_string(slice_to_vec(text)).is_some() {
        ProtocolError::InvalidInteger
    } else {
        ProtocolError::InvalidUtf8
    }
}

proof fn lemma_token_step(s: Seq<u8>, k: int)
    requires
        0 <= k < s.len(),
        !is_ascii_whitespace(s[k]),
    ensures
        token_len(s.skip(k)) == 1 + token_len(s.skip(k + 1)),
{
    assert(s.skip(k).skip(1) =~= s.skip(k + 1));
}

proof fn lemma_words_skip_space(s: Seq<u8>, k: int)
    requires
        0 <= k < s.len(),
        is_ascii_whitespace(s[k]),
    ensures
        words(s.skip(k)) == words(s.skip(k + 1)),
{
    assert(s.skip(k).skip(1) =~= s.skip(k + 1));
}

/// The words of `buf[start..end]`, each as a bulk string.
fn read_words(buf: &[u8], start: usize, end: usize) -> (r: Vec<Frame>)
    requires
        start <= end <= buf.len(),
    ensures
        r@.len() == words(buf@.subrange(start as int, end as int)).len(),
        forall|q: int| 0 <= q < r@.len() ==> #[trigger] r@[q]@ == FrameView::Bulk(
            words(buf@.subrange(start as int, end as int))[q],
        ),
{
    let ghost l = buf@.subrange(start as int, end as int);
    let ghost mut done: Seq<Seq<u8>> = Seq::empty();
    let mut out: Vec<Frame> = Vec::new();
    let mut i: usize = start;
    assert(l.skip(0) =~= l);
    while i < end
        invariant
            start <= i <= end <= buf.len(),
            l == buf@.subrange(start as int, end as int),
            words(l) == done + words(l.skip(i - start)),
            out@.len() == done.len(),
            forall|q: int| 0 <= q < out@.len() ==> #[trigger] out@[q]@ == FrameView::Bulk(done[q]),
        decreases end - i,
    {
        let ghost k = i - start;
        assert(l[k] == buf@[i as int]);
        if buf[i] == 9 || buf[i] == 10 || buf[i] == 12 || buf[i] == 13 || buf[i] == 32 {
            proof {
                lemma_words_skip_space(l, k);
            }
            i = i + 1;
        } else {
            let mut j: usize = i;
            while j < end && !(buf[j] == 9 || buf[j] == 10 || buf[j] == 12 || buf[j] == 13 || buf[j] == 32)
                invariant
                    start <= i <= j <= end <= buf.len(),
                    l == buf@.subrange(start as int, end as int),
                    k == i - start,
                    token_len(l.skip(k)) == (j - i) + token_len(l.skip(j - start)),
                decreases end - j,
            {
                assert(l[j - start] == buf@[j as int]);
                proof {
                    lemma_token_step(l, j - start);
                }
                j = j + 1;
            }
            proof {
                if j < end {
                    assert(l[j - start] == buf@[j as int]);
                    assert(l.skip(j - start)[0] == l[j - start]);
                }
                assert(token_len(l.skip(j - start)) == 0);
                lemma_token_step(l, k);
                let t = token_len(l.skip(k));
                assert(l.skip(k)[0] == l[k]);
                assert(l.skip(k).take(t as int) =~= buf@.subrange(i as int, j as int));
                assert(l.skip(k).skip(t as int) =~= l.skip(j - start));
                assert(words(l.skip(k)) == seq![l.skip(k).take(t as int)] + words(l.skip(k).skip(t as int)));
            }
            let word = slice_to_vec(slice_subrange(buf, i, j));
            out.push(Frame::Bulk(word));
            proof {
                let w = buf@.subrange(i as int, j as int);
                assert(done.push(w) + words(l.skip(j - start)) =~= done + (seq![w] + words(l.skip(j - start))));
                done = done.push(w);
            }
            i = j;
        }
    }
    assert(l.skip(end - start) =~= Seq::<u8>::empty());
    assert(done =~= words(l));
    out
}


/// What reading the items of an array gives.
enum ItemsDecoded {
    Items(Vec<Frame>, usize),
    NeedMore,
}

spec fn items_step_of(r: Result<ItemsDecoded, ProtocolError>) -> ItemsStep {
    match r {
        Ok(ItemsDecoded::Items(v, n)) => ItemsStep::Done(v@.map_values(|f: Frame| f@), n as int),
        Ok(ItemsDecoded::NeedMore) => ItemsStep::NeedMore,
        Err(e) => ItemsStep::Failed(e),
    }
}

/// A bulk string whose header line announces the length `buf[text_start..text_end]`,
/// with its payload from `next` on.
fn decode_bulk(buf: &[u8], text_start: usize, text_end: usize, next: usize, at_eof: bool) -> (r:
    Result<Decoded, ProtocolError>)
    requires
        text_start <= text_end <= next <= buf.len(),
    ensures
        step_of(r) == bulk_spec(
            buf@.skip(next as int),
            at_eof,
            buf@.subrange(text_start as int, text_end as int),
        ),
        r matches Ok(Decoded::Frame(_, k)) ==> next + k <= buf.len(),
{
    let text = slice_subrange(buf, text_start, text_end);
    let ghost rest = buf@.skip(next as int);
    match parse_i64(text) {
        None => Err(number_error_of(text)),
        Some(len) => {
            if len == -1 {
                Ok(Decoded::Frame(Frame::Null, 0))
            } else if len < 0 {
                Err(ProtocolError::NegativeBulkLength)
            } else {
                let available: usize = buf.len() - next;
                let needed: u64 = len as u64 + 2;
                if (available as u64) < needed {
                    if at_eof {
                        Err(ProtocolError::UnexpectedEof)
                    } else {
                        Ok(Decoded::NeedMore)
                    }
                } else {
                    let n: usize = len as usize;
                    assert(rest[n as int] == buf@[next + n]);
                    assert(rest[n + 1] == buf@[next + n + 1]);
                    if buf[next + n] != 13 || buf[next + n + 1] != 10 {
                        Err(ProtocolError::MissingCrlf)
                    } else {
                        let payload = slice_to_vec(slice_subrange(buf, next, next + n));
                        assert(payload@ =~= rest.take(n as int));
                        Ok(Decoded::Frame(Frame::Bulk(payload), n + 2))
                    }
                }
            }
        },
    }
}

/// Where the line at `buf[pos..]` ends: the end of its text (before the
/// terminator) and the start of what follows it.
enum LineSpan {
    Line(usize, usize),
    NeedMore,
    End,
}

fn read_line_at(buf: &[u8], pos: usize, at_eof: bool) -> (r: LineSpan)
    requires
        pos <= buf.len(),
    ensures
        match r {
            LineSpan::Line(end, next) => pos <= end <= next <= buf.len() && pos < next
                && read_line(buf@.skip(pos as int), at_eof) == LineRead::Line(
                buf@.subrange(pos as int, end as int),
                next - pos,
            ),
            LineSpan::NeedMore => read_line(buf@.skip(pos as int), at_eof) == LineRead::NeedMore,
            LineSpan::End => read_line(buf@.skip(pos as int), at_eof) == LineRead::End,
        },
{
    let ghost s = buf@.skip(pos as int);
    let (raw_end, next) = match find_newline(buf, pos) {
        Some(p) => (p + 1, p + 1),
        None => {
            if !at_eof {
                return LineSpan::NeedMore;
            } else if pos == buf.len() {
                return LineSpan::End;
            } else {
                (buf.len(), buf.len())
            }
        },
    };
    let n: usize = next - pos;
    assert(s.take(n as int) =~= buf@.subrange(pos as int, raw_end as int));
    let mut end: usize = raw_end;
    if end - pos >= 2 && buf[end - 2] == 13 && buf[end - 1] == 10 {
        end = end - 2;
    } else if end - pos >= 1 && buf[end - 1] == 10 {
        end = end - 1;
    }
    let ghost l = buf@.subrange(pos as int, end as int);
    assert(read_line(s, at_eof) == LineRead::Line(l, n as int)) by {
        let raw = buf@.subrange(pos as int, raw_end as int);
        assert(trim_crlf(raw) =~= l);
        if newline_index(s, 0) is None {
            assert(s =~= raw);
        }
    }
    LineSpan::Line(end, next)
}

fn empty_request() -> (f: Frame)
    ensures
        f@ == FrameView::Error(empty_request_text()),
{
    let text = "ERR empty request".to_string();
    proof {
        reveal_strlit("ERR empty request");
        assert(text@ =~= empty_request_text());
    }
    Frame::Error(text)
}

fn inline_frame(buf: &[u8], start: usize, end: usize) -> (f: Frame)
    requires
        start <= end <= buf.len(),
    ensures
        f@ == inline_command(buf@.subrange(start as int, end as int)),
{
    let items = read_words(buf, start, end);
    let ghost models = items@;
    let frame = Frame::Array(items);
    proof {
        let l = buf@.subrange(start as int, end as int);
        let expected = words(l).map_values(|w: Seq<u8>| FrameView::Bulk(w));
        let got = frame@->Array_0;
        assert(got.len() == expected.len());
        assert forall|q: int| 0 <= q < got.len() implies got[q] == expected[q] by {
            assert(models[q]@ == FrameView::Bulk(words(l)[q]));
        }
        assert(got =~= expected);
    }
    frame
}

/// Reads one frame from `buf[pos..]`.
fn decode_at(buf: &[u8], pos: usize, at_eof: bool) -> (r: Result<Decoded, ProtocolError>)
    requires
        pos <= buf.len(),
    ensures
        step_of(r) == decode_spec(buf@.skip(pos as int), at_eof),
        r matches Ok(Decoded::Frame(_, k)) ==> 1 <= k && pos + k <= buf.len(),
    decreases buf.len() - pos, 0int,
{
    let ghost s = buf@.skip(pos as int);
    let (end, next) = match read_line_at(buf, pos, at_eof) {
        LineSpan::Line(end, next) => (end, next),
        LineSpan::NeedMore => {
            return Ok(Decoded::NeedMore);
        },
        LineSpan::End => {
            return Ok(Decoded::End);
        },
    };
    let n: usize = next - pos;
    let ghost l = buf@.subrange(pos as int, end as int);
    if end == pos {
        return Ok(Decoded::Frame(empty_request(), n));
    }
    let first = buf[pos];
    assert(l[0] == first);
    assert(l.skip(1) =~= buf@.subrange(pos + 1, end as int));
    assert(s.skip(n as int) =~= buf@.skip(next as int));
    if first == 42 {
        let text = slice_subrange(buf, pos + 1, end);
        match parse_usize(text) {
            None => Err(number_error_of(text)),
            Some(count) => {
                match decode_items(buf, next, at_eof, count) {
                    Ok(ItemsDecoded::Items(items, m)) => {
                        let frame = Frame::Array(items);
                        proof {
                            assert(frame@->Array_0 =~= items@.map_values(|f: Frame| f@));
                        }
                        Ok(Decoded::Frame(frame, n + m))
                    },
                    Ok(ItemsDecoded::NeedMore) => Ok(Decoded::NeedMore),
                    Err(e) => Err(e),
                }
            },
        }
    } else if first == 36 {
        match decode_bulk(buf, pos + 1, end, next, at_eof) {
            Ok(Decoded::Frame(f, k)) => Ok(Decoded::Frame(f, n + k)),
            other => other,
        }
    } else if first == 43 {
        let text = slice_to_vec(slice_subrange(buf, pos + 1, end));
        match utf8_to_string(text) {
            Some(value) => Ok(Decoded::Frame(Frame::Simple(value), n)),
            None => Err(ProtocolError::InvalidUtf8),
        }
    } else if first == 58 {
        let text = slice_subrange(buf, pos + 1, end);
        match parse_i64(text) {
            Some(v) => Ok(Decoded::Frame(Frame::Integer(v), n)),
            None => Err(number_error_of(text)),
        }
    } else {
        Ok(Decoded::Frame(inline_frame(buf, pos, end), n))
    }
}

/// Reads `count` frames one after the other from `buf[pos..]`.
fn decode_items(buf: &[u8], pos: usize, at_eof: bool, count: usize) -> (r: Result<
    ItemsDecoded,
    ProtocolError,
>)
    requires
        pos <= buf.len(),
    ensures
        items_step_of(r) == items_spec(buf@.skip(pos as int), at_eof, count as nat),
        r matches Ok(ItemsDecoded::Items(_, m)) ==> pos + m <= buf.len(),
    decreases buf.len() - pos, 1int,
{
    let mut items: Vec<Frame> = Vec::new();
    let mut p: usize = pos;
    let mut i: usize = 0;
    while i < count
        invariant
            pos <= p <= buf.len(),
            i <= count,
            items_spec(buf@.skip(pos as int), at_eof, count as nat) == prepend_items(
                items@.map_values(|f: Frame| f@),
                p - pos,
                items_spec(buf@.skip(p as int), at_eof, (count - i) as nat),
            ),
        decreases count - i,
    {
        let ghost before = items@.map_values(|f: Frame| f@);
        match decode_at(buf, p, at_eof) {
            Ok(Decoded::Frame(f, k)) => {
                let ghost fv = f@;
                proof {
                    assert(buf@.skip(p as int).skip(k as int) =~= buf@.skip(p + k));
                }
                items.push(f);
                proof {
                    assert(items@.map_values(|f: Frame| f@) =~= before + seq![fv]);
                    let rest = items_spec(buf@.skip(p + k), at_eof, (count - i - 1) as nat);
                    assert(prepend_items(before, p - pos, prepend_items(seq![fv], k as int, rest))
                        == prepend_items(before + seq![fv], p + k - pos, rest)) by {
                        match rest {
                            ItemsStep::Done(xs, m) => {
                                assert(before + (seq![fv] + xs) =~= before + seq![fv] + xs);
                            },
                            _ => {},
                        }
                    }
                }
                p = p + k;
            },
            Ok(Decoded::NeedMore) => {
                return Ok(ItemsDecoded::NeedMore);
            },
            Ok(Decoded::End) => {
                return Err(ProtocolError::UnexpectedEof);
            },
            Err(e) => {
                return Err(e);
            },
        }
        i = i + 1;
    }
    proof {
        assert(items_spec(buf@.skip(p as int), at_eof, 0) == ItemsStep::Done(Seq::empty(), 0));
        assert(items@.map_values(|f: Frame| f@) + Seq::<FrameView>::empty() =~= items@.map_values(|f: Frame| f@));
    }
    Ok(ItemsDecoded::Items(items, p - pos))
}

/// Reads one RESP2 frame from the front of `buf`. `at_eof` says whether the
/// stream ends after `buf`: where it does not, a frame that `buf` holds only
/// the start of gives `NeedMore`.
pub fn decode_frame(buf: &[u8], at_eof: bool) -> (r: Result<Decoded, ProtocolError>)
    ensures
        step_of(r) == decode_spec(buf@, at_eof),
        r matches Ok(Decoded::Frame(_, k)) ==> 1 <= k <= buf.len(),
{
    assert(buf@.skip(0) =~= buf@);
    decode_at(buf, 0, at_eof)
}

} // verus!
