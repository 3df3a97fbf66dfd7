use vstd::prelude::*;
use vstd::utf8::{encode_utf8, encode_utf8_decode_utf8, encode_utf8_valid_utf8};

use super::encoder::{crlf, encode_items, encode_spec};
use super::frame::FrameView;
use super::number::{
    all_digits, decimal, digits_value, lemma_decimal_digits, parse_i64_spec, parse_u64_spec,
    parse_usize_spec, signed_decimal,
};
use super::parser::{
    bulk_spec, decode_spec, items_spec, newline_index, read_line, shift, trim_crlf, ItemsStep,
    LineRead, Step,
};

verus! {

/// A frame that the reader gives back as it was written: it holds no error
/// frame (the reader takes a line that starts with `-` for an inline
/// command), no simple string whose bytes hold a `\n`, and only numbers and
/// lengths that the reader's number parsing accepts.
pub open spec fn replayable(f: FrameView) -> bool
    decreases f,
{
    match f {
        FrameView::Simple(s) => !encode_utf8(s).contains(10u8),
        FrameView::Error(_) => false,
        FrameView::Integer(n) => i64::MIN <= n <= i64::MAX,
        FrameView::Bulk(b) => b.len() <= i64::MAX,
        FrameView::Null => true,
        FrameView::Array(items) => items.len() <= usize::MAX && forall|i: int|
            0 <= i < items.len() ==> replayable(#[trigger] items[i]),
    }
}

proof fn lemma_newline_found(s: Seq<u8>, i: nat, p: nat)
    requires
        i <= p < s.len(),
        s[p as int] == 10,
        forall|j: int| i <= j < p ==> s[j] != 10,
    ensures
        newline_index(s, i) == Some(p),
    decreases p - i,
{
    if i < p {
        lemma_newline_found(s, i + 1, p);
    }
}

/// A header byte `c`, a text `h` without `\n`, then CRLF: that is the line.
proof fn lemma_read_header(c: u8, h: Seq<u8>, rest: Seq<u8>, at_eof: bool)
    requires
        c != 10,
        !h.contains(10u8),
    ensures
        ({
            let s = seq![c] + h + crlf() + rest;
            read_line(s, at_eof) == LineRead::Line(seq![c] + h, h.len() + 3int)
        }),
{
    let s = seq![c] + h + crlf() + rest;
    let p = (h.len() + 2) as nat;
    assert forall|j: int| 0 <= j < p implies s[j] != 10 by {
        if 1 <= j < h.len() + 1 {
            assert(s[j] == h[j - 1]);
        }
    }
    assert(s[p as int] == 10);
    lemma_newline_found(s, 0, p);
    assert(s.take(p + 1int) =~= seq![c] + h + crlf());
    assert(trim_crlf(s.take(p + 1int)) =~= seq![c] + h);
}

proof fn lemma_digits_no_newline(d: Seq<u8>)
    requires
        all_digits(d),
    ensures
        !d.contains(10u8),
{
    if d.contains(10u8) {
        let j = choose|j: int| 0 <= j < d.len() && d[j] == 10u8;
        assert(48 <= d[j] <= 57);
    }
}

pub proof fn lemma_parse_decimal(n: nat)
    ensures
        n <= usize::MAX ==> parse_usize_spec(decimal(n)) == Some(n as usize),
        n <= u64::MAX ==> parse_u64_spec(decimal(n)) == Some(n as u64),
        n <= i64::MAX ==> parse_i64_spec(decimal(n)) == Some(n as i64),
        !decimal(n).contains(10u8),
        decimal(n).len() >= 1,
{
    lemma_decimal_digits(n);
    lemma_digits_no_newline(decimal(n));
    assert(48 <= decimal(n)[0] <= 57);
}

proof fn lemma_parse_signed_decimal(v: int)
    requires
        i64::MIN <= v <= i64::MAX,
    ensures
        parse_i64_spec(signed_decimal(v)) == Some(v as i64),
        !signed_decimal(v).contains(10u8),
{
    if v < 0 {
        let d = decimal((-v) as nat);
        lemma_decimal_digits((-v) as nat);
        lemma_digits_no_newline(d);
        let s = signed_decimal(v);
        assert(s.skip(1) =~= d);
        if s.contains(10u8) {
            let j = choose|j: int| 0 <= j < s.len() && s[j] == 10u8;
            assert(j > 0);
            assert(s[j] == d[j - 1]);
        }
    } else {
        lemma_parse_decimal(v as nat);
    }
}

/// The encodings of a non-empty sequence of frames: the first one's, then the rest's.
proof fn lemma_encode_items_front(items: Seq<FrameView>)
    requires
        items.len() > 0,
    ensures
        encode_items(items) == encode_spec(items[0]) + encode_items(items.skip(1)),
    decreases items.len(),
{
    if items.len() == 1 {
        assert(items.drop_last() =~= Seq::<FrameView>::empty());
        assert(items.skip(1) =~= Seq::<FrameView>::empty());
        assert(encode_items(items.drop_last()) =~= Seq::<u8>::empty());
        assert(encode_items(items.skip(1)) =~= Seq::<u8>::empty());
        assert(encode_items(items) =~= encode_spec(items[0]));
    } else {
        lemma_encode_items_front(items.drop_last());
        assert(items.drop_last().skip(1) =~= items.skip(1).drop_last());
        assert(items.skip(1).last() == items.last());
        assert(encode_items(items) =~= encode_spec(items[0]) + encode_items(items.skip(1)));
    }
}

proof fn lemma_decode_simple(t: Seq<char>, rest: Seq<u8>, at_eof: bool)
    requires
        replayable(FrameView::Simple(t)),
    ensures
        decode_spec(encode_spec(FrameView::Simple(t)) + rest, at_eof) == Step::Done(
            FrameView::Simple(t),
            encode_spec(FrameView::Simple(t)).len() as int,
        ),
{
    let body = encode_utf8(t);
    let s = encode_spec(FrameView::Simple(t)) + rest;
    assert(s =~= seq![43u8] + body + crlf() + rest);
    lemma_read_header(43u8, body, rest, at_eof);
    let l = seq![43u8] + body;
    assert(l.skip(1) =~= body);
    encode_utf8_valid_utf8(t);
    encode_utf8_decode_utf8(t);
}

proof fn lemma_decode_integer(v: int, rest: Seq<u8>, at_eof: bool)
    requires
        replayable(FrameView::Integer(v)),
    ensures
        decode_spec(encode_spec(FrameView::Integer(v)) + rest, at_eof) == Step::Done(
            FrameView::Integer(v),
            encode_spec(FrameView::Integer(v)).len() as int,
        ),
{
    let body = signed_decimal(v);
    let s = encode_spec(FrameView::Integer(v)) + rest;
    lemma_parse_signed_decimal(v);
    assert(s =~= seq![58u8] + body + crlf() + rest);
    lemma_read_header(58u8, body, rest, at_eof);
    let l = seq![58u8] + body;
    assert(l.skip(1) =~= body);
}

proof fn lemma_decode_bulk(b: Seq<u8>, rest: Seq<u8>, at_eof: bool)
    requires
        replayable(FrameView::Bulk(b)),
    ensures
        decode_spec(encode_spec(FrameView::Bulk(b)) + rest, at_eof) == Step::Done(
            FrameView::Bulk(b),
            encode_spec(FrameView::Bulk(b)).len() as int,
        ),
{
    let e = encode_spec(FrameView::Bulk(b));
    let s = e + rest;
    let len_text = decimal(b.len());
    lemma_parse_decimal(b.len());
    assert(s =~= seq![36u8] + len_text + crlf() + (b + crlf() + rest));
    lemma_read_header(36u8, len_text, b + crlf() + rest, at_eof);
    let l = seq![36u8] + len_text;
    assert(l.skip(1) =~= len_text);
    let n: int = len_text.len() + 3int;
    let after = b + crlf() + rest;
    assert(s.skip(n) =~= after);
    assert(after.take(b.len() as int) =~= b);
    assert(after[b.len() as int] == 13);
    assert(after[b.len() + 1int] == 10);
    assert(bulk_spec(after, at_eof, len_text) == Step::Done(FrameView::Bulk(b), b.len() + 2int));
    assert(shift(bulk_spec(after, at_eof, len_text), n) == Step::Done(
        FrameView::Bulk(b),
        e.len() as int,
    ));
}

proof fn lemma_parse_minus_one()
    ensures
        parse_i64_spec(seq![45u8, 49u8]) == Some(-1i64),
{
    let t = seq![45u8, 49u8];
    let d = seq![49u8];
    assert(t.skip(1) =~= d);
    assert(all_digits(d));
    assert(d.drop_last() =~= Seq::<u8>::empty());
    assert(digits_value(Seq::<u8>::empty()) == 0);
    assert(d.last() == 49u8);
    assert(digits_value(d) == digits_value(d.drop_last()) * 10 + (d.last() - 48) as nat);
}

proof fn lemma_decode_null(rest: Seq<u8>, at_eof: bool)
    ensures
        decode_spec(encode_spec(FrameView::Null) + rest, at_eof) == Step::Done(
            FrameView::Null,
            encode_spec(FrameView::Null).len() as int,
        ),
{
    let s = encode_spec(FrameView::Null) + rest;
    let len_text = seq![45u8, 49u8];
    assert(s =~= seq![36u8] + len_text + crlf() + rest);
    assert(!len_text.contains(10u8)) by {
        if len_text.contains(10u8) {
            let j = choose|j: int| 0 <= j < len_text.len() && len_text[j] == 10u8;
        }
    }
    lemma_read_header(36u8, len_text, rest, at_eof);
    let l = seq![36u8] + len_text;
    assert(l.skip(1) =~= len_text);
    lemma_parse_minus_one();
}

#[verifier::rlimit(40)]
proof fn lemma_decode_array(items: Seq<FrameView>, rest: Seq<u8>, at_eof: bool)
    requires
        replayable(FrameView::Array(items)),
        items_spec(encode_items(items) + rest, at_eof, items.len()) == ItemsStep::Done(
            items,
            encode_items(items).len() as int,
        ),
    ensures
        decode_spec(encode_spec(FrameView::Array(items)) + rest, at_eof) == Step::Done(
            FrameView::Array(items),
            encode_spec(FrameView::Array(items)).len() as int,
        ),
{
    let s = encode_spec(FrameView::Array(items)) + rest;
    let count_text = decimal(items.len());
    lemma_parse_decimal(items.len());
    let body = encode_items(items);
    assert(s =~= seq![42u8] + count_text + crlf() + (body + rest));
    lemma_read_header(42u8, count_text, body + rest, at_eof);
    let l = seq![42u8] + count_text;
    assert(l.skip(1) =~= count_text);
    let n: int = count_text.len() + 3int;
    assert(s.skip(n) =~= body + rest);
}

/// Reading a replayable frame's encoding, whatever follows it, gives the frame
/// back and takes exactly its encoding.
pub proof fn lemma_decode_encode(f: FrameView, rest: Seq<u8>, at_eof: bool)
    requires
        replayable(f),
    ensures
        decode_spec(encode_spec(f) + rest, at_eof) == Step::Done(f, encode_spec(f).len() as int),
    decreases f,
{
    match f {
        FrameView::Simple(t) => lemma_decode_simple(t, rest, at_eof),
        FrameView::Error(_) => {},
        FrameView::Integer(v) => lemma_decode_integer(v, rest, at_eof),
        FrameView::Bulk(b) => lemma_decode_bulk(b, rest, at_eof),
        FrameView::Null => lemma_decode_null(rest, at_eof),
        FrameView::Array(items) => {
            lemma_items_decode_encode(items, rest, at_eof);
            lemma_decode_array(items, rest, at_eof);
        },
    }
}

/// Reading the encodings of replayable frames, one after the other, gives the
/// frames back.
pub proof fn lemma_items_decode_encode(items: Seq<FrameView>, rest: Seq<u8>, at_eof: bool)
    requires
        forall|i: int| 0 <= i < items.len() ==> replayable(#[trigger] items[i]),
    ensures
        items_spec(encode_items(items) + rest, at_eof, items.len()) == ItemsStep::Done(
            items,
            encode_items(items).len() as int,
        ),
    decreases items,
{
    if items.len() == 0 {
        assert(items =~= Seq::<FrameView>::empty());
    } else {
        lemma_encode_items_front(items);
        let first = encode_spec(items[0]);
        let tail = items.skip(1);
        let s = encode_items(items) + rest;
        assert(s =~= first + (encode_items(tail) + rest));
        assert(replayable(items[0]));
        lemma_decode_encode(items[0], encode_items(tail) + rest, at_eof);
        assert(first.len() >= 1) by {
            lemma_encode_nonempty(items[0]);
        }
        assert(s.skip(first.len() as int) =~= encode_items(tail) + rest);
        assert forall|i: int| 0 <= i < tail.len() implies replayable(#[trigger] tail[i]) by {
            assert(tail[i] == items[i + 1]);
        }
        lemma_items_decode_encode(tail, rest, at_eof);
        assert(seq![items[0]] + tail =~= items);
        assert((items.len() - 1) as nat == tail.len());
    }
}

proof fn lemma_encode_nonempty(f: FrameView)
    ensures
        encode_spec(f).len() >= 1,
{
}

} // verus!
