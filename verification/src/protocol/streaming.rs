use vstd::prelude::*;

use super::number::{parse_i64_spec, parse_usize_spec};
use super::parser::{
    bulk_spec, decode_spec, items_spec, newline_index, read_line, ItemsStep, LineRead,
    ProtocolError, Step,
};

verus! {

proof fn lemma_newline_extends(s: Seq<u8>, t: Seq<u8>, i: nat)
    ensures
        newline_index(s, i) matches Some(p) ==> newline_index(s + t, i) == Some(p),
    decreases s.len() - i,
{
    if i < s.len() {
        assert((s + t)[i as int] == s[i as int]);
        lemma_newline_extends(s, t, i + 1);
    }
}

proof fn lemma_newline_bounds(s: Seq<u8>, i: nat)
    ensures
        newline_index(s, i) matches Some(p) ==> i <= p < s.len(),
    decreases s.len() - i,
{
    if i < s.len() {
        lemma_newline_bounds(s, i + 1);
    }
}

/// A line that a buffer holds whole is read the same whatever follows it.
proof fn lemma_read_line_extends(s: Seq<u8>, t: Seq<u8>, at_eof: bool)
    ensures
        read_line(s, false) matches LineRead::Line(l, n) ==> read_line(s + t, at_eof)
            == LineRead::Line(l, n) && 1 <= n <= s.len(),
        read_line(s, false) is End ==> false,
{
    lemma_newline_extends(s, t, 0);
    lemma_newline_bounds(s, 0);
    if let Some(p) = newline_index(s, 0) {
        assert((s + t).take(p + 1int) =~= s.take(p + 1int));
    }
}

/// At the end of the stream, a line is read whenever anything is left.
proof fn lemma_read_line_at_eof(s: Seq<u8>)
    ensures
        read_line(s, true) matches LineRead::Line(_, n) ==> 1 <= n <= s.len(),
        !(read_line(s, true) is NeedMore),
{
    lemma_newline_bounds(s, 0);
}

proof fn lemma_bulk_extends(rest: Seq<u8>, t: Seq<u8>, at_eof: bool, text: Seq<u8>)
    ensures
        bulk_spec(rest, false, text) matches Step::Done(f, k) ==> bulk_spec(rest + t, at_eof, text)
            == Step::Done(f, k) && 0 <= k <= rest.len(),
        bulk_spec(rest, false, text) matches Step::Failed(e) ==> bulk_spec(rest + t, at_eof, text)
            == Step::Failed(e),
        bulk_spec(rest, true, text) matches Step::Done(_, k) ==> 0 <= k <= rest.len(),
        !(bulk_spec(rest, true, text) is NeedMore),
        !(bulk_spec(rest, at_eof, text) is End),
{
    if let Step::Done(f, k) = bulk_spec(rest, false, text) {
        if k > 0 {
            let len = k - 2;
            assert((rest + t)[len] == rest[len]);
            assert((rest + t)[len + 1] == rest[len + 1]);
            assert((rest + t).take(len) =~= rest.take(len));
        }
    }
    if let Step::Failed(e) = bulk_spec(rest, false, text) {
        if e == ProtocolError::MissingCrlf {
            let len = parse_i64_spec(text)->Some_0 as int;
            assert((rest + t)[len] == rest[len]);
            assert((rest + t)[len + 1] == rest[len + 1]);
        }
    }
}

/// A frame that a buffer holds whole, or an error in it, is read the same
/// whatever follows it; and at the end of the stream the reader never asks
/// for more. So reading a stream piece by piece, starting over on the
/// unconsumed bytes whenever more is needed, gives what reading it whole gives.
pub proof fn law_decode_extends(s: Seq<u8>, t: Seq<u8>, at_eof: bool)
    ensures
        decode_spec(s, false) matches Step::Done(f, k) ==> decode_spec(s + t, at_eof)
            == Step::Done(f, k),
        decode_spec(s, false) matches Step::Failed(e) ==> decode_spec(s + t, at_eof)
            == Step::Failed(e),
        decode_spec(s, at_eof) matches Step::Done(_, k) ==> 1 <= k <= s.len(),
        !(decode_spec(s, true) is NeedMore),
    decreases s.len(), 0int,
{
    lemma_read_line_extends(s, t, at_eof);
    lemma_read_line_extends(s, t, false);
    lemma_read_line_at_eof(s);
    lemma_newline_bounds(s, 0);
    match read_line(s, at_eof) {
        LineRead::Line(l, n) => {
            if 1 <= n <= s.len() && l.len() > 0 {
                assert((s + t).skip(n) =~= s.skip(n) + t);
                if l[0] == 42 {
                    if let Some(count) = parse_usize_spec(l.skip(1)) {
                        law_items_extends(s.skip(n), t, at_eof, count as nat);
                        law_items_extends(s.skip(n), t, false, count as nat);
                    }
                } else if l[0] == 36 {
                    lemma_bulk_extends(s.skip(n), t, at_eof, l.skip(1));
                    lemma_bulk_extends(s.skip(n), t, false, l.skip(1));
                }
            }
        },
        _ => {},
    }
    match read_line(s, false) {
        LineRead::Line(l, n) => {
            if l.len() > 0 {
                assert((s + t).skip(n) =~= s.skip(n) + t);
                if l[0] == 42 {
                    if let Some(count) = parse_usize_spec(l.skip(1)) {
                        law_items_extends(s.skip(n), t, at_eof, count as nat);
                    }
                } else if l[0] == 36 {
                    lemma_bulk_extends(s.skip(n), t, at_eof, l.skip(1));
                }
            }
        },
        _ => {},
    }
    match read_line(s, true) {
        LineRead::Line(l, n) => {
            if l.len() > 0 {
                if l[0] == 42 {
                    if let Some(count) = parse_usize_spec(l.skip(1)) {
                        law_items_extends(s.skip(n), t, true, count as nat);
                    }
                } else if l[0] == 36 {
                    lemma_bulk_extends(s.skip(n), t, true, l.skip(1));
                }
            }
        },
        _ => {},
    }
}

/// The same for the items of an array.
pub proof fn law_items_extends(s: Seq<u8>, t: Seq<u8>, at_eof: bool, count: nat)
    ensures
        items_spec(s, false, count) matches ItemsStep::Done(fs, k) ==> items_spec(s + t, at_eof, count)
            == ItemsStep::Done(fs, k),
        items_spec(s, false, count) matches ItemsStep::Failed(e) ==> items_spec(s + t, at_eof, count)
            == ItemsStep::Failed(e),
        items_spec(s, at_eof, count) matches ItemsStep::Done(_, k) ==> 0 <= k <= s.len(),
        !(items_spec(s, true, count) is NeedMore),
    decreases s.len(), 1int,
{
    if count > 0 {
        law_decode_extends(s, t, at_eof);
        law_decode_extends(s, t, false);
        law_decode_extends(s, t, true);
        if let Step::Done(f, k) = decode_spec(s, false) {
            assert((s + t).skip(k) =~= s.skip(k) + t);
            law_items_extends(s.skip(k), t, at_eof, (count - 1) as nat);
        }
        if let Step::Done(f, k) = decode_spec(s, at_eof) {
            law_items_extends(s.skip(k), t, at_eof, (count - 1) as nat);
        }
        if let Step::Done(f, k) = decode_spec(s, true) {
            law_items_extends(s.skip(k), t, true, (count - 1) as nat);
        }
    }
}

} // verus!
