use vstd::prelude::*;
use vstd::utf8::encode_utf8;

use super::frame::{Frame, FrameView};
use super::number::{decimal, push_decimal, push_signed_decimal, signed_decimal};
use crate::text::append_bytes;

verus! {

pub open spec fn crlf() -> Seq<u8> {
    seq![13u8, 10u8]
}

/// The RESP2 encoding of a frame.
pub open spec fn encode_spec(f: FrameView) -> Seq<u8>
    decreases f,
{
    match f {
        FrameView::Simple(s) => seq![43u8] + encode_utf8(s) + crlf(),
        FrameView::Error(s) => seq![45u8] + encode_utf8(s) + crlf(),
        FrameView::Integer(n) => seq![58u8] + signed_decimal(n) + crlf(),
        FrameView::Bulk(b) => seq![36u8] + decimal(b.len()) + crlf() + b + crlf(),
        FrameView::Null => seq![36u8, 45u8, 49u8] + crlf(),
        FrameView::Array(items) => seq![42u8] + decimal(items.len()) + crlf() + encode_items(items),
    }
}

/// The encodings of the frames, one after the other.
pub open spec fn encode_items(items: Seq<FrameView>) -> Seq<u8>
    decreases items,
{
    if items.len() == 0 {
        Seq::empty()
    } else {
        encode_items(items.drop_last()) + encode_spec(items.last())
    }
}

/// Appends the RESP2 encoding of `frame`.
pub fn encode_into(frame: &Frame, out: &mut Vec<u8>)
    ensures
        final(out)@ == old(out)@ + encode_spec(frame@),
    decreases frame,
{
    match frame {
        Frame::Simple(value) => {
            out.push(43u8);
            append_bytes(out, value.as_str().as_bytes());
            out.push(13u8);
            out.push(10u8);
        },
        Frame::Error(value) => {
            out.push(45u8);
            append_bytes(out, value.as_str().as_bytes());
            out.push(13u8);
            out.push(10u8);
        },
        Frame::Integer(value) => {
            out.push(58u8);
            push_signed_decimal(*value, out);
            out.push(13u8);
            out.push(10u8);
        },
        Frame::Bulk(value) => {
            out.push(36u8);
            push_decimal(value.len() as u64, out);
            out.push(13u8);
            out.push(10u8);
            append_bytes(out, value.as_slice());
            out.push(13u8);
            out.push(10u8);
        },
        Frame::Null => {
            out.push(36u8);
            out.push(45u8);
            out.push(49u8);
            out.push(13u8);
            out.push(10u8);
        },
        Frame::Array(items) => {
            out.push(42u8);
            push_decimal(items.len() as u64, out);
            out.push(13u8);
            out.push(10u8);
            let ghost header = out@;
            let ghost models = frame@->Array_0;
            let mut i: usize = 0;
            while i < items.len()
                invariant
                    i <= items.len(),
                    *frame == Frame::Array(*items),
                    models == frame@->Array_0,
                    models.len() == items.len(),
                    forall|j: int| 0 <= j < items.len() ==> #[trigger] models[j] == items[j]@,
                    out@ == header + encode_items(models.take(i as int)),
                decreases items.len() - i,
            {
                proof {
                    vstd::std_specs::vec::axiom_vec_index_decreases(*items, i as int);
                    assert(decreases_to!(*frame => *items));
                }
                encode_into(&items[i], out);
                assert(models.take(i + 1).drop_last() =~= models.take(i as int));
                i = i + 1;
            }
            assert(models.take(items.len() as int) =~= models);
        },
    }
    assert(final(out)@ =~= old(out)@ + encode_spec(frame@));
}

/// The RESP2 encoding of `frame`.
pub fn encode_frame(frame: &Frame) -> (r: Vec<u8>)
    ensures
        r@ == encode_spec(frame@),
{
    let mut out: Vec<u8> = Vec::new();
    encode_into(frame, &mut out);
    assert(out@ =~= encode_spec(frame@));
    out
}

} // verus!
