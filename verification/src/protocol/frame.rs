use vstd::prelude::*;

verus! {

/// A RESP2 value.
#[derive(Debug, PartialEq, Eq)]
pub enum Frame {
    Simple(String),
    Error(String),
    Integer(i64),
    Bulk(Vec<u8>),
    Null,
    Array(Vec<Frame>),
}

/// The mathematical model of a [`Frame`]: strings as character sequences,
/// byte strings as byte sequences, arrays as sequences of models.
pub enum FrameView {
    Simple(Seq<char>),
    Error(Seq<char>),
    Integer(int),
    Bulk(Seq<u8>),
    Null,
    Array(Seq<FrameView>),
}

impl Frame {
    pub open spec fn model(&self) -> FrameView
        decreases self,
    {
        match self {
            Frame::Simple(s) => FrameView::Simple(s@),
            Frame::Error(s) => FrameView::Error(s@),
            Frame::Integer(n) => FrameView::Integer(*n as int),
            Frame::Bulk(b) => FrameView::Bulk(b@),
            Frame::Null => FrameView::Null,
            Frame::Array(items) => FrameView::Array(
                Seq::new(items.len() as nat, |i: int| if 0 <= i < items.len() { items[i].model() } else { FrameView::Null }),
            ),
        }
    }
}

impl View for Frame {
    type V = FrameView;

    open spec fn view(&self) -> FrameView {
        self.model()
    }
}

} // verus!
