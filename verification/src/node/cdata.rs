//! CDATA sections.
use vstd::prelude::*;
use vstd::string::*;
use crate::strspan::{owned_span, SpanView, StrSpan};
use crate::to_bin::{BinDecodeError, Decoded, Decoder, Encoder, ToBinHandler};

verus! {

/// What a CDATA section stands for.
pub struct CdataView {
    /// The whole section as it stands in the source.
    pub span: SpanView,
    /// What stands between the brackets.
    pub content: SpanView,
}

impl CdataView {
    /// The node with every offset set to zero.
    pub open spec fn stripped(self) -> CdataView {
        CdataView { span: self.span.unplaced(), content: self.content.unplaced() }
    }

    /// The node as an owned copy holds it: the content alone, without
    /// offsets.
    pub open spec fn detached(self) -> CdataView {
        CdataView { span: SpanView::empty(), content: self.content.unplaced() }
    }

    /// The bytes that stand for the node: its two spans.
    pub open spec fn encoding(self, header: bool) -> Seq<u8> {
        self.span.encoding(header) + self.content.encoding(header)
    }

    /// The node that `buf` holds at `pos`.
    #[verifier::opaque]
    pub open spec fn decoding(buf: Seq<u8>, pos: int, src: Option<Seq<u8>>) -> Decoded<CdataView> {
        match SpanView::decoding(buf, pos, src) {
            Err(e) => Err(e),
            Ok((span, n1)) => match SpanView::decoding(buf, pos + n1, src) {
                Err(e) => Err(e),
                Ok((content, n2)) => Ok((CdataView { span, content }, n1 + n2)),
            },
        }
    }

    /// True when the binary form can hold the node in this mode: with a
    /// source, every span lies in it; without one, every text has a length
    /// that a count can hold; and so has every sequence.
    pub open spec fn storable(self, mode: Option<Seq<u8>>) -> bool {
        self.span.storable(mode) && self.content.storable(mode)
    }
}

/// A CDATA section: `<![CDATA[content]]>`.
#[derive(Debug, Clone, PartialEq)]
pub struct CdataNode<'src> {
    pub(crate) span: StrSpan<'src>,
    pub(crate) content: StrSpan<'src>,
}

impl<'src> View for CdataNode<'src> {
    type V = CdataView;

    open(crate) spec fn view(&self) -> CdataView {
        CdataView { span: self.span@, content: self.content@ }
    }
}

impl<'src> CdataNode<'src> {
    /// A CDATA section of the span it covers and its content.
    pub fn new(span: StrSpan<'src>, content: StrSpan<'src>) -> (r: Self)
        ensures
            r@ == (CdataView { span: span@, content: content@ }),
    {
        CdataNode { span, content }
    }

    /// The span of the node in the source.
    #[must_use]
    pub fn span(&self) -> (r: &StrSpan<'src>)
        ensures
            r@ == self@.span,
    {
        &self.span
    }

    /// What stands between the brackets.
    #[must_use]
    pub fn content(&self) -> (r: &StrSpan<'src>)
        ensures
            r@ == self@.content,
    {
        &self.content
    }

    /// An owned copy of the node, without offsets.
    #[must_use]
    pub fn to_owned(&self) -> (r: OwnedCdataNode)
        ensures
            r@ == self@.detached(),
    {
        OwnedCdataNode { content: self.content.text().to_owned() }
    }

    /// A copy of the node.
    pub fn duplicate(&self) -> (r: Self)
        ensures
            r@ == self@,
    {
        CdataNode { span: self.span, content: self.content }
    }

    /// The node with every offset set to zero.
    pub fn stripped(&self) -> (r: Self)
        ensures
            r@ == self@.stripped(),
    {
        CdataNode { span: self.span.unplaced(), content: self.content.unplaced() }
    }

    /// Sets every offset of the node to zero and keeps the text.
    pub fn strip_metadata(&mut self)
        ensures
            final(self)@ == old(self)@.stripped(),
    {
        *self = self.stripped();
    }
}

impl<'src> ToBinHandler<'src> for CdataNode<'src> {
    type Model = CdataView;

    open spec fn reserving(buf: Seq<u8>, pos: int, src: Option<Seq<u8>>) -> bool {
        false
    }

    open spec fn model(&self) -> CdataView {
        self@
    }

    open spec fn encoding(m: CdataView, header: bool) -> Seq<u8> {
        m.encoding(header)
    }

    open spec fn decoding(buf: Seq<u8>, pos: int, src: Option<Seq<u8>>) -> Decoded<CdataView> {
        CdataView::decoding(buf, pos, src)
    }

    fn write(&self, encoder: &mut Encoder) -> (r: std::io::Result<()>) {
        let _ = self.span.write(encoder);
        let _ = self.content.write(encoder);
        proof {
            assert(encoder@.bytes =~= old(encoder)@.bytes + self@.encoding(
                old(encoder)@.source_header,
            ));
        }
        Ok(())
    }

    fn read(decoder: &mut Decoder<'src>) -> (r: Result<Self, BinDecodeError>) {
        proof {
            reveal(CdataView::decoding);
        }
        let span = StrSpan::read(decoder)?;
        let content = StrSpan::read(decoder)?;
        Ok(CdataNode { span, content })
    }
}

/// An owned CDATA section, without offsets.
#[derive(Debug, Clone, PartialEq)]
pub struct OwnedCdataNode {
    /// What stands between the brackets.
    pub content: String,
}

impl View for OwnedCdataNode {
    type V = CdataView;

    open spec fn view(&self) -> CdataView {
        CdataView { span: SpanView::empty(), content: owned_span(self.content@) }
    }
}

impl OwnedCdataNode {
    /// A CDATA section that holds `content`.
    pub fn new(content: &str) -> (r: Self)
        ensures
            r@ == (CdataView { span: SpanView::empty(), content: owned_span(content@) }),
    {
        OwnedCdataNode { content: content.to_owned() }
    }

    /// A copy of the node.
    pub fn duplicate(&self) -> (r: Self)
        ensures
            r@ == self@,
    {
        OwnedCdataNode { content: self.content.clone() }
    }

    /// The node as spans over the owned strings, at offset zero.
    pub fn borrowed(&self) -> (r: CdataNode<'_>)
        ensures
            r@ == self@,
    {
        CdataNode { span: StrSpan::empty(), content: StrSpan::from_str(self.content.as_str()) }
    }
}

/// An owned value is written as the spans over its strings are, and read
/// as an owned copy of what the stream holds.
impl<'src> ToBinHandler<'src> for OwnedCdataNode {
    type Model = CdataView;

    open spec fn reserving(buf: Seq<u8>, pos: int, src: Option<Seq<u8>>) -> bool {
        false
    }

    open spec fn model(&self) -> CdataView {
        self@
    }

    open spec fn encoding(m: CdataView, header: bool) -> Seq<u8> {
        m.encoding(header)
    }

    open spec fn decoding(buf: Seq<u8>, pos: int, src: Option<Seq<u8>>) -> Decoded<CdataView> {
        match CdataView::decoding(buf, pos, src) {
            Ok((m, used)) => Ok((m.detached(), used)),
            Err(e) => Err(e),
        }
    }

    fn write(&self, encoder: &mut Encoder) -> (r: std::io::Result<()>) {
        self.borrowed().write(encoder)
    }

    fn read(decoder: &mut Decoder<'src>) -> (r: Result<Self, BinDecodeError>) {
        match CdataNode::read(decoder) {
            Ok(node) => Ok(node.to_owned()),
            Err(e) => Err(e),
        }
    }
}

} // verus!
