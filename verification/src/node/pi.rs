//! Processing instructions.
use vstd::prelude::*;
use vstd::string::*;
use crate::to_bin::{BinDecodeError, Decoded, Decoder, Encoder, ToBinHandler};
use crate::strspan::{
    opt_span_decoding, opt_span_encoding, opt_storable, opt_span_to_string, opt_span_unplaced, opt_string_to_span, opt_unplaced,
    opt_view, owned_opt_span, owned_span, SpanView, StrSpan,
};

verus! {

/// What a processing instruction stands for.
pub struct PiView {
    /// The whole instruction as it stands in the source.
    pub span: SpanView,
    /// The target that the instruction addresses.
    pub target: SpanView,
    /// What follows the target, if anything.
    pub content: Option<SpanView>,
}

impl PiView {
    /// The node with every offset set to zero.
    pub open spec fn stripped(self) -> PiView {
        PiView {
            span: self.span.unplaced(),
            target: self.target.unplaced(),
            content: opt_unplaced(self.content),
        }
    }

    /// The node as an owned copy holds it: target and content, without
    /// offsets.
    pub open spec fn detached(self) -> PiView {
        PiView {
            span: SpanView::empty(),
            target: self.target.unplaced(),
            content: opt_unplaced(self.content),
        }
    }

    /// The bytes that stand for the node: its span, its target and its
    /// optional content.
    pub open spec fn encoding(self, header: bool) -> Seq<u8> {
        self.span.encoding(header) + self.target.encoding(header) + opt_span_encoding(
            self.content,
            header,
        )
    }

    /// The node that `buf` holds at `pos`.
    #[verifier::opaque]
    pub open spec fn decoding(buf: Seq<u8>, pos: int, src: Option<Seq<u8>>) -> Decoded<PiView> {
        match SpanView::decoding(buf, pos, src) {
            Err(e) => Err(e),
            Ok((span, n1)) => match SpanView::decoding(buf, pos + n1, src) {
                Err(e) => Err(e),
                Ok((target, n2)) => match opt_span_decoding(buf, pos + n1 + n2, src) {
                    Err(e) => Err(e),
                    Ok((content, n3)) => Ok((PiView { span, target, content }, n1 + n2 + n3)),
                },
            },
        }
    }

    /// True when the binary form can hold the node in this mode: with a
    /// source, every span lies in it; without one, every text has a length
    /// that a count can hold; and so has every sequence.
    pub open spec fn storable(self, mode: Option<Seq<u8>>) -> bool {
        self.span.storable(mode) && self.target.storable(mode) && opt_storable(self.content, mode)
    }
}

/// A processing instruction: `<?target content?>`.
#[derive(Debug, Clone, PartialEq)]
pub struct ProcessingInstructionNode<'src> {
    pub(crate) span: StrSpan<'src>,
    pub(crate) target: StrSpan<'src>,
    pub(crate) content: Option<StrSpan<'src>>,
}

impl<'src> View for ProcessingInstructionNode<'src> {
    type V = PiView;

    open(crate) spec fn view(&self) -> PiView {
        PiView { span: self.span@, target: self.target@, content: opt_view(self.content) }
    }
}

impl<'src> ProcessingInstructionNode<'src> {
    /// A processing instruction of the span it covers, its target and its
    /// content.
    pub fn new(span: StrSpan<'src>, target: StrSpan<'src>, content: Option<StrSpan<'src>>) -> (r:
        Self)
        ensures
            r@ == (PiView { span: span@, target: target@, content: opt_view(content) }),
    {
        ProcessingInstructionNode { span, target, content }
    }

    /// The span of the node in the source.
    #[must_use]
    pub fn span(&self) -> (r: &StrSpan<'src>)
        ensures
            r@ == self@.span,
    {
        &self.span
    }

    /// The target that the instruction addresses.
    #[must_use]
    pub fn target(&self) -> (r: &StrSpan<'src>)
        ensures
            r@ == self@.target,
    {
        &self.target
    }

    /// What follows the target, if anything.
    #[must_use]
    pub fn content(&self) -> (r: Option<&StrSpan<'src>>)
        ensures
            match r {
                Some(c) => self@.content == Some(c@),
                None => self@.content is None,
            },
    {
        self.content.as_ref()
    }

    /// An owned copy of the node, without offsets.
    #[must_use]
    pub fn to_owned(&self) -> (r: OwnedProcessingInstructionNode)
        ensures
            r@ == self@.detached(),
    {
        OwnedProcessingInstructionNode {
            target: self.target.text().to_owned(),
            content: opt_span_to_string(&self.content),
        }
    }

    /// A copy of the node.
    pub fn duplicate(&self) -> (r: Self)
        ensures
            r@ == self@,
    {
        ProcessingInstructionNode { span: self.span, target: self.target, content: self.content }
    }

    /// The node with every offset set to zero.
    pub fn stripped(&self) -> (r: Self)
        ensures
            r@ == self@.stripped(),
    {
        ProcessingInstructionNode {
            span: self.span.unplaced(),
            target: self.target.unplaced(),
            content: opt_span_unplaced(&self.content),
        }
    }

    /// Sets every offset of the node to zero and keeps the text.
    pub fn strip_metadata(&mut self)
        ensures
            final(self)@ == old(self)@.stripped(),
    {
        *self = self.stripped();
    }
}

impl<'src> ToBinHandler<'src> for ProcessingInstructionNode<'src> {
    type Model = PiView;

    open spec fn reserving(buf: Seq<u8>, pos: int, src: Option<Seq<u8>>) -> bool {
        false
    }

    open spec fn model(&self) -> PiView {
        self@
    }

    open spec fn encoding(m: PiView, header: bool) -> Seq<u8> {
        m.encoding(header)
    }

    open spec fn decoding(buf: Seq<u8>, pos: int, src: Option<Seq<u8>>) -> Decoded<PiView> {
        PiView::decoding(buf, pos, src)
    }

    fn write(&self, encoder: &mut Encoder) -> (r: std::io::Result<()>) {
        let _ = self.span.write(encoder);
        let _ = self.target.write(encoder);
        let _ = self.content.write(encoder);
        proof {
            assert(encoder@.bytes =~= old(encoder)@.bytes + self@.encoding(
                old(encoder)@.source_header,
            ));
        }
        Ok(())
    }

    fn read(decoder: &mut Decoder<'src>) -> (r: Result<Self, BinDecodeError>) {
        proof {
            reveal(PiView::decoding);
            reveal(opt_span_decoding);
        }
        let span = StrSpan::read(decoder)?;
        let target = StrSpan::read(decoder)?;
        let content = Option::<StrSpan<'src>>::read(decoder)?;
        Ok(ProcessingInstructionNode { span, target, content })
    }
}

/// An owned processing instruction, without offsets.
#[derive(Debug, Clone, PartialEq)]
pub struct OwnedProcessingInstructionNode {
    /// The target that the instruction addresses.
    pub target: String,
    /// What follows the target, if anything.
    pub content: Option<String>,
}

impl View for OwnedProcessingInstructionNode {
    type V = PiView;

    open spec fn view(&self) -> PiView {
        PiView {
            span: SpanView::empty(),
            target: owned_span(self.target@),
            content: owned_opt_span(self.content),
        }
    }
}

impl OwnedProcessingInstructionNode {
    /// A processing instruction of a target and its content.
    #[must_use]
    pub fn new(target: String, content: Option<String>) -> (r: Self)
        ensures
            r@ == (PiView {
                span: SpanView::empty(),
                target: owned_span(target@),
                content: owned_opt_span(content),
            }),
    {
        OwnedProcessingInstructionNode { target, content }
    }

    /// A copy of the node.
    pub fn duplicate(&self) -> (r: Self)
        ensures
            r@ == self@,
    {
        let content = match &self.content {
            Some(c) => Some(c.clone()),
            None => None,
        };
        OwnedProcessingInstructionNode { target: self.target.clone(), content }
    }

    /// The node as spans over the owned strings, at offset zero.
    pub fn borrowed(&self) -> (r: ProcessingInstructionNode<'_>)
        ensures
            r@ == self@,
    {
        ProcessingInstructionNode {
            span: StrSpan::empty(),
            target: StrSpan::from_str(self.target.as_str()),
            content: opt_string_to_span(&self.content),
        }
    }
}

/// An owned value is written as the spans over its strings are, and read
/// as an owned copy of what the stream holds.
impl<'src> ToBinHandler<'src> for OwnedProcessingInstructionNode {
    type Model = PiView;

    open spec fn reserving(buf: Seq<u8>, pos: int, src: Option<Seq<u8>>) -> bool {
        false
    }

    open spec fn model(&self) -> PiView {
        self@
    }

    open spec fn encoding(m: PiView, header: bool) -> Seq<u8> {
        m.encoding(header)
    }

    open spec fn decoding(buf: Seq<u8>, pos: int, src: Option<Seq<u8>>) -> Decoded<PiView> {
        match PiView::decoding(buf, pos, src) {
            Ok((m, used)) => Ok((m.detached(), used)),
            Err(e) => Err(e),
        }
    }

    fn write(&self, encoder: &mut Encoder) -> (r: std::io::Result<()>) {
        self.borrowed().write(encoder)
    }

    fn read(decoder: &mut Decoder<'src>) -> (r: Result<Self, BinDecodeError>) {
        match ProcessingInstructionNode::read(decoder) {
            Ok(node) => Ok(node.to_owned()),
            Err(e) => Err(e),
        }
    }
}

} // verus!
