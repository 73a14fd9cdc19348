//! Text nodes.
use vstd::prelude::*;
use vstd::string::*;
use crate::strspan::{owned_span, SpanView, StrSpan};
use crate::to_bin::{BinDecodeError, Decoded, Decoder, Encoder, ToBinHandler};

verus! {

/// What a text node stands for.
pub struct TextView {
    /// The text as it stands in the source.
    pub span: SpanView,
    /// The text without the white space around it.
    pub text: SpanView,
}

impl TextView {
    /// The node with every offset set to zero.
    pub open spec fn stripped(self) -> TextView {
        TextView { span: self.span.unplaced(), text: self.text.unplaced() }
    }

    /// The node as an owned copy holds it: the text alone, without offsets.
    pub open spec fn detached(self) -> TextView {
        TextView { span: SpanView::empty(), text: self.text.unplaced() }
    }

    /// The bytes that stand for the node: its two spans.
    pub open spec fn encoding(self, header: bool) -> Seq<u8> {
        self.span.encoding(header) + self.text.encoding(header)
    }

    /// The node that `buf` holds at `pos`.
    #[verifier::opaque]
    pub open spec fn decoding(buf: Seq<u8>, pos: int, src: Option<Seq<u8>>) -> Decoded<TextView> {
        match SpanView::decoding(buf, pos, src) {
            Err(e) => Err(e),
            Ok((span, n1)) => match SpanView::decoding(buf, pos + n1, src) {
                Err(e) => Err(e),
                Ok((text, n2)) => Ok((TextView { span, text }, n1 + n2)),
            },
        }
    }

    /// True when the binary form can hold the node in this mode: with a
    /// source, every span lies in it; without one, every text has a length
    /// that a count can hold; and so has every sequence.
    pub open spec fn storable(self, mode: Option<Seq<u8>>) -> bool {
        self.span.storable(mode) && self.text.storable(mode)
    }
}

/// A run of text inside a tag.
#[derive(Debug, Clone, PartialEq)]
pub struct TextNode<'src> {
    pub(crate) span: StrSpan<'src>,
    pub(crate) text: StrSpan<'src>,
}

impl<'src> View for TextNode<'src> {
    type V = TextView;

    open(crate) spec fn view(&self) -> TextView {
        TextView { span: self.span@, text: self.text@ }
    }
}

impl<'src> TextNode<'src> {
    /// A text node of the span it covers and its trimmed text.
    pub fn new(span: StrSpan<'src>, text: StrSpan<'src>) -> (r: Self)
        ensures
            r@ == (TextView { span: span@, text: text@ }),
    {
        TextNode { span, text }
    }

    /// The span of the node in the source.
    #[must_use]
    pub fn span(&self) -> (r: &StrSpan<'src>)
        ensures
            r@ == self@.span,
    {
        &self.span
    }

    /// The text of the node, without the white space around it.
    #[must_use]
    pub fn text(&self) -> (r: &StrSpan<'src>)
        ensures
            r@ == self@.text,
    {
        &self.text
    }

    /// An owned copy of the node, without offsets.
    #[must_use]
    pub fn to_owned(&self) -> (r: OwnedTextNode)
        ensures
            r@ == self@.detached(),
    {
        OwnedTextNode { text: self.text.text().to_owned() }
    }

    /// A copy of the node.
    pub fn duplicate(&self) -> (r: Self)
        ensures
            r@ == self@,
    {
        TextNode { span: self.span, text: self.text }
    }

    /// The node with every offset set to zero.
    pub fn stripped(&self) -> (r: Self)
        ensures
            r@ == self@.stripped(),
    {
        TextNode { span: self.span.unplaced(), text: self.text.unplaced() }
    }

    /// Sets every offset of the node to zero and keeps the text.
    pub fn strip_metadata(&mut self)
        ensures
            final(self)@ == old(self)@.stripped(),
    {
        *self = self.stripped();
    }
}

impl<'src> ToBinHandler<'src> for TextNode<'src> {
    type Model = TextView;

    open spec fn reserving(buf: Seq<u8>, pos: int, src: Option<Seq<u8>>) -> bool {
        false
    }

    open spec fn model(&self) -> TextView {
        self@
    }

    open spec fn encoding(m: TextView, header: bool) -> Seq<u8> {
        m.encoding(header)
    }

    open spec fn decoding(buf: Seq<u8>, pos: int, src: Option<Seq<u8>>) -> Decoded<TextView> {
        TextView::decoding(buf, pos, src)
    }

    fn write(&self, encoder: &mut Encoder) -> (r: std::io::Result<()>) {
        let _ = self.span.write(encoder);
        let _ = self.text.write(encoder);
        proof {
            assert(encoder@.bytes =~= old(encoder)@.bytes + self@.encoding(
                old(encoder)@.source_header,
            ));
        }
        Ok(())
    }

    fn read(decoder: &mut Decoder<'src>) -> (r: Result<Self, BinDecodeError>) {
        proof {
            reveal(TextView::decoding);
        }
        let span = StrSpan::read(decoder)?;
        let text = StrSpan::read(decoder)?;
        Ok(TextNode { span, text })
    }
}

/// An owned text node, without offsets.
#[derive(Debug, Clone, PartialEq)]
pub struct OwnedTextNode {
    /// The text of the node.
    pub text: String,
}

impl View for OwnedTextNode {
    type V = TextView;

    open spec fn view(&self) -> TextView {
        TextView { span: SpanView::empty(), text: owned_span(self.text@) }
    }
}

impl OwnedTextNode {
    /// A text node that holds `text`.
    pub fn new(text: &str) -> (r: Self)
        ensures
            r@ == (TextView { span: SpanView::empty(), text: owned_span(text@) }),
    {
        OwnedTextNode { text: text.to_owned() }
    }

    /// A copy of the node.
    pub fn duplicate(&self) -> (r: Self)
        ensures
            r@ == self@,
    {
        OwnedTextNode { text: self.text.clone() }
    }

    /// The node as spans over the owned strings, at offset zero.
    pub fn borrowed(&self) -> (r: TextNode<'_>)
        ensures
            r@ == self@,
    {
        TextNode { span: StrSpan::empty(), text: StrSpan::from_str(self.text.as_str()) }
    }
}

/// An owned value is written as the spans over its strings are, and read
/// as an owned copy of what the stream holds.
impl<'src> ToBinHandler<'src> for OwnedTextNode {
    type Model = TextView;

    open spec fn reserving(buf: Seq<u8>, pos: int, src: Option<Seq<u8>>) -> bool {
        false
    }

    open spec fn model(&self) -> TextView {
        self@
    }

    open spec fn encoding(m: TextView, header: bool) -> Seq<u8> {
        m.encoding(header)
    }

    open spec fn decoding(buf: Seq<u8>, pos: int, src: Option<Seq<u8>>) -> Decoded<TextView> {
        match TextView::decoding(buf, pos, src) {
            Ok((m, used)) => Ok((m.detached(), used)),
            Err(e) => Err(e),
        }
    }

    fn write(&self, encoder: &mut Encoder) -> (r: std::io::Result<()>) {
        self.borrowed().write(encoder)
    }

    fn read(decoder: &mut Decoder<'src>) -> (r: Result<Self, BinDecodeError>) {
        match TextNode::read(decoder) {
            Ok(node) => Ok(node.to_owned()),
            Err(e) => Err(e),
        }
    }
}

} // verus!
