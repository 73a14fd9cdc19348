//! The kinds of node that a document holds.
use vstd::prelude::*;
use vstd::string::*;
use crate::node::cdata::{CdataNode, CdataView, OwnedCdataNode};
use crate::node::dtd::{DtdNode, DtdView, OwnedDtdNode};
use crate::node::pi::{OwnedProcessingInstructionNode, PiView, ProcessingInstructionNode};
use crate::node::tag::{owned_tag_view, tag_view, OwnedTagNode, TagNode, TagView};
use crate::node::text::{OwnedTextNode, TextNode, TextView};
use crate::strspan::{owned_span, SpanView, StrSpan};
use crate::to_bin::{
    byte_decoding, bytes_left, read_agrees, BinDecodeError, DecodeFailure, Decoded, Decoder,
    Encoder, ToBinHandler,
};

pub mod cdata;
pub mod dtd;
pub mod name;
pub mod pi;
pub mod tag;
pub mod text;

verus! {

/// What a node stands for.
pub enum NodeView {
    /// A tag.
    Child(TagView),
    /// A run of text.
    Text(TextView),
    /// A comment.
    Comment(SpanView),
    /// A processing instruction.
    ProcessingInstruction(PiView),
    /// A document type declaration.
    DocumentType(DtdView),
    /// A CDATA section.
    Cdata(CdataView),
}

impl NodeView {
    /// The node with every offset in it set to zero.
    pub open spec fn stripped(self) -> NodeView
        decreases self,
    {
        match self {
            NodeView::Child(t) => NodeView::Child(t.stripped()),
            NodeView::Text(t) => NodeView::Text(t.stripped()),
            NodeView::Comment(s) => NodeView::Comment(s.unplaced()),
            NodeView::ProcessingInstruction(p) => NodeView::ProcessingInstruction(p.stripped()),
            NodeView::DocumentType(d) => NodeView::DocumentType(d.stripped()),
            NodeView::Cdata(c) => NodeView::Cdata(c.stripped()),
        }
    }

    /// The node as an owned copy holds it: without the spans that nodes
    /// cover and without offsets.
    pub open spec fn detached(self) -> NodeView
        decreases self,
    {
        match self {
            NodeView::Child(t) => NodeView::Child(t.detached()),
            NodeView::Text(t) => NodeView::Text(t.detached()),
            NodeView::Comment(s) => NodeView::Comment(s.unplaced()),
            NodeView::ProcessingInstruction(p) => NodeView::ProcessingInstruction(p.detached()),
            NodeView::DocumentType(d) => NodeView::DocumentType(d.detached()),
            NodeView::Cdata(c) => NodeView::Cdata(c.detached()),
        }
    }

    /// The bytes that stand for the node: one byte for its kind and what
    /// it holds. The kinds are zero for a tag, one for text, two for a
    /// comment, three for a processing instruction, four for a document
    /// type declaration and five for a CDATA section.
    pub open spec fn encoding(self, header: bool) -> Seq<u8>
        decreases self, 0nat,
    {
        match self {
            NodeView::Child(t) => seq![0u8] + t.encoding(header),
            NodeView::Text(t) => seq![1u8] + t.encoding(header),
            NodeView::Comment(s) => seq![2u8] + s.encoding(header),
            NodeView::ProcessingInstruction(p) => seq![3u8] + p.encoding(header),
            NodeView::DocumentType(d) => seq![4u8] + d.encoding(header),
            NodeView::Cdata(c) => seq![5u8] + c.encoding(header),
        }
    }

    /// True when a read of the node that `buf` holds at `pos` comes to
    /// reserve memory: the node is a tag or a document type declaration,
    /// and the read of that does. The other kinds hold no sequence.
    pub open spec fn reserving(buf: Seq<u8>, pos: int, src: Option<Seq<u8>>) -> bool {
        match byte_decoding(buf, pos) {
            Err(_) => false,
            Ok((kind, _)) => if kind == 0 {
                TagView::reserving(buf, pos + 1, src)
            } else if kind == 4 {
                DtdView::reserving(buf, pos + 1, src)
            } else {
                false
            },
        }
    }

    /// The node that `buf` holds at `pos`.
    pub open spec fn decoding(buf: Seq<u8>, pos: int, src: Option<Seq<u8>>) -> Decoded<NodeView>
        decreases bytes_left(buf, pos), 0nat,
    {
        match byte_decoding(buf, pos) {
            Err(e) => Err(e),
            Ok((kind, _)) => if kind == 0 {
                match TagView::decoding(buf, pos + 1, src) {
                    Err(e) => Err(e),
                    Ok((t, n)) => Ok((NodeView::Child(t), 1 + n)),
                }
            } else if kind == 1 {
                match TextView::decoding(buf, pos + 1, src) {
                    Err(e) => Err(e),
                    Ok((t, n)) => Ok((NodeView::Text(t), 1 + n)),
                }
            } else if kind == 2 {
                match SpanView::decoding(buf, pos + 1, src) {
                    Err(e) => Err(e),
                    Ok((s, n)) => Ok((NodeView::Comment(s), 1 + n)),
                }
            } else if kind == 3 {
                match PiView::decoding(buf, pos + 1, src) {
                    Err(e) => Err(e),
                    Ok((p, n)) => Ok((NodeView::ProcessingInstruction(p), 1 + n)),
                }
            } else if kind == 4 {
                match DtdView::decoding(buf, pos + 1, src) {
                    Err(e) => Err(e),
                    Ok((d, n)) => Ok((NodeView::DocumentType(d), 1 + n)),
                }
            } else if kind == 5 {
                match CdataView::decoding(buf, pos + 1, src) {
                    Err(e) => Err(e),
                    Ok((c, n)) => Ok((NodeView::Cdata(c), 1 + n)),
                }
            } else {
                Err(DecodeFailure::InvalidEnumVariant)
            },
        }
    }

    /// True when the binary form can hold the node in this mode: with a
    /// source, every span lies in it; without one, every text has a length
    /// that a count can hold; and so has every sequence.
    pub open spec fn storable(self, mode: Option<Seq<u8>>) -> bool
        decreases self,
    {
        match self {
            NodeView::Child(t) => t.storable(mode),
            NodeView::Text(t) => t.storable(mode),
            NodeView::Comment(s) => s.storable(mode),
            NodeView::ProcessingInstruction(p) => p.storable(mode),
            NodeView::DocumentType(d) => d.storable(mode),
            NodeView::Cdata(c) => c.storable(mode),
        }
    }
}

/// The bytes that stand for the first `n` of some nodes, one behind the
/// other.
pub open spec fn nodes_encoding(nodes: Seq<NodeView>, n: nat, header: bool) -> Seq<u8>
    decreases nodes, n,
{
    if n == 0 || n > nodes.len() {
        Seq::empty()
    } else {
        nodes_encoding(nodes, (n - 1) as nat, header) + nodes[n - 1].encoding(header)
    }
}

/// The `count` nodes that `buf` holds from `pos` on, one behind the other.
pub open spec fn nodes_decoding(
    buf: Seq<u8>,
    pos: int,
    count: nat,
    src: Option<Seq<u8>>,
) -> Decoded<Seq<NodeView>>
    decreases bytes_left(buf, pos), count,
{
    if count == 0 {
        Ok((Seq::empty(), 0))
    } else {
        match nodes_decoding(buf, pos, (count - 1) as nat, src) {
            Err(e) => Err(e),
            Ok((items, used)) => match NodeView::decoding(buf, pos + used, src) {
                Err(e) => Err(e),
                Ok((m, more)) => Ok((items.push(m), used + more)),
            },
        }
    }
}

/// Where the first nodes fail to decode, so do more of them, in the same
/// way.
pub proof fn lemma_nodes_failure_stays(
    buf: Seq<u8>,
    pos: int,
    few: nat,
    many: nat,
    src: Option<Seq<u8>>,
)
    requires
        few <= many,
        nodes_decoding(buf, pos, few, src) is Err,
    ensures
        nodes_decoding(buf, pos, many, src) == nodes_decoding(buf, pos, few, src),
    decreases many,
{
    if few < many {
        lemma_nodes_failure_stays(buf, pos, few, (many - 1) as nat, src);
    }
}

/// What a sequence of borrowed nodes stands for.
pub open spec fn nodes_view(nodes: Seq<Node<'_>>) -> Seq<NodeView> {
    Seq::new(nodes.len(), |i: int| nodes[i]@)
}

/// What a sequence of owned nodes stands for.
pub open spec fn owned_nodes_view(nodes: Seq<OwnedNode>) -> Seq<NodeView> {
    Seq::new(nodes.len(), |i: int| nodes[i]@)
}

/// What a borrowed node stands for.
pub open spec fn node_view(node: &Node<'_>) -> NodeView
    decreases node,
{
    match node {
        Node::Child(t) => NodeView::Child(tag_view(t)),
        Node::Text(t) => NodeView::Text(t@),
        Node::Comment(s) => NodeView::Comment(s@),
        Node::ProcessingInstruction(p) => NodeView::ProcessingInstruction(p@),
        Node::DocumentType(d) => NodeView::DocumentType(d@),
        Node::Cdata(c) => NodeView::Cdata(c@),
    }
}

/// What an owned node stands for.
pub open spec fn owned_node_view(node: &OwnedNode) -> NodeView
    decreases node,
{
    match node {
        OwnedNode::Tag(t) => NodeView::Child(owned_tag_view(t)),
        OwnedNode::Text(t) => NodeView::Text(t@),
        OwnedNode::Comment(s) => NodeView::Comment(owned_span(s@)),
        OwnedNode::ProcessingInstruction(p) => NodeView::ProcessingInstruction(p@),
        OwnedNode::DocumentType(d) => NodeView::DocumentType(d@),
        OwnedNode::Cdata(c) => NodeView::Cdata(c@),
    }
}

/// A node of the document tree.
///
/// What stands before and after the root of a document can be any of
/// these but a tag.
#[derive(Debug, PartialEq)]
pub enum Node<'src> {
    /// A tag.
    Child(TagNode<'src>),
    /// A run of text.
    Text(TextNode<'src>),
    /// A comment.
    Comment(StrSpan<'src>),
    /// A processing instruction.
    ProcessingInstruction(ProcessingInstructionNode<'src>),
    /// A document type declaration.
    DocumentType(DtdNode<'src>),
    /// A CDATA section.
    Cdata(CdataNode<'src>),
}

impl<'src> View for Node<'src> {
    type V = NodeView;

    open spec fn view(&self) -> NodeView {
        node_view(self)
    }
}

impl<'src> Node<'src> {
    /// An owned copy of the node and all below it, without offsets.
    #[must_use]
    pub fn to_owned(&self) -> (r: OwnedNode)
        ensures
            r@ == self@.detached(),
        decreases self,
    {
        match self {
            Node::Child(node) => OwnedNode::Tag(node.to_owned()),
            Node::Text(node) => OwnedNode::Text(node.to_owned()),
            Node::Comment(span) => OwnedNode::Comment(span.text().to_owned()),
            Node::ProcessingInstruction(node) => OwnedNode::ProcessingInstruction(node.to_owned()),
            Node::DocumentType(node) => OwnedNode::DocumentType(node.to_owned()),
            Node::Cdata(node) => OwnedNode::Cdata(node.to_owned()),
        }
    }

    /// Writes the node and all below it to the encoder.
    pub fn encode(&self, encoder: &mut Encoder)
        ensures
            final(encoder)@ == old(encoder)@.with(self@.encoding(old(encoder)@.source_header)),
        decreases self,
    {
        match self {
            Node::Child(node) => {
                encoder.write_byte(0);
                node.encode(encoder);
            },
            Node::Text(node) => {
                encoder.write_byte(1);
                let _ = node.write(encoder);
            },
            Node::Comment(span) => {
                encoder.write_byte(2);
                let _ = span.write(encoder);
            },
            Node::ProcessingInstruction(node) => {
                encoder.write_byte(3);
                let _ = node.write(encoder);
            },
            Node::DocumentType(node) => {
                encoder.write_byte(4);
                let _ = node.write(encoder);
            },
            Node::Cdata(node) => {
                encoder.write_byte(5);
                let _ = node.write(encoder);
            },
        }
        proof {
            assert(encoder@.bytes =~= old(encoder)@.bytes + self@.encoding(
                old(encoder)@.source_header,
            ));
        }
    }

    /// Reads a node and all below it from the decoder.
    ///
    /// # Errors
    /// The failure that `NodeView::decoding` names: `UnexpectedEof` where
    /// no byte is left, `InvalidEnumVariant` where the first byte is above
    /// five, and what the read of the kind's content yields. Only a tag or
    /// a document type declaration can end in the error of a reservation
    /// that was refused, and only where `NodeView::reserving` holds.
    pub fn decode(decoder: &mut Decoder<'src>) -> (r: Result<Self, BinDecodeError>)
        ensures
            final(decoder)@.bytes == old(decoder)@.bytes,
            final(decoder)@.source == old(decoder)@.source,
            read_agrees(
                NodeView::decoding(
                    old(decoder)@.bytes,
                    old(decoder)@.cursor as int,
                    old(decoder)@.source,
                ),
                match r {
                    Ok(v) => Ok(v@),
                    Err(e) => Err(e),
                },
                final(decoder)@.cursor - old(decoder)@.cursor,
                NodeView::reserving(
                    old(decoder)@.bytes,
                    old(decoder)@.cursor as int,
                    old(decoder)@.source,
                ),
            ),
            old(decoder)@.cursor >= old(decoder)@.bytes.len() ==> r matches Err(
                BinDecodeError::UnexpectedEof,
            ),
            old(decoder)@.cursor < old(decoder)@.bytes.len() && old(decoder)@.bytes[old(
                decoder,
            )@.cursor as int] > 5 ==> r matches Err(BinDecodeError::InvalidEnumVariant),
            old(decoder)@.cursor < old(decoder)@.bytes.len() && old(decoder)@.bytes[old(
                decoder,
            )@.cursor as int] != 0 && old(decoder)@.bytes[old(decoder)@.cursor as int] != 4 ==> (r
                matches Err(e) ==> e.failure() is Some),
        decreases old(decoder)@.remaining(), 0nat,
    {
        let kind = decoder.read()?;
        if kind == 0 {
            // The cursor is read so that the verifier knows it to lie within the
            // bytes.
            let _ = decoder.cursor();
            match TagNode::decode(decoder) {
                Ok(t) => Ok(Node::Child(t)),
                Err(e) => Err(e),
            }
        } else if kind == 1 {
            match TextNode::read(decoder) {
                Ok(t) => Ok(Node::Text(t)),
                Err(e) => Err(e),
            }
        } else if kind == 2 {
            match StrSpan::read(decoder) {
                Ok(s) => Ok(Node::Comment(s)),
                Err(e) => Err(e),
            }
        } else if kind == 3 {
            match ProcessingInstructionNode::read(decoder) {
                Ok(p) => Ok(Node::ProcessingInstruction(p)),
                Err(e) => Err(e),
            }
        } else if kind == 4 {
            match DtdNode::read(decoder) {
                Ok(d) => Ok(Node::DocumentType(d)),
                Err(e) => Err(e),
            }
        } else if kind == 5 {
            match CdataNode::read(decoder) {
                Ok(c) => Ok(Node::Cdata(c)),
                Err(e) => Err(e),
            }
        } else {
            Err(BinDecodeError::InvalidEnumVariant)
        }
    }

    /// A copy of the node and all below it.
    pub fn duplicate(&self) -> (r: Self)
        ensures
            r@ == self@,
        decreases self,
    {
        match self {
            Node::Child(node) => Node::Child(node.duplicate()),
            Node::Text(node) => Node::Text(node.duplicate()),
            Node::Comment(span) => Node::Comment(*span),
            Node::ProcessingInstruction(node) => Node::ProcessingInstruction(node.duplicate()),
            Node::DocumentType(node) => Node::DocumentType(node.duplicate()),
            Node::Cdata(node) => Node::Cdata(node.duplicate()),
        }
    }

    /// The node with every offset in it set to zero.
    pub fn stripped(&self) -> (r: Self)
        ensures
            r@ == self@.stripped(),
        decreases self,
    {
        match self {
            Node::Child(node) => Node::Child(node.stripped()),
            Node::Text(node) => Node::Text(node.stripped()),
            Node::Comment(span) => Node::Comment(span.unplaced()),
            Node::ProcessingInstruction(node) => Node::ProcessingInstruction(node.stripped()),
            Node::DocumentType(node) => Node::DocumentType(node.stripped()),
            Node::Cdata(node) => Node::Cdata(node.stripped()),
        }
    }

    /// Sets every offset in the node to zero and keeps the text.
    pub fn strip_metadata(&mut self)
        ensures
            final(self)@ == old(self)@.stripped(),
    {
        *self = self.stripped();
    }

    /// Whether the node is a tag.
    pub fn is_tag(&self) -> (r: bool)
        ensures
            r == (self@ is Child),
    {
        match self {
            Node::Child(_) => true,
            _ => false,
        }
    }
}

impl<'src> ToBinHandler<'src> for Node<'src> {
    type Model = NodeView;

    open spec fn reserving(buf: Seq<u8>, pos: int, src: Option<Seq<u8>>) -> bool {
        NodeView::reserving(buf, pos, src)
    }

    open spec fn model(&self) -> NodeView {
        self@
    }

    open spec fn encoding(m: NodeView, header: bool) -> Seq<u8> {
        m.encoding(header)
    }

    open spec fn decoding(buf: Seq<u8>, pos: int, src: Option<Seq<u8>>) -> Decoded<NodeView> {
        NodeView::decoding(buf, pos, src)
    }

    fn write(&self, encoder: &mut Encoder) -> (r: std::io::Result<()>) {
        self.encode(encoder);
        Ok(())
    }

    fn read(decoder: &mut Decoder<'src>) -> (r: Result<Self, BinDecodeError>)
        ensures
            old(decoder)@.cursor >= old(decoder)@.bytes.len() ==> r matches Err(
                BinDecodeError::UnexpectedEof,
            ),
            old(decoder)@.cursor < old(decoder)@.bytes.len() && old(decoder)@.bytes[old(
                decoder,
            )@.cursor as int] > 5 ==> r matches Err(BinDecodeError::InvalidEnumVariant),
            old(decoder)@.cursor < old(decoder)@.bytes.len() && old(decoder)@.bytes[old(
                decoder,
            )@.cursor as int] != 0 && old(decoder)@.bytes[old(decoder)@.cursor as int] != 4 ==> (r
                matches Err(e) ==> e.failure() is Some),
    {
        Node::decode(decoder)
    }
}

impl<'src> Clone for Node<'src> {
    fn clone(&self) -> (r: Self)
        ensures
            r@ == self@,
    {
        self.duplicate()
    }
}

/// An owned node of the document tree, without offsets.
#[derive(Debug, PartialEq)]
pub enum OwnedNode {
    /// A tag.
    Tag(OwnedTagNode),
    /// A run of text.
    Text(OwnedTextNode),
    /// A comment.
    Comment(String),
    /// A processing instruction.
    ProcessingInstruction(OwnedProcessingInstructionNode),
    /// A document type declaration.
    DocumentType(OwnedDtdNode),
    /// A CDATA section.
    Cdata(OwnedCdataNode),
}

impl View for OwnedNode {
    type V = NodeView;

    open spec fn view(&self) -> NodeView {
        owned_node_view(self)
    }
}

impl OwnedNode {
    /// A copy of the node and all below it.
    pub fn duplicate(&self) -> (r: Self)
        ensures
            r@ == self@,
        decreases self,
    {
        match self {
            OwnedNode::Tag(node) => OwnedNode::Tag(node.duplicate()),
            OwnedNode::Text(node) => OwnedNode::Text(node.duplicate()),
            OwnedNode::Comment(text) => OwnedNode::Comment(text.clone()),
            OwnedNode::ProcessingInstruction(node) => OwnedNode::ProcessingInstruction(
                node.duplicate(),
            ),
            OwnedNode::DocumentType(node) => OwnedNode::DocumentType(node.duplicate()),
            OwnedNode::Cdata(node) => OwnedNode::Cdata(node.duplicate()),
        }
    }

    /// The node as spans over the owned strings, at offset zero.
    pub fn borrowed(&self) -> (r: Node<'_>)
        ensures
            r@ == self@,
        decreases self,
    {
        match self {
            OwnedNode::Tag(node) => Node::Child(node.borrowed()),
            OwnedNode::Text(node) => Node::Text(node.borrowed()),
            OwnedNode::Comment(text) => Node::Comment(StrSpan::from_str(text.as_str())),
            OwnedNode::ProcessingInstruction(node) => Node::ProcessingInstruction(node.borrowed()),
            OwnedNode::DocumentType(node) => Node::DocumentType(node.borrowed()),
            OwnedNode::Cdata(node) => Node::Cdata(node.borrowed()),
        }
    }
}

impl Clone for OwnedNode {
    fn clone(&self) -> (r: Self)
        ensures
            r@ == self@,
    {
        self.duplicate()
    }
}

/// An owned value is written as the spans over its strings are, and read
/// as an owned copy of what the stream holds.
impl<'src> ToBinHandler<'src> for OwnedNode {
    type Model = NodeView;

    open spec fn reserving(buf: Seq<u8>, pos: int, src: Option<Seq<u8>>) -> bool {
        NodeView::reserving(buf, pos, src)
    }

    open spec fn model(&self) -> NodeView {
        self@
    }

    open spec fn encoding(m: NodeView, header: bool) -> Seq<u8> {
        m.encoding(header)
    }

    open spec fn decoding(buf: Seq<u8>, pos: int, src: Option<Seq<u8>>) -> Decoded<NodeView> {
        match NodeView::decoding(buf, pos, src) {
            Ok((m, used)) => Ok((m.detached(), used)),
            Err(e) => Err(e),
        }
    }

    fn write(&self, encoder: &mut Encoder) -> (r: std::io::Result<()>) {
        self.borrowed().encode(encoder);
        Ok(())
    }

    fn read(decoder: &mut Decoder<'src>) -> (r: Result<Self, BinDecodeError>) {
        match Node::decode(decoder) {
            Ok(node) => Ok(node.to_owned()),
            Err(e) => Err(e),
        }
    }
}

} // verus!
