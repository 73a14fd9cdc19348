//! Documents: the declaration, what stands before the root, the root, and
//! what stands after it.
use vstd::prelude::*;
use vstd::string::*;
use vstd::utf8::*;
use crate::node::tag::{OwnedTagNode, TagNode, TagView};
use crate::node::{
    lemma_nodes_failure_stays, nodes_decoding, nodes_encoding, nodes_view, owned_nodes_view,
    Node, NodeView, OwnedNode,
};
use crate::strspan::{
    opt_span_decoding, opt_span_encoding, opt_span_to_string, opt_span_unplaced,
    opt_storable, opt_string_to_span, opt_unplaced, opt_view, owned_opt_span, owned_span,
    SpanView, StrSpan,
};
use crate::to_bin::{
    byte_decoding, count_decoding, count_encoding, count_reserves, read_agrees, text_decoding,
    text_encoding,
    write_text, BinDecodeError, DecodeFailure, Decoded, Decoder, Encoder,
    EncoderView, ToBinHandler,
};

verus! {

/// What an XML declaration stands for.
pub struct DeclarationView {
    /// The whole declaration as it stands in the source.
    pub span: SpanView,
    /// The version.
    pub version: SpanView,
    /// The encoding, if one is named.
    pub encoding: Option<SpanView>,
    /// Whether the document stands alone, if the declaration says so.
    pub standalone: Option<bool>,
}

/// The bytes that stand for an optional flag: one byte, zero for none, and
/// one byte for the flag if there is one.
pub open spec fn opt_flag_encoding(flag: Option<bool>) -> Seq<u8> {
    match flag {
        Some(b) => seq![1u8, if b { 1u8 } else { 0u8 }],
        None => seq![0u8],
    }
}

/// The optional flag that `buf` holds at `pos`.
#[verifier::opaque]
pub open spec fn opt_flag_decoding(buf: Seq<u8>, pos: int) -> Decoded<Option<bool>> {
    match byte_decoding(buf, pos) {
        Err(e) => Err(e),
        Ok((present, _)) => if present != 0 {
            match byte_decoding(buf, pos + 1) {
                Err(e) => Err(e),
                Ok((b, _)) => Ok((Some(b != 0), 2)),
            }
        } else {
            Ok((None, 1))
        },
    }
}

impl DeclarationView {
    /// The declaration with every offset set to zero.
    pub open spec fn stripped(self) -> DeclarationView {
        DeclarationView {
            span: self.span.unplaced(),
            version: self.version.unplaced(),
            encoding: opt_unplaced(self.encoding),
            standalone: self.standalone,
        }
    }

    /// The declaration as an owned copy holds it: without the span it
    /// covered and without offsets.
    pub open spec fn detached(self) -> DeclarationView {
        DeclarationView {
            span: SpanView::empty(),
            version: self.version.unplaced(),
            encoding: opt_unplaced(self.encoding),
            standalone: self.standalone,
        }
    }

    /// True when the binary form can hold the declaration in this mode:
    /// with a source, every span lies in it; without one, every text has a
    /// length that a count can hold.
    pub open spec fn storable(self, mode: Option<Seq<u8>>) -> bool {
        self.span.storable(mode) && self.version.storable(mode) && opt_storable(
            self.encoding,
            mode,
        )
    }

    /// The bytes that stand for the declaration: its span, its version, its
    /// optional encoding and its optional flag.
    pub open spec fn encoding(self, header: bool) -> Seq<u8> {
        self.span.encoding(header) + self.version.encoding(header) + opt_span_encoding(
            self.encoding,
            header,
        ) + opt_flag_encoding(self.standalone)
    }

    /// The declaration that `buf` holds at `pos`.
    #[verifier::opaque]
    pub open spec fn decoding(buf: Seq<u8>, pos: int, src: Option<Seq<u8>>) -> Decoded<
        DeclarationView,
    > {
        match SpanView::decoding(buf, pos, src) {
            Err(e) => Err(e),
            Ok((span, n1)) => match SpanView::decoding(buf, pos + n1, src) {
                Err(e) => Err(e),
                Ok((version, n2)) => match opt_span_decoding(buf, pos + n1 + n2, src) {
                    Err(e) => Err(e),
                    Ok((encoding, n3)) => match opt_flag_decoding(buf, pos + n1 + n2 + n3) {
                        Err(e) => Err(e),
                        Ok((standalone, n4)) => Ok(
                            (
                                DeclarationView { span, version, encoding, standalone },
                                n1 + n2 + n3 + n4,
                            ),
                        ),
                    },
                },
            },
        }
    }
}

/// The bytes that stand for an optional declaration: one byte, zero for
/// none, and the declaration if there is one.
pub open spec fn opt_declaration_encoding(d: Option<DeclarationView>, header: bool) -> Seq<u8> {
    match d {
        Some(v) => seq![1u8] + v.encoding(header),
        None => seq![0u8],
    }
}

/// The optional declaration that `buf` holds at `pos`.
#[verifier::opaque]
pub open spec fn opt_declaration_decoding(
    buf: Seq<u8>,
    pos: int,
    src: Option<Seq<u8>>,
) -> Decoded<Option<DeclarationView>> {
    match byte_decoding(buf, pos) {
        Err(e) => Err(e),
        Ok((flag, _)) => if flag != 0 {
            match DeclarationView::decoding(buf, pos + 1, src) {
                Err(e) => Err(e),
                Ok((v, used)) => Ok((Some(v), 1 + used)),
            }
        } else {
            Ok((None, 1))
        },
    }
}

/// The XML declaration: `<?xml version="1.0" ... ?>`.
#[derive(Debug, Clone, PartialEq)]
pub struct DeclarationNode<'src> {
    pub(crate) span: StrSpan<'src>,
    pub(crate) version: StrSpan<'src>,
    pub(crate) encoding: Option<StrSpan<'src>>,
    pub(crate) standalone: Option<bool>,
}

impl<'src> View for DeclarationNode<'src> {
    type V = DeclarationView;

    open(crate) spec fn view(&self) -> DeclarationView {
        DeclarationView {
            span: self.span@,
            version: self.version@,
            encoding: opt_view(self.encoding),
            standalone: self.standalone,
        }
    }
}

/// What an optional declaration stands for.
pub open spec fn opt_declaration_view(d: Option<DeclarationNode<'_>>) -> Option<DeclarationView> {
    match d {
        Some(v) => Some(v@),
        None => None,
    }
}

impl<'src> DeclarationNode<'src> {
    /// A declaration of a version, an encoding and a flag, without span.
    pub fn new(
        version: StrSpan<'src>,
        encoding: Option<StrSpan<'src>>,
        standalone: Option<bool>,
    ) -> (r: Self)
        ensures
            r@ == (DeclarationView {
                span: SpanView::empty(),
                version: version@,
                encoding: opt_view(encoding),
                standalone,
            }),
    {
        DeclarationNode { span: StrSpan::empty(), version, encoding, standalone }
    }

    /// The same declaration with `span` as its span.
    pub fn with_span(self, span: StrSpan<'src>) -> (r: Self)
        ensures
            r@ == (DeclarationView { span: span@, ..self@ }),
    {
        DeclarationNode {
            span,
            version: self.version,
            encoding: self.encoding,
            standalone: self.standalone,
        }
    }

    /// The span of the declaration in the source.
    #[must_use]
    pub fn span(&self) -> (r: &StrSpan<'src>)
        ensures
            r@ == self@.span,
    {
        &self.span
    }

    /// The version.
    #[must_use]
    pub fn version(&self) -> (r: &StrSpan<'src>)
        ensures
            r@ == self@.version,
    {
        &self.version
    }

    /// The encoding, if one is named.
    #[must_use]
    pub fn encoding(&self) -> (r: Option<&StrSpan<'src>>)
        ensures
            match r {
                Some(e) => self@.encoding == Some(e@),
                None => self@.encoding is None,
            },
    {
        self.encoding.as_ref()
    }

    /// Whether the document stands alone, if the declaration says so.
    #[must_use]
    pub fn standalone(&self) -> (r: Option<bool>)
        ensures
            r == self@.standalone,
    {
        self.standalone
    }

    /// An owned copy of the declaration, without offsets.
    pub fn to_owned(&self) -> (r: OwnedDeclarationNode)
        ensures
            r@ == self@.detached(),
    {
        OwnedDeclarationNode {
            version: self.version.text().to_owned(),
            encoding: opt_span_to_string(&self.encoding),
            standalone: self.standalone,
        }
    }

    /// A copy of the declaration.
    pub fn duplicate(&self) -> (r: Self)
        ensures
            r@ == self@,
    {
        DeclarationNode {
            span: self.span,
            version: self.version,
            encoding: self.encoding,
            standalone: self.standalone,
        }
    }

    /// The declaration with every offset set to zero.
    pub fn stripped(&self) -> (r: Self)
        ensures
            r@ == self@.stripped(),
    {
        DeclarationNode {
            span: self.span.unplaced(),
            version: self.version.unplaced(),
            encoding: opt_span_unplaced(&self.encoding),
            standalone: self.standalone,
        }
    }

    /// Sets every offset of the declaration to zero and keeps the text.
    pub fn strip_metadata(&mut self)
        ensures
            final(self)@ == old(self)@.stripped(),
    {
        *self = self.stripped();
    }
}

impl<'src> ToBinHandler<'src> for DeclarationNode<'src> {
    type Model = DeclarationView;

    open spec fn reserving(buf: Seq<u8>, pos: int, src: Option<Seq<u8>>) -> bool {
        false
    }

    open spec fn model(&self) -> DeclarationView {
        self@
    }

    open spec fn encoding(m: DeclarationView, header: bool) -> Seq<u8> {
        m.encoding(header)
    }

    open spec fn decoding(buf: Seq<u8>, pos: int, src: Option<Seq<u8>>) -> Decoded<
        DeclarationView,
    > {
        DeclarationView::decoding(buf, pos, src)
    }

    fn write(&self, encoder: &mut Encoder) -> (r: std::io::Result<()>) {
        let _ = self.span.write(encoder);
        let _ = self.version.write(encoder);
        let _ = self.encoding.write(encoder);
        let _ = self.standalone.write(encoder);
        proof {
            assert(encoder@.bytes =~= old(encoder)@.bytes + self@.encoding(
                old(encoder)@.source_header,
            ));
        }
        Ok(())
    }

    fn read(decoder: &mut Decoder<'src>) -> (r: Result<Self, BinDecodeError>) {
        proof {
            reveal(DeclarationView::decoding);
            reveal(opt_span_decoding);
            reveal(opt_flag_decoding);
        }
        let span = StrSpan::read(decoder)?;
        let version = StrSpan::read(decoder)?;
        let encoding = Option::<StrSpan<'src>>::read(decoder)?;
        let standalone = Option::<bool>::read(decoder)?;
        Ok(DeclarationNode { span, version, encoding, standalone })
    }
}

/// An owned XML declaration, without offsets.
#[derive(Debug, Clone, PartialEq)]
pub struct OwnedDeclarationNode {
    /// The version.
    pub version: String,
    /// The encoding, if one is named.
    pub encoding: Option<String>,
    /// Whether the document stands alone, if the declaration says so.
    pub standalone: Option<bool>,
}

impl View for OwnedDeclarationNode {
    type V = DeclarationView;

    open spec fn view(&self) -> DeclarationView {
        DeclarationView {
            span: SpanView::empty(),
            version: owned_span(self.version@),
            encoding: owned_opt_span(self.encoding),
            standalone: self.standalone,
        }
    }
}

/// What an optional owned declaration stands for.
pub open spec fn opt_owned_declaration_view(d: Option<OwnedDeclarationNode>) -> Option<
    DeclarationView,
> {
    match d {
        Some(v) => Some(v@),
        None => None,
    }
}

impl OwnedDeclarationNode {
    /// A declaration of a version, an encoding and a flag.
    pub fn new(version: &str, encoding: Option<&str>, standalone: Option<bool>) -> (r: Self)
        ensures
            r@ == (DeclarationView {
                span: SpanView::empty(),
                version: owned_span(version@),
                encoding: match encoding {
                    Some(e) => Some(owned_span(e@)),
                    None => None,
                },
                standalone,
            }),
    {
        let encoding = match encoding {
            Some(e) => Some(e.to_owned()),
            None => None,
        };
        OwnedDeclarationNode { version: version.to_owned(), encoding, standalone }
    }

    /// A copy of the declaration.
    pub fn duplicate(&self) -> (r: Self)
        ensures
            r@ == self@,
    {
        let encoding = match &self.encoding {
            Some(e) => Some(e.clone()),
            None => None,
        };
        OwnedDeclarationNode {
            version: self.version.clone(),
            encoding,
            standalone: self.standalone,
        }
    }

    /// The declaration as spans over the owned strings, at offset zero.
    pub fn borrowed(&self) -> (r: DeclarationNode<'_>)
        ensures
            r@ == self@,
    {
        DeclarationNode {
            span: StrSpan::empty(),
            version: StrSpan::from_str(self.version.as_str()),
            encoding: opt_string_to_span(&self.encoding),
            standalone: self.standalone,
        }
    }
}

/// The four bytes at the start of a stream that brings its source: `XML1`.
pub open spec fn header_sourced() -> Seq<u8> {
    seq![0x58u8, 0x4Du8, 0x4Cu8, 0x31u8]
}

/// The four bytes at the start of a stream without a source: `XML2`.
pub open spec fn header_unsourced() -> Seq<u8> {
    seq![0x58u8, 0x4Du8, 0x4Cu8, 0x32u8]
}

/// The bytes that stand for nodes behind their count.
pub open spec fn counted_nodes_encoding(nodes: Seq<NodeView>, header: bool) -> Seq<u8> {
    count_encoding(nodes.len() as usize) + nodes_encoding(nodes, nodes.len(), header)
}

/// The nodes that `buf` holds at `pos`, behind their count.
#[verifier::opaque]
pub open spec fn counted_nodes_decoding(buf: Seq<u8>, pos: int, src: Option<Seq<u8>>) -> Decoded<
    Seq<NodeView>,
> {
    match count_decoding(buf, pos) {
        Err(e) => Err(e),
        Ok((count, _)) => match nodes_decoding(buf, pos + 8, count as nat, src) {
            Err(e) => Err(e),
            Ok((items, used)) => Ok((items, 8 + used)),
        },
    }
}

/// What a document stands for.
pub struct DocumentView {
    /// The source that the spans are cut from, if the document has one.
    pub src: Option<Seq<char>>,
    /// The XML declaration, if there is one.
    pub declaration: Option<DeclarationView>,
    /// What stands between the declaration and the root.
    pub prolog: Seq<NodeView>,
    /// The root.
    pub root: TagView,
    /// What stands after the root.
    pub epilog: Seq<NodeView>,
}

/// An optional declaration with every offset set to zero.
pub open spec fn opt_declaration_stripped(d: Option<DeclarationView>) -> Option<DeclarationView> {
    match d {
        Some(v) => Some(v.stripped()),
        None => None,
    }
}

/// An optional declaration as an owned copy holds it.
pub open spec fn opt_declaration_detached(d: Option<DeclarationView>) -> Option<DeclarationView> {
    match d {
        Some(v) => Some(v.detached()),
        None => None,
    }
}

/// True when an optional declaration is absent or the binary form can hold
/// it in this mode.
pub open spec fn opt_declaration_storable(
    d: Option<DeclarationView>,
    mode: Option<Seq<u8>>,
) -> bool {
    match d {
        Some(v) => v.storable(mode),
        None => true,
    }
}

/// Nodes with every offset in them set to zero.
pub open spec fn nodes_stripped(nodes: Seq<NodeView>) -> Seq<NodeView> {
    Seq::new(nodes.len(), |i: int| nodes[i].stripped())
}

/// Nodes as owned copies hold them.
pub open spec fn nodes_detached(nodes: Seq<NodeView>) -> Seq<NodeView> {
    Seq::new(nodes.len(), |i: int| nodes[i].detached())
}

/// True when the binary form can hold every one of some nodes in this mode,
/// and their count.
pub open spec fn nodes_storable(nodes: Seq<NodeView>, mode: Option<Seq<u8>>) -> bool {
    &&& nodes.len() <= usize::MAX
    &&& forall|i: int| 0 <= i < nodes.len() ==> (#[trigger] nodes[i]).storable(mode)
}

/// The UTF-8 bytes of an optional text.
pub open spec fn opt_utf8(text: Option<Seq<char>>) -> Option<Seq<u8>> {
    match text {
        Some(t) => Some(encode_utf8(t)),
        None => None,
    }
}

impl DocumentView {
    /// The document without its source and with every offset in it set to
    /// zero.
    pub open spec fn stripped(self) -> DocumentView {
        DocumentView {
            src: None,
            declaration: opt_declaration_stripped(self.declaration),
            prolog: nodes_stripped(self.prolog),
            root: self.root.stripped(),
            epilog: nodes_stripped(self.epilog),
        }
    }

    /// The document as an owned copy holds it: without source, without the
    /// spans that nodes cover and without offsets.
    pub open spec fn detached(self) -> DocumentView {
        DocumentView {
            src: None,
            declaration: opt_declaration_detached(self.declaration),
            prolog: nodes_detached(self.prolog),
            root: self.root.detached(),
            epilog: nodes_detached(self.epilog),
        }
    }

    /// True when the binary form can hold the document as it is: with a
    /// source, every span lies in it; without one, every text has a length
    /// that a count can hold; and so has every sequence.
    pub open spec fn storable(self) -> bool {
        let mode = opt_utf8(self.src);
        &&& opt_declaration_storable(self.declaration, mode)
        &&& nodes_storable(self.prolog, mode)
        &&& self.root.storable(mode)
        &&& nodes_storable(self.epilog, mode)
    }

    /// True when nothing before or after the root is a tag.
    pub open spec fn single_rooted(self) -> bool {
        &&& forall|i: int| 0 <= i < self.prolog.len() ==> !((#[trigger] self.prolog[i]) is Child)
        &&& forall|i: int| 0 <= i < self.epilog.len() ==> !((#[trigger] self.epilog[i]) is Child)
    }

    /// The bytes that stand for the parts of the document behind its
    /// header: the optional declaration, what stands before the root, the
    /// root, and what stands after it.
    pub open spec fn body_encoding(self, header: bool) -> Seq<u8> {
        opt_declaration_encoding(self.declaration, header) + counted_nodes_encoding(
            self.prolog,
            header,
        ) + self.root.encoding(header) + counted_nodes_encoding(self.epilog, header)
    }

    /// The bytes that stand for the document, written by an encoder that
    /// was in header mode or not. A document with a source starts with
    /// `XML1` and the source, and its spans are written as offsets into it;
    /// one without starts with `XML2`.
    pub open spec fn encoding(self, header: bool) -> Seq<u8> {
        match self.src {
            Some(s) => header_sourced() + text_encoding(s) + self.body_encoding(true),
            None => header_unsourced() + self.body_encoding(header),
        }
    }

    /// The parts of a document that `buf` holds at `pos`, behind its
    /// header.
    #[verifier::opaque]
    pub open spec fn body_decoding(
        buf: Seq<u8>,
        pos: int,
        src: Option<Seq<u8>>,
        text: Option<Seq<char>>,
    ) -> Decoded<DocumentView> {
        match opt_declaration_decoding(buf, pos, src) {
            Err(e) => Err(e),
            Ok((declaration, n1)) => match counted_nodes_decoding(buf, pos + n1, src) {
                Err(e) => Err(e),
                Ok((prolog, n2)) => match TagView::decoding(buf, pos + n1 + n2, src) {
                    Err(e) => Err(e),
                    Ok((root, n3)) => match counted_nodes_decoding(
                        buf,
                        pos + n1 + n2 + n3,
                        src,
                    ) {
                        Err(e) => Err(e),
                        Ok((epilog, n4)) => Ok(
                            (
                                DocumentView { src: text, declaration, prolog, root, epilog },
                                n1 + n2 + n3 + n4,
                            ),
                        ),
                    },
                },
            },
        }
    }

    /// The document that `buf` holds at `pos`, read by a decoder that had
    /// the source `src` or none. Behind `XML1` the stream brings its own
    /// source, and spans are cut from it.
    #[verifier::opaque]
    pub open spec fn decoding(buf: Seq<u8>, pos: int, src: Option<Seq<u8>>) -> Decoded<
        DocumentView,
    > {
        if pos < 0 || pos + 4 > buf.len() {
            Err(DecodeFailure::UnexpectedEof)
        } else if buf.subrange(pos, pos + 4) == header_sourced() {
            match text_decoding(buf, pos + 4) {
                Err(e) => Err(e),
                Ok((text, n1)) => match Self::body_decoding(
                    buf,
                    pos + 4 + n1,
                    Some(encode_utf8(text)),
                    Some(text),
                ) {
                    Err(e) => Err(e),
                    Ok((doc, n2)) => Ok((doc, 4 + n1 + n2)),
                },
            }
        } else if buf.subrange(pos, pos + 4) == header_unsourced() {
            match Self::body_decoding(buf, pos + 4, src, None) {
                Err(e) => Err(e),
                Ok((doc, n2)) => Ok((doc, 4 + n2)),
            }
        } else {
            Err(DecodeFailure::InvalidHeader)
        }
    }

    /// True when a read of the parts of a document that `buf` holds at
    /// `pos`, behind its header, comes to reserve memory: the declaration
    /// decodes, and what stands before the root is not empty; or that
    /// decodes too, and the read of the root reserves; or the root decodes
    /// too, and what stands after it is not empty.
    pub open spec fn body_reserving(buf: Seq<u8>, pos: int, src: Option<Seq<u8>>) -> bool {
        match opt_declaration_decoding(buf, pos, src) {
            Err(_) => false,
            Ok((_, n1)) => count_reserves(buf, pos + n1) || match counted_nodes_decoding(
                buf,
                pos + n1,
                src,
            ) {
                Err(_) => false,
                Ok((_, n2)) => TagView::reserving(buf, pos + n1 + n2, src) || (TagView::decoding(
                    buf,
                    pos + n1 + n2,
                    src,
                ) matches Ok((_, n3)) && count_reserves(buf, pos + n1 + n2 + n3)),
            },
        }
    }

    /// True when a read of the document that `buf` holds at `pos` comes to
    /// reserve memory: the header is known and the source, if the stream
    /// brings one, decodes, and the read of the parts behind it reserves.
    pub open spec fn reserving(buf: Seq<u8>, pos: int, src: Option<Seq<u8>>) -> bool {
        if pos < 0 || pos + 4 > buf.len() {
            false
        } else if buf.subrange(pos, pos + 4) == header_sourced() {
            match text_decoding(buf, pos + 4) {
                Err(_) => false,
                Ok((text, n1)) => Self::body_reserving(buf, pos + 4 + n1, Some(encode_utf8(text))),
            }
        } else if buf.subrange(pos, pos + 4) == header_unsourced() {
            Self::body_reserving(buf, pos + 4, src)
        } else {
            false
        }
    }

    /// The source that a decoder has after it read a document at `pos`: the
    /// one that the stream brought, or the one it had.
    pub open spec fn source_after(buf: Seq<u8>, pos: int, src: Option<Seq<u8>>) -> Option<
        Seq<u8>,
    > {
        if 0 <= pos && pos + 4 <= buf.len() && buf.subrange(pos, pos + 4) == header_sourced() {
            match text_decoding(buf, pos + 4) {
                Ok((text, _)) => Some(encode_utf8(text)),
                Err(_) => src,
            }
        } else {
            src
        }
    }
}

/// Writes the count of some nodes and the nodes.
pub fn write_nodes(nodes: &Vec<Node<'_>>, encoder: &mut Encoder)
    ensures
        final(encoder)@ == old(encoder)@.with(
            counted_nodes_encoding(nodes_view(nodes@), old(encoder)@.source_header),
        ),
{
    let ghost header = encoder@.source_header;
    let ghost all = nodes_view(nodes@);
    let _ = nodes.len().write(encoder);
    let ghost head = encoder@.bytes;
    let mut i: usize = 0;
    while i < nodes.len()
        invariant
            i <= nodes@.len(),
            all == nodes_view(nodes@),
            encoder@.source_header == header,
            encoder@.bytes == head + nodes_encoding(all, i as nat, header),
        decreases nodes@.len() - i,
    {
        nodes[i].encode(encoder);
        proof {
            assert(all[i as int] == nodes@[i as int]@);
        }
        i += 1;
    }
    proof {
        assert(encoder@.bytes =~= old(encoder)@.bytes + counted_nodes_encoding(all, header));
    }
}

/// Reads a count and that many nodes.
///
/// # Errors
/// The failure that `counted_nodes_decoding` names: `UnexpectedEof` where
/// the count does not decode, and what the read of a node yields. Only
/// where the count is not zero, the read can also end in the error of a
/// reservation that was refused.
#[verifier::rlimit(100)]
pub fn read_nodes<'src>(decoder: &mut Decoder<'src>) -> (r: Result<
    Vec<Node<'src>>,
    BinDecodeError,
>)
    ensures
        final(decoder)@.bytes == old(decoder)@.bytes,
        final(decoder)@.source == old(decoder)@.source,
        read_agrees(
            counted_nodes_decoding(
                old(decoder)@.bytes,
                old(decoder)@.cursor as int,
                old(decoder)@.source,
            ),
            match r {
                Ok(v) => Ok(nodes_view(v@)),
                Err(e) => Err(e),
            },
            final(decoder)@.cursor - old(decoder)@.cursor,
            count_reserves(old(decoder)@.bytes, old(decoder)@.cursor as int),
        ),
        count_decoding(old(decoder)@.bytes, old(decoder)@.cursor as int) is Err ==> r matches Err(
            BinDecodeError::UnexpectedEof,
        ),
{
    proof {
        reveal(counted_nodes_decoding);
    }
    let ghost buf = decoder@.bytes;
    let ghost src = decoder@.source;
    let ghost start = decoder@.cursor as int;
    let len = usize::read(decoder)?;
    let mut vec: Vec<Node<'src>> = Vec::new();
    if len > 0 {
        match vec.try_reserve(len) {
            Ok(()) => {},
            Err(e) => {
                return Err(BinDecodeError::TryReserveError(e));
            },
        }
    }
    let mut i: usize = 0;
    proof {
        assert(nodes_view(vec@) =~= Seq::empty());
    }
    while i < len
        invariant
            i <= len,
            buf == old(decoder)@.bytes,
            src == old(decoder)@.source,
            start == old(decoder)@.cursor,
            decoder@.bytes == buf,
            decoder@.source == src,
            count_decoding(buf, start) == Ok::<(usize, nat), DecodeFailure>((len, 8)),
            vec@.len() == i,
            nodes_decoding(buf, start + 8, i as nat, src) == Ok::<
                (Seq<NodeView>, nat),
                DecodeFailure,
            >((nodes_view(vec@), (decoder@.cursor - start - 8) as nat)),
            decoder@.cursor >= start + 8,
        decreases len - i,
    {
        let ghost before = nodes_view(vec@);
        match Node::decode(decoder) {
            Ok(item) => {
                vec.push(item);
                proof {
                    assert(nodes_view(vec@) =~= before.push(item@));
                }
            },
            Err(e) => {
                proof {
                    reveal(counted_nodes_decoding);
                    if e.failure() is Some {
                        lemma_nodes_failure_stays(
                            buf,
                            start + 8,
                            (i + 1) as nat,
                            len as nat,
                            src,
                        );
                    }
                }
                return Err(e);
            },
        }
        i += 1;
    }
    Ok(vec)
}

/// Owned copies of some nodes, without offsets.
pub fn nodes_to_owned(nodes: &Vec<Node<'_>>) -> (r: Vec<OwnedNode>)
    ensures
        owned_nodes_view(r@) == nodes_detached(nodes_view(nodes@)),
{
    let mut out: Vec<OwnedNode> = Vec::new();
    let mut i: usize = 0;
    while i < nodes.len()
        invariant
            i <= nodes@.len(),
            out@.len() == i,
            forall|j: int| 0 <= j < i ==> (#[trigger] out@[j])@ == nodes@[j]@.detached(),
        decreases nodes@.len() - i,
    {
        out.push(nodes[i].to_owned());
        i += 1;
    }
    proof {
        assert(owned_nodes_view(out@) =~= nodes_detached(nodes_view(nodes@)));
    }
    out
}

/// Some owned nodes as spans over their strings, at offset zero.
pub fn nodes_borrowed<'a>(nodes: &'a Vec<OwnedNode>) -> (r: Vec<Node<'a>>)
    ensures
        nodes_view(r@) == owned_nodes_view(nodes@),
{
    let mut out: Vec<Node<'a>> = Vec::new();
    let mut i: usize = 0;
    while i < nodes.len()
        invariant
            i <= nodes@.len(),
            out@.len() == i,
            forall|j: int| 0 <= j < i ==> (#[trigger] out@[j])@ == nodes@[j]@,
        decreases nodes@.len() - i,
    {
        out.push(nodes[i].borrowed());
        i += 1;
    }
    proof {
        assert(nodes_view(out@) =~= owned_nodes_view(nodes@));
    }
    out
}

/// Some nodes with every offset in them set to zero.
pub fn nodes_unplaced<'a>(nodes: &Vec<Node<'a>>) -> (r: Vec<Node<'a>>)
    ensures
        nodes_view(r@) == nodes_stripped(nodes_view(nodes@)),
{
    let mut out: Vec<Node<'a>> = Vec::new();
    let mut i: usize = 0;
    while i < nodes.len()
        invariant
            i <= nodes@.len(),
            out@.len() == i,
            forall|j: int| 0 <= j < i ==> (#[trigger] out@[j])@ == nodes@[j]@.stripped(),
        decreases nodes@.len() - i,
    {
        out.push(nodes[i].stripped());
        i += 1;
    }
    proof {
        assert(nodes_view(out@) =~= nodes_stripped(nodes_view(nodes@)));
    }
    out
}

/// An XML document as a tree whose strings are spans of the source.
///
/// It holds the XML declaration if there is one, what stands before the
/// root, the root with all below it, and what stands after the root. An
/// attribute name may occur more than once in a tag; a lookup finds the
/// last.
#[derive(Debug, Clone, PartialEq)]
pub struct Document<'src> {
    pub(crate) src: Option<&'src str>,
    pub(crate) declaration: Option<DeclarationNode<'src>>,
    pub(crate) prolog: Vec<Node<'src>>,
    pub(crate) root: TagNode<'src>,
    pub(crate) epilog: Vec<Node<'src>>,
}

impl<'src> View for Document<'src> {
    type V = DocumentView;

    open(crate) spec fn view(&self) -> DocumentView {
        DocumentView {
            src: match self.src {
                Some(s) => Some(s@),
                None => None,
            },
            declaration: opt_declaration_view(self.declaration),
            prolog: nodes_view(self.prolog@),
            root: self.root@,
            epilog: nodes_view(self.epilog@),
        }
    }
}

impl<'src> Document<'src> {
    /// A document of its parts.
    pub fn from_parts(
        src: Option<&'src str>,
        declaration: Option<DeclarationNode<'src>>,
        prolog: Vec<Node<'src>>,
        root: TagNode<'src>,
        epilog: Vec<Node<'src>>,
    ) -> (r: Self)
        ensures
            r@ == (DocumentView {
                src: match src {
                    Some(s) => Some(s@),
                    None => None,
                },
                declaration: opt_declaration_view(declaration),
                prolog: nodes_view(prolog@),
                root: root@,
                epilog: nodes_view(epilog@),
            }),
    {
        Document { src, declaration, prolog, root, epilog }
    }

    /// The source that the spans are cut from, if the document has one.
    #[must_use]
    pub fn source(&self) -> (r: Option<&'src str>)
        ensures
            match r {
                Some(s) => self@.src == Some(s@),
                None => self@.src is None,
            },
    {
        self.src
    }

    /// The XML declaration, if there is one.
    #[must_use]
    pub fn declaration(&self) -> (r: Option<&DeclarationNode<'src>>)
        ensures
            match r {
                Some(d) => self@.declaration == Some(d@),
                None => self@.declaration is None,
            },
    {
        self.declaration.as_ref()
    }

    /// What stands between the declaration and the root: comments,
    /// document type declarations, processing instructions and the like.
    #[must_use]
    pub fn prolog(&self) -> (r: &[Node<'src>])
        ensures
            r@.len() == self@.prolog.len(),
            forall|i: int| 0 <= i < r@.len() ==> (#[trigger] r@[i])@ == self@.prolog[i],
    {
        self.prolog.as_slice()
    }

    /// The root.
    #[must_use]
    pub fn root(&self) -> (r: &TagNode<'src>)
        ensures
            r@ == self@.root,
    {
        &self.root
    }

    /// What stands after the root.
    #[must_use]
    pub fn epilog(&self) -> (r: &[Node<'src>])
        ensures
            r@.len() == self@.epilog.len(),
            forall|i: int| 0 <= i < r@.len() ==> (#[trigger] r@[i])@ == self@.epilog[i],
    {
        self.epilog.as_slice()
    }

    /// Writes the document to the encoder. A document with a source writes
    /// it behind the header `XML1` and switches the encoder to header mode;
    /// one without writes the header `XML2`.
    #[verifier::rlimit(100)]
    pub fn write(&self, encoder: &mut Encoder) -> (r: std::io::Result<()>)
        ensures
            r is Ok,
            final(encoder)@ == (EncoderView {
                bytes: old(encoder)@.bytes + self@.encoding(old(encoder)@.source_header),
                source_header: old(encoder)@.source_header || self@.src is Some,
            }),
    {
        match self.src {
            Some(src) => {
                encoder.write_byte(0x58);
                encoder.write_byte(0x4D);
                encoder.write_byte(0x4C);
                encoder.write_byte(0x31);
                encoder.with_source_header();
                write_text(src, encoder);
            },
            None => {
                encoder.write_byte(0x58);
                encoder.write_byte(0x4D);
                encoder.write_byte(0x4C);
                encoder.write_byte(0x32);
            },
        }
        let ghost header = encoder@.source_header;
        let ghost head = encoder@.bytes;
        let _ = self.declaration.write(encoder);
        write_nodes(&self.prolog, encoder);
        self.root.encode(encoder);
        write_nodes(&self.epilog, encoder);
        proof {
            assert(encoder@.bytes =~= head + self@.body_encoding(header));
            assert(encoder@.bytes =~= old(encoder)@.bytes + self@.encoding(
                old(encoder)@.source_header,
            ));
        }
        Ok(())
    }

    /// Reads a document from the decoder. Behind the header `XML1` the
    /// stream brings its source, which the decoder keeps from then on.
    ///
    /// # Errors
    /// The failure that `DocumentView::decoding` names: `UnexpectedEof`
    /// where fewer than four bytes are left, `InvalidHeader` where the four
    /// are no header, and what the read of the parts behind it yields. Only
    /// where `DocumentView::reserving` holds, the read can also end in the
    /// error of a reservation that was refused.
    #[verifier::rlimit(100)]
    pub fn read(decoder: &mut Decoder<'src>) -> (r: Result<Self, BinDecodeError>)
        ensures
            final(decoder)@.bytes == old(decoder)@.bytes,
            read_agrees(
                DocumentView::decoding(
                    old(decoder)@.bytes,
                    old(decoder)@.cursor as int,
                    old(decoder)@.source,
                ),
                match r {
                    Ok(v) => Ok(v@),
                    Err(e) => Err(e),
                },
                final(decoder)@.cursor - old(decoder)@.cursor,
                DocumentView::reserving(
                    old(decoder)@.bytes,
                    old(decoder)@.cursor as int,
                    old(decoder)@.source,
                ),
            ),
            old(decoder)@.remaining() < 4 ==> r matches Err(BinDecodeError::UnexpectedEof),
            old(decoder)@.remaining() >= 4 && old(decoder)@.bytes.subrange(
                old(decoder)@.cursor as int,
                old(decoder)@.cursor + 4 as int,
            ) != header_sourced() && old(decoder)@.bytes.subrange(
                old(decoder)@.cursor as int,
                old(decoder)@.cursor + 4 as int,
            ) != header_unsourced() ==> r matches Err(BinDecodeError::InvalidHeader),
            r is Ok ==> final(decoder)@.source == DocumentView::source_after(
                old(decoder)@.bytes,
                old(decoder)@.cursor as int,
                old(decoder)@.source,
            ),
    {
        proof {
            reveal(DocumentView::decoding);
            reveal(DocumentView::body_decoding);
            reveal(opt_declaration_decoding);
        }
        let ghost buf = decoder@.bytes;
        let ghost start = decoder@.cursor as int;
        // The cursor is read so that the verifier knows it to lie within the
        // bytes.
        let _ = decoder.cursor();
        let header = decoder.read_all(4)?;
        let sourced = header[0] == 0x58 && header[1] == 0x4D && header[2] == 0x4C && header[3]
            == 0x31;
        let unsourced = header[0] == 0x58 && header[1] == 0x4D && header[2] == 0x4C && header[3]
            == 0x32;
        proof {
            assert(sourced == (header@ =~= header_sourced()));
            assert(unsourced == (header@ =~= header_unsourced()));
        }
        let src = if sourced {
            let src = <&'src str>::read(decoder)?;
            decoder.with_source(src);
            Some(src)
        } else if unsourced {
            None
        } else {
            return Err(BinDecodeError::InvalidHeader);
        };
        let declaration = Option::<DeclarationNode<'src>>::read(decoder)?;
        let prolog = read_nodes(decoder)?;
        let root = TagNode::decode(decoder)?;
        let epilog = read_nodes(decoder)?;
        Ok(Document { src, declaration, prolog, root, epilog })
    }

    /// The document in its flat binary form.
    ///
    /// A document with a source stores the source once and every span as an
    /// offset and a length into it. That is only sound while every span
    /// still holds the text that the source has at its offset.
    pub fn to_bin(&self) -> (r: std::io::Result<Vec<u8>>)
        ensures
            r matches Ok(bytes) && bytes@ == self@.encoding(false),
    {
        let mut encoder = Encoder::new();
        let _ = self.write(&mut encoder);
        let bytes = encoder.into_inner();
        proof {
            assert(bytes@ =~= self@.encoding(false));
        }
        Ok(bytes)
    }

    /// The document that a flat binary form stands for.
    ///
    /// # Errors
    /// The failure that `DocumentView::decoding` names: `UnexpectedEof`
    /// where fewer than four bytes are left, `InvalidHeader` where the four
    /// are no header, and what the read of the parts behind it yields. Only
    /// where `DocumentView::reserving` holds, the read can also end in the
    /// error of a reservation that was refused.
    pub fn from_bin(data: &'src [u8]) -> (r: Result<Self, BinDecodeError>)
        ensures
            match r {
                Ok(doc) => exists|used: nat|
                    DocumentView::decoding(data@, 0, None) == Ok::<
                        (DocumentView, nat),
                        DecodeFailure,
                    >((doc@, used)),
                Err(e) => match e.failure() {
                    Some(f) => DocumentView::decoding(data@, 0, None) == Err::<
                        (DocumentView, nat),
                        DecodeFailure,
                    >(f),
                    None => e is TryReserveError && DocumentView::reserving(data@, 0, None),
                },
            },
            data@.len() < 4 ==> r matches Err(BinDecodeError::UnexpectedEof),
            data@.len() >= 4 && data@.subrange(0, 4) != header_sourced() && data@.subrange(0, 4)
                != header_unsourced() ==> r matches Err(BinDecodeError::InvalidHeader),
    {
        let mut decoder = Decoder::new(data);
        let r = Self::read(&mut decoder);
        proof {
            reveal(DocumentView::decoding);
            if r is Ok {
                assert(DocumentView::decoding(data@, 0, None) == Ok::<
                    (DocumentView, nat),
                    DecodeFailure,
                >((r.unwrap()@, decoder@.cursor)));
            }
        }
        r
    }

    /// An owned copy of the document, without source and offsets.
    pub fn to_owned(&self) -> (r: OwnedDocument)
        ensures
            r@ == self@.detached(),
    {
        let declaration = match &self.declaration {
            Some(d) => Some(d.to_owned()),
            None => None,
        };
        OwnedDocument {
            declaration,
            prolog: nodes_to_owned(&self.prolog),
            root: self.root.to_owned(),
            epilog: nodes_to_owned(&self.epilog),
        }
    }

    /// The document without its source and with every offset in it set to
    /// zero.
    pub fn stripped(&self) -> (r: Self)
        ensures
            r@ == self@.stripped(),
    {
        let declaration = match &self.declaration {
            Some(d) => Some(d.stripped()),
            None => None,
        };
        Document {
            src: None,
            declaration,
            prolog: nodes_unplaced(&self.prolog),
            root: self.root.stripped(),
            epilog: nodes_unplaced(&self.epilog),
        }
    }

    /// Lets go of the source, sets every offset in the document to zero
    /// and keeps the text. The binary form then holds every string written
    /// out, so it is sound whatever was changed in the document before.
    pub fn strip_metadata(&mut self)
        ensures
            final(self)@ == old(self)@.stripped(),
    {
        *self = self.stripped();
    }
}

/// An owned XML document, without source and offsets.
#[derive(Debug, Clone, PartialEq)]
pub struct OwnedDocument {
    /// The XML declaration, if there is one.
    pub declaration: Option<OwnedDeclarationNode>,
    /// What stands between the declaration and the root.
    pub prolog: Vec<OwnedNode>,
    /// The root.
    pub root: OwnedTagNode,
    /// What stands after the root.
    pub epilog: Vec<OwnedNode>,
}

impl View for OwnedDocument {
    type V = DocumentView;

    open spec fn view(&self) -> DocumentView {
        DocumentView {
            src: None,
            declaration: opt_owned_declaration_view(self.declaration),
            prolog: owned_nodes_view(self.prolog@),
            root: self.root@,
            epilog: owned_nodes_view(self.epilog@),
        }
    }
}

impl OwnedDocument {
    /// A document of a root alone.
    pub fn new(root: OwnedTagNode) -> (r: Self)
        ensures
            r@ == (DocumentView {
                src: None,
                declaration: None,
                prolog: Seq::empty(),
                root: root@,
                epilog: Seq::empty(),
            }),
            r.declaration is None,
            r.root == root,
            r.prolog@ == Seq::<OwnedNode>::empty(),
            r.epilog@ == Seq::<OwnedNode>::empty(),
    {
        let r = OwnedDocument { declaration: None, prolog: Vec::new(), root, epilog: Vec::new() };
        proof {
            assert(r@.prolog =~= Seq::empty());
            assert(r@.epilog =~= Seq::empty());
        }
        r
    }

    /// The document as spans over the owned strings, at offset zero and
    /// without a source.
    pub fn borrowed(&self) -> (r: Document<'_>)
        ensures
            r@ == self@,
    {
        let declaration = match &self.declaration {
            Some(d) => Some(d.borrowed()),
            None => None,
        };
        Document {
            src: None,
            declaration,
            prolog: nodes_borrowed(&self.prolog),
            root: self.root.borrowed(),
            epilog: nodes_borrowed(&self.epilog),
        }
    }

    /// Writes the document to the encoder, behind the header `XML2` and
    /// with every string written out.
    pub fn write(&self, encoder: &mut Encoder) -> (r: std::io::Result<()>)
        ensures
            r is Ok,
            final(encoder)@ == old(encoder)@.with(self@.encoding(old(encoder)@.source_header)),
    {
        self.borrowed().write(encoder)
    }

    /// Reads a document from the decoder, as an owned copy.
    ///
    /// # Errors
    /// The failure that `DocumentView::decoding` names: `UnexpectedEof`
    /// where fewer than four bytes are left, `InvalidHeader` where the four
    /// are no header, and what the read of the parts behind it yields. Only
    /// where `DocumentView::reserving` holds, the read can also end in the
    /// error of a reservation that was refused.
    pub fn read(decoder: &mut Decoder<'_>) -> (r: Result<Self, BinDecodeError>)
        ensures
            final(decoder)@.bytes == old(decoder)@.bytes,
            read_agrees(
                match DocumentView::decoding(
                    old(decoder)@.bytes,
                    old(decoder)@.cursor as int,
                    old(decoder)@.source,
                ) {
                    Ok((m, used)) => Ok((m.detached(), used)),
                    Err(e) => Err(e),
                },
                match r {
                    Ok(v) => Ok(v@),
                    Err(e) => Err(e),
                },
                final(decoder)@.cursor - old(decoder)@.cursor,
                DocumentView::reserving(
                    old(decoder)@.bytes,
                    old(decoder)@.cursor as int,
                    old(decoder)@.source,
                ),
            ),
            old(decoder)@.remaining() < 4 ==> r matches Err(BinDecodeError::UnexpectedEof),
            old(decoder)@.remaining() >= 4 && old(decoder)@.bytes.subrange(
                old(decoder)@.cursor as int,
                old(decoder)@.cursor + 4 as int,
            ) != header_sourced() && old(decoder)@.bytes.subrange(
                old(decoder)@.cursor as int,
                old(decoder)@.cursor + 4 as int,
            ) != header_unsourced() ==> r matches Err(BinDecodeError::InvalidHeader),
    {
        match Document::read(decoder) {
            Ok(doc) => Ok(doc.to_owned()),
            Err(e) => Err(e),
        }
    }

    /// The document in its flat binary form, with every string written out.
    pub fn to_bin(&self) -> (r: std::io::Result<Vec<u8>>)
        ensures
            r matches Ok(bytes) && bytes@ == self@.encoding(false),
    {
        self.borrowed().to_bin()
    }

    /// The document that a flat binary form stands for, as an owned copy.
    ///
    /// # Errors
    /// The failure that `DocumentView::decoding` names: `UnexpectedEof`
    /// where fewer than four bytes are left, `InvalidHeader` where the four
    /// are no header, and what the read of the parts behind it yields. Only
    /// where `DocumentView::reserving` holds, the read can also end in the
    /// error of a reservation that was refused.
    pub fn from_bin(data: &[u8]) -> (r: Result<Self, BinDecodeError>)
        ensures
            match r {
                Ok(doc) => exists|read: DocumentView, used: nat|
                    DocumentView::decoding(data@, 0, None) == Ok::<
                        (DocumentView, nat),
                        DecodeFailure,
                    >((read, used)) && doc@ == read.detached(),
                Err(e) => match e.failure() {
                    Some(f) => DocumentView::decoding(data@, 0, None) == Err::<
                        (DocumentView, nat),
                        DecodeFailure,
                    >(f),
                    None => e is TryReserveError && DocumentView::reserving(data@, 0, None),
                },
            },
            data@.len() < 4 ==> r matches Err(BinDecodeError::UnexpectedEof),
            data@.len() >= 4 && data@.subrange(0, 4) != header_sourced() && data@.subrange(0, 4)
                != header_unsourced() ==> r matches Err(BinDecodeError::InvalidHeader),
    {
        match Document::from_bin(data) {
            Ok(doc) => Ok(doc.to_owned()),
            Err(e) => Err(e),
        }
    }
}

/// An owned value is written as the spans over its strings are, and read
/// as an owned copy of what the stream holds.
impl<'src> ToBinHandler<'src> for OwnedDeclarationNode {
    type Model = DeclarationView;

    open spec fn reserving(buf: Seq<u8>, pos: int, src: Option<Seq<u8>>) -> bool {
        false
    }

    open spec fn model(&self) -> DeclarationView {
        self@
    }

    open spec fn encoding(m: DeclarationView, header: bool) -> Seq<u8> {
        m.encoding(header)
    }

    open spec fn decoding(buf: Seq<u8>, pos: int, src: Option<Seq<u8>>) -> Decoded<DeclarationView> {
        match DeclarationView::decoding(buf, pos, src) {
            Ok((m, used)) => Ok((m.detached(), used)),
            Err(e) => Err(e),
        }
    }

    fn write(&self, encoder: &mut Encoder) -> (r: std::io::Result<()>) {
        self.borrowed().write(encoder)
    }

    fn read(decoder: &mut Decoder<'src>) -> (r: Result<Self, BinDecodeError>) {
        match DeclarationNode::read(decoder) {
            Ok(node) => Ok(node.to_owned()),
            Err(e) => Err(e),
        }
    }
}

} // verus!
