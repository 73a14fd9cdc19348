//! The tree builder: a state machine that turns tokens into a document.
//!
//! It starts before the root, goes through the attributes and the children
//! of every tag, and ends behind the root. Open tags wait on a stack of
//! their own, so the depth of the document is not the depth of any call.
use vstd::prelude::*;
use vstd::string::*;
use vstd::utf8::*;
use crate::document::{
    nodes_storable, opt_declaration_storable, opt_declaration_view, DeclarationNode,
    DeclarationView, Document, DocumentView,
};
use crate::error::{ContextView, ErrorContext, ErrorKindView, ErrorView, XmlError, XmlErrorKind, XmlResult};
use crate::node::cdata::{CdataNode, CdataView};
use crate::node::dtd::{opt_id_view, DtdEntity, DtdEntityView, DtdNode, DtdView};
use crate::node::name::NameView;
use crate::node::pi::{PiView, ProcessingInstructionNode};
use crate::node::tag::{AttributeView, NodeAttribute, TagNode, TagView};
use crate::node::text::{TextNode, TextView};
use crate::node::{nodes_view, Node, NodeView};
use crate::strspan::{opt_view, SpanView, StrSpan};
use crate::token::{as_stream, stream_lies_in, token_stream, Lexed, Lexeme, Lexemes, TagEnd};
use crate::utf8::{
    byte_len, lemma_encode_concat, lemma_strip_leading_suffix,
    lemma_strip_trailing_prefix, strip_leading, strip_trailing, trim_end, trim_start, trimmed,
};

verus! {

/// Where the builder stands in the document.
#[derive(Clone, Copy, PartialEq, Eq, Debug)]
pub enum ParserState {
    /// Before the root.
    Prolog,
    /// Behind the name of a tag, among its attributes.
    TagAttributes,
    /// Inside a tag, among its children.
    TagChildren,
    /// Behind the root.
    Epilog,
}

/// What went wrong and where, before it is put into an error.
pub struct Fault {
    /// What went wrong.
    pub kind: ErrorKindView,
    /// The place in the source.
    pub span: SpanView,
}

impl Fault {
    /// The error that reports the fault in the source `src`.
    pub open spec fn error(self, src: Seq<char>) -> ErrorView {
        ErrorView {
            context: ContextView { path: None, source: src, span: self.span },
            kind: self.kind,
        }
    }
}

/// The prefix of a name: none where the token has the empty prefix.
pub open spec fn name_prefix(prefix: SpanView) -> Option<SpanView> {
    if prefix.text.len() == 0 {
        None
    } else {
        Some(prefix)
    }
}

/// A tag that was just opened: its name, and the span of its start.
pub open spec fn opened_tag(prefix: SpanView, local: SpanView, span: SpanView) -> TagView {
    TagView {
        span,
        name: NameView { prefix: name_prefix(prefix), local },
        attributes: Seq::empty(),
        children: Seq::empty(),
    }
}

/// The empty span at the last byte of the source, where the text ended too
/// early.
pub open spec fn end_span(src: Seq<char>) -> SpanView {
    let len = encode_utf8(src).len();
    SpanView {
        text: Seq::empty(),
        start: if len == 0 {
            0
        } else {
            (len - 1) as nat
        },
    }
}

/// The number of bytes of the white space that a text starts with.
pub open spec fn leading_bytes(text: Seq<char>) -> nat {
    (encode_utf8(text).len() - encode_utf8(strip_leading(text)).len()) as nat
}

/// The text node of a text token: the text without the white space around
/// it, at the offset where that starts; none where nothing is left.
pub open spec fn text_node(text: SpanView) -> Option<TextView> {
    let inner = trimmed(text.text);
    if inner.len() == 0 {
        None
    } else {
        Some(
            TextView {
                span: text,
                text: SpanView { text: inner, start: text.start + leading_bytes(text.text) },
            },
        )
    }
}

/// The message for a token that may not stand where it does.
pub open spec fn unexpected(lexeme: Lexeme<'_>, place: Seq<char>) -> Fault {
    Fault {
        kind: ErrorKindView::Custom("Unexpected "@ + lexeme.kind_name() + place),
        span: lexeme.whole(),
    }
}

/// What the builder holds.
pub struct BuilderView {
    /// Where the builder stands.
    pub state: ParserState,
    /// The tags that are open, the outermost first.
    pub stack: Seq<TagView>,
    /// The XML declaration, once it was seen.
    pub declaration: Option<DeclarationView>,
    /// What was seen before the root.
    pub prolog: Seq<NodeView>,
    /// What was seen behind the root.
    pub epilog: Seq<NodeView>,
}

impl BuilderView {
    /// The builder before the first token.
    pub open spec fn initial() -> BuilderView {
        BuilderView {
            state: ParserState::Prolog,
            stack: Seq::empty(),
            declaration: None,
            prolog: Seq::empty(),
            epilog: Seq::empty(),
        }
    }

    /// True when the stack fits the state, and all that the builder holds
    /// lies in the source with the UTF-8 bytes `src`.
    pub open spec fn wf(self, src: Seq<u8>) -> bool {
        &&& match self.state {
            ParserState::Prolog => self.stack.len() == 0,
            ParserState::TagAttributes => self.stack.len() >= 1,
            ParserState::TagChildren => self.stack.len() >= 1,
            ParserState::Epilog => self.stack.len() == 1,
        }
        &&& src.len() <= usize::MAX
        &&& opt_declaration_storable(self.declaration, Some(src))
        &&& nodes_storable(self.prolog, Some(src))
        &&& nodes_storable(self.epilog, Some(src))
        &&& forall|i: int|
            0 <= i < self.stack.len() ==> (#[trigger] self.stack[i]).storable(Some(src))
        &&& forall|i: int| 0 <= i < self.prolog.len() ==> !((#[trigger] self.prolog[i]) is Child)
        &&& forall|i: int| 0 <= i < self.epilog.len() ==> !((#[trigger] self.epilog[i]) is Child)
    }

    /// The builder with one more open tag, among its attributes.
    pub open spec fn with_frame(self, tag: TagView) -> BuilderView {
        BuilderView { state: ParserState::TagAttributes, stack: self.stack.push(tag), ..self }
    }

    /// The builder with one more child in the innermost open tag.
    pub open spec fn with_child(self, node: NodeView) -> BuilderView {
        let top = self.stack.last();
        BuilderView {
            stack: self.stack.drop_last().push(
                TagView { children: top.children.push(node), ..top },
            ),
            ..self
        }
    }

    /// The builder with one more attribute in the innermost open tag.
    pub open spec fn with_attribute(self, attribute: AttributeView) -> BuilderView {
        let top = self.stack.last();
        BuilderView {
            stack: self.stack.drop_last().push(
                TagView { attributes: top.attributes.push(attribute), ..top },
            ),
            ..self
        }
    }

    /// The innermost open tag, closed by a token with the span `end`: its
    /// span reaches to the end of that token.
    pub open spec fn closing(self, end: SpanView, src: Seq<char>) -> TagView {
        let top = self.stack.last();
        TagView { span: top.span.cover(end, encode_utf8(src)), ..top }
    }

    /// The builder after the innermost open tag was closed: the tag is the
    /// last child of the tag around it, or it is the root and the builder
    /// stands behind it.
    pub open spec fn closed(self, end: SpanView, src: Seq<char>) -> BuilderView {
        let done = self.closing(end, src);
        let rest = self.stack.drop_last();
        if rest.len() == 0 {
            BuilderView { state: ParserState::Epilog, stack: seq![done], ..self }
        } else {
            BuilderView { state: ParserState::TagChildren, stack: rest, ..self }.with_child(
                NodeView::Child(done),
            )
        }
    }

    /// What a token does before the root. A token that starts a document
    /// type declaration is not handled here, because more tokens belong to
    /// it.
    pub open spec fn prolog_step(self, lexeme: Lexeme<'_>) -> Result<BuilderView, Fault> {
        match lexeme {
            Lexeme::ElementStart { prefix, local, span } => Ok(
                self.with_frame(opened_tag(prefix@, local@, span@)),
            ),
            Lexeme::Comment { text, .. } => Ok(
                BuilderView { prolog: self.prolog.push(NodeView::Comment(text@)), ..self },
            ),
            Lexeme::Declaration { version, encoding, standalone, span } => {
                if self.prolog.len() > 0 {
                    Err(Fault { kind: ErrorKindView::DeclarationNotFirst, span: span@ })
                } else {
                    Ok(
                        BuilderView {
                            declaration: Some(
                                DeclarationView {
                                    span: span@,
                                    version: version@,
                                    encoding: opt_view(encoding),
                                    standalone,
                                },
                            ),
                            ..self
                        },
                    )
                }
            },
            Lexeme::ProcessingInstruction { target, content, span } => Ok(
                BuilderView {
                    prolog: self.prolog.push(
                        NodeView::ProcessingInstruction(
                            PiView { span: span@, target: target@, content: opt_view(content) },
                        ),
                    ),
                    ..self
                },
            ),
            Lexeme::Cdata { text, span } => Ok(
                BuilderView {
                    prolog: self.prolog.push(
                        NodeView::Cdata(CdataView { span: span@, content: text@ }),
                    ),
                    ..self
                },
            ),
            _ => Err(unexpected(lexeme, " in prolog section"@)),
        }
    }

    /// What a token does among the attributes of a tag.
    pub open spec fn attributes_step(self, lexeme: Lexeme<'_>, src: Seq<char>) -> Result<
        BuilderView,
        Fault,
    > {
        match lexeme {
            Lexeme::Attribute { prefix, local, value, span } => Ok(
                self.with_attribute(
                    AttributeView {
                        span: span@,
                        name: NameView { prefix: name_prefix(prefix@), local: local@ },
                        value: value@,
                    },
                ),
            ),
            Lexeme::Comment { text, .. } => Ok(self.with_child(NodeView::Comment(text@))),
            Lexeme::ElementEnd { end: TagEnd::Open, .. } => Ok(
                BuilderView { state: ParserState::TagChildren, ..self },
            ),
            Lexeme::ElementEnd { end: TagEnd::Empty, span } => Ok(self.closed(span@, src)),
            Lexeme::Text { .. } => Ok(self),
            _ => Err(unexpected(lexeme, " in tag attributes"@)),
        }
    }

    /// What a token does among the children of a tag.
    pub open spec fn children_step(self, lexeme: Lexeme<'_>, src: Seq<char>) -> Result<
        BuilderView,
        Fault,
    > {
        match lexeme {
            Lexeme::ElementStart { prefix, local, span } => Ok(
                self.with_frame(opened_tag(prefix@, local@, span@)),
            ),
            Lexeme::Cdata { text, span } => Ok(
                self.with_child(NodeView::Cdata(CdataView { span: span@, content: text@ })),
            ),
            Lexeme::Text { text } => match text_node(text@) {
                Some(node) => Ok(self.with_child(NodeView::Text(node))),
                None => Ok(self),
            },
            Lexeme::Comment { text, .. } => Ok(self.with_child(NodeView::Comment(text@))),
            Lexeme::ProcessingInstruction { target, content, span } => Ok(
                self.with_child(
                    NodeView::ProcessingInstruction(
                        PiView { span: span@, target: target@, content: opt_view(content) },
                    ),
                ),
            ),
            Lexeme::ElementEnd { end: TagEnd::Close(prefix, local), span } => {
                let open = self.stack.last().name;
                if open.same_text(NameView { prefix: name_prefix(prefix@), local: local@ }) {
                    Ok(self.closed(span@, src))
                } else {
                    Err(
                        Fault {
                            kind: ErrorKindView::UnclosedTag(open.qualified()),
                            span: span@,
                        },
                    )
                }
            },
            _ => Err(unexpected(lexeme, " inside tag"@)),
        }
    }

    /// What a token does behind the root.
    pub open spec fn epilog_step(self, lexeme: Lexeme<'_>) -> Result<BuilderView, Fault> {
        match lexeme {
            Lexeme::Comment { text, .. } => Ok(
                BuilderView { epilog: self.epilog.push(NodeView::Comment(text@)), ..self },
            ),
            Lexeme::Cdata { text, span } => Ok(
                BuilderView {
                    epilog: self.epilog.push(
                        NodeView::Cdata(CdataView { span: span@, content: text@ }),
                    ),
                    ..self
                },
            ),
            Lexeme::ProcessingInstruction { target, content, span } => Ok(
                BuilderView {
                    epilog: self.epilog.push(
                        NodeView::ProcessingInstruction(
                            PiView { span: span@, target: target@, content: opt_view(content) },
                        ),
                    ),
                    ..self
                },
            ),
            _ => Err(unexpected(lexeme, " in after root"@)),
        }
    }

    /// What a token does to the builder, in the state it is in.
    pub open spec fn step(self, lexeme: Lexeme<'_>, src: Seq<char>) -> Result<BuilderView, Fault> {
        match self.state {
            ParserState::Prolog => self.prolog_step(lexeme),
            ParserState::TagAttributes => self.attributes_step(lexeme, src),
            ParserState::TagChildren => self.children_step(lexeme, src),
            ParserState::Epilog => self.epilog_step(lexeme),
        }
    }

    /// The builder with a document type declaration behind what was seen
    /// before the root.
    pub open spec fn with_dtd(self, dtd: DtdView) -> BuilderView {
        BuilderView { prolog: self.prolog.push(NodeView::DocumentType(dtd)), ..self }
    }

    /// What the builder yields at the end of the tokens: the document
    /// around the one tag that is left, whether it was closed or not; an
    /// error where no tag was seen, or where more than one is still open.
    pub open spec fn finish(self, src: Seq<char>) -> Result<DocumentView, Fault> {
        if self.stack.len() == 0 {
            Err(Fault { kind: ErrorKindView::UnexpectedEof, span: end_span(src) })
        } else if self.stack.len() == 1 {
            Ok(
                DocumentView {
                    src: Some(src),
                    declaration: self.declaration,
                    prolog: self.prolog,
                    root: self.stack[0],
                    epilog: self.epilog,
                },
            )
        } else {
            Err(
                Fault {
                    kind: ErrorKindView::UnclosedTag(self.stack.last().name.qualified()),
                    span: self.stack.last().span,
                },
            )
        }
    }
}

/// The prefix of a name: none where the token has the empty prefix.
fn maybe_empty<'a>(s: StrSpan<'a>) -> (r: Option<StrSpan<'a>>)
    ensures
        opt_view(r) == name_prefix(s@),
{
    if s.is_empty() {
        None
    } else {
        Some(s)
    }
}

/// The error of a kind at a span of the source.
fn fault_at(src: &str, span: StrSpan<'_>, kind: XmlErrorKind) -> (r: XmlError)
    ensures
        r@ == (Fault { kind: kind@, span: span@ }).error(src@),
{
    XmlError::new(kind, ErrorContext::new(src, span))
}

/// The error for a token that may not stand where it does.
fn unexpected_at(src: &str, lexeme: &Lexeme<'_>, place: &str) -> (r: XmlError)
    ensures
        r@ == unexpected(*lexeme, place@).error(src@),
{
    let mut message = "Unexpected ".to_owned();
    message.append(lexeme.name());
    message.append(place);
    fault_at(src, lexeme.span(), XmlErrorKind::Custom(message))
}

/// A text between its white space lies in the source where the whole text
/// does, at the offset behind the white space it starts with.
#[verifier::rlimit(100)]
pub proof fn lemma_text_node_lies_in(text: SpanView, src: Seq<u8>)
    requires
        valid_utf8(src),
        text.lies_in(src),
        text_node(text) is Some,
    ensures
        text_node(text).unwrap().text.lies_in(src),
        encode_utf8(strip_leading(text.text)).len() <= encode_utf8(text.text).len(),
{
    let s = text.text;
    let a = strip_leading(s);
    let t = strip_trailing(a);
    lemma_strip_leading_suffix(s);
    lemma_strip_trailing_prefix(a);
    let k = s.len() - a.len();
    let p = s.subrange(0, k);
    let q = a.subrange(t.len() as int, a.len() as int);
    assert(s =~= p + a);
    assert(a =~= t + q);
    lemma_encode_concat(p, a);
    lemma_encode_concat(t, q);
    let bp = encode_utf8(p);
    let bt = encode_utf8(t);
    let bq = encode_utf8(q);
    let bs = encode_utf8(s);
    assert(bs =~= bp + bt + bq);
    encode_utf8_valid_utf8(p);
    encode_utf8_valid_utf8(t);
    encode_utf8_valid_utf8(q);
    let from = text.start + bp.len();
    let to = from + bt.len();
    assert(leading_bytes(s) == bp.len());
    assert(src.subrange(from as int, to as int) =~= bt) by {
        assert(src.subrange(text.start as int, text.end() as int) == bs);
        assert forall|i: int| 0 <= i < bt.len() implies src[from + i] == bt[i] by {
            assert(src.subrange(text.start as int, text.end() as int)[bp.len() + i] == bs[bp.len()
                + i]);
        }
    }
    assert(t.len() > 0);
    assert(bt.len() > 0) by {
        if bt.len() == 0 {
            encode_utf8_decode_utf8(t);
            assert(decode_utf8(bt) =~= Seq::<char>::empty());
        }
    }
    // The first byte of the inner text starts a character.
    is_char_boundary_start_end_of_seq(bt);
    is_char_boundary_iff_not_is_continuation_byte(bt, 0);
    assert(src[from as int] == bt[0]) by {
        assert(src.subrange(from as int, to as int)[0] == bt[0]);
    }
    is_char_boundary_iff_not_is_continuation_byte(src, from as int);
    // The byte behind it starts a character, or the whole text ends there.
    if bq.len() > 0 {
        is_char_boundary_start_end_of_seq(bq);
        is_char_boundary_iff_not_is_continuation_byte(bq, 0);
        assert(src[to as int] == bq[0]) by {
            let at = (bp.len() + bt.len()) as int;
            assert(src.subrange(text.start as int, text.end() as int)[at] == bs[at]);
        }
        is_char_boundary_iff_not_is_continuation_byte(src, to as int);
    } else {
        assert(to == text.end());
    }
}

/// The builder of a document.
struct Builder<'src> {
    state: ParserState,
    stack: Vec<TagNode<'src>>,
    declaration: Option<DeclarationNode<'src>>,
    prolog: Vec<Node<'src>>,
    epilog: Vec<Node<'src>>,
}

impl<'src> View for Builder<'src> {
    type V = BuilderView;

    closed spec fn view(&self) -> BuilderView {
        BuilderView {
            state: self.state,
            stack: Seq::new(self.stack@.len(), |i: int| self.stack@[i]@),
            declaration: opt_declaration_view(self.declaration),
            prolog: nodes_view(self.prolog@),
            epilog: nodes_view(self.epilog@),
        }
    }
}

impl<'src> Builder<'src> {
    /// The builder before the first token.
    fn new() -> (r: Self)
        ensures
            r@ == BuilderView::initial(),
    {
        let r = Builder {
            state: ParserState::Prolog,
            stack: Vec::new(),
            declaration: None,
            prolog: Vec::new(),
            epilog: Vec::new(),
        };
        proof {
            assert(r@.stack =~= Seq::empty());
            assert(r@.prolog =~= Seq::empty());
            assert(r@.epilog =~= Seq::empty());
        }
        r
    }

    /// Opens a tag.
    fn push_frame(
        &mut self,
        prefix: StrSpan<'src>,
        local: StrSpan<'src>,
        span: StrSpan<'src>,
        src: &'src str,
    )
        requires
            old(self)@.wf(src.spec_bytes()),
            prefix@.lies_in(src.spec_bytes()),
            local@.lies_in(src.spec_bytes()),
            span@.lies_in(src.spec_bytes()),
        ensures
            final(self)@ == old(self)@.with_frame(opened_tag(prefix@, local@, span@)),
            final(self)@.wf(src.spec_bytes()),
    {
        let tag = TagNode::new(maybe_empty(prefix), local).with_span(span);
        self.stack.push(tag);
        self.state = ParserState::TagAttributes;
        proof {
            assert(self@.stack =~= old(self)@.stack.push(opened_tag(prefix@, local@, span@)));
        }
    }

    /// Adds a child to the innermost open tag.
    fn push_child(&mut self, node: Node<'src>, src: &'src str)
        requires
            old(self)@.wf(src.spec_bytes()),
            old(self)@.stack.len() >= 1,
            node@.storable(Some(src.spec_bytes())),
        ensures
            final(self)@ == old(self)@.with_child(node@),
            final(self)@.wf(src.spec_bytes()),
    {
        let ghost before = self@.stack;
        let mut top = self.stack.pop().unwrap();
        let ghost lower = Seq::new(self.stack@.len(), |i: int| self.stack@[i]@);
        proof {
            assert(top@ == before.last());
            assert(lower =~= before.drop_last());
            assert(top@.storable(Some(src.spec_bytes())));
        }
        top.push_child(node);
        proof {
            assert(top.children@.len() == top.children.len());
            assert(top@.storable(Some(src.spec_bytes())));
        }
        self.stack.push(top);
        proof {
            assert(self@.stack =~= lower.push(top@));
        }
    }

    /// Adds an attribute to the innermost open tag.
    fn push_attribute(&mut self, attribute: NodeAttribute<'src>, src: &'src str)
        requires
            old(self)@.wf(src.spec_bytes()),
            old(self)@.stack.len() >= 1,
            attribute@.storable(Some(src.spec_bytes())),
        ensures
            final(self)@ == old(self)@.with_attribute(attribute@),
            final(self)@.wf(src.spec_bytes()),
    {
        let ghost before = self@.stack;
        let mut top = self.stack.pop().unwrap();
        let ghost lower = Seq::new(self.stack@.len(), |i: int| self.stack@[i]@);
        proof {
            assert(top@ == before.last());
            assert(lower =~= before.drop_last());
            assert(top@.storable(Some(src.spec_bytes())));
        }
        top.push_attribute(attribute);
        proof {
            assert(top.attributes@.len() == top.attributes.len());
            assert(top@.storable(Some(src.spec_bytes())));
        }
        self.stack.push(top);
        proof {
            assert(self@.stack =~= lower.push(top@));
        }
    }

    /// Adds a node to what stands before the root.
    fn push_prolog(&mut self, node: Node<'src>, src: &'src str)
        requires
            old(self)@.wf(src.spec_bytes()),
            node@.storable(Some(src.spec_bytes())),
            !(node@ is Child),
        ensures
            final(self)@ == (BuilderView { prolog: old(self)@.prolog.push(node@), ..old(self)@ }),
            final(self)@.wf(src.spec_bytes()),
    {
        self.prolog.push(node);
        proof {
            assert(self.prolog@.len() == self.prolog.len());
            assert(self@.prolog =~= old(self)@.prolog.push(node@));
            assert(self@.stack =~= old(self)@.stack);
        }
    }

    /// Adds a node to what stands behind the root.
    fn push_epilog(&mut self, node: Node<'src>, src: &'src str)
        requires
            old(self)@.wf(src.spec_bytes()),
            node@.storable(Some(src.spec_bytes())),
            !(node@ is Child),
        ensures
            final(self)@ == (BuilderView { epilog: old(self)@.epilog.push(node@), ..old(self)@ }),
            final(self)@.wf(src.spec_bytes()),
    {
        self.epilog.push(node);
        proof {
            assert(self.epilog@.len() == self.epilog.len());
            assert(self@.epilog =~= old(self)@.epilog.push(node@));
            assert(self@.stack =~= old(self)@.stack);
        }
    }

    /// Closes the innermost open tag at a token with the span `end`.
    #[verifier::rlimit(100)]
    fn close(&mut self, end: &StrSpan<'src>, src: &'src str)
        requires
            old(self)@.wf(src.spec_bytes()),
            old(self)@.stack.len() >= 1,
            end@.lies_in(src.spec_bytes()),
        ensures
            final(self)@ == old(self)@.closed(end@, src@),
            final(self)@.wf(src.spec_bytes()),
    {
        let ghost before = self@.stack;
        let mut node = self.stack.pop().unwrap();
        let ghost lower = Seq::new(self.stack@.len(), |i: int| self.stack@[i]@);
        proof {
            assert(node@ == before.last());
            assert(lower =~= before.drop_last());
            assert(node@.storable(Some(src.spec_bytes())));
        }
        node.extend_span(end, src);
        proof {
            assert(node@ == old(self)@.closing(end@, src@));
            assert(node@.storable(Some(src.spec_bytes())));
        }
        if self.stack.len() == 0 {
            self.state = ParserState::Epilog;
            self.stack.push(node);
            proof {
                assert(self@.stack =~= seq![node@]);
            }
        } else {
            self.state = ParserState::TagChildren;
            proof {
                assert(self@.stack =~= lower);
                assert(self@ == (BuilderView {
                    state: ParserState::TagChildren,
                    stack: lower,
                    ..old(self)@
                }));
            }
            self.push_child(Node::Child(node), src);
        }
    }

    /// Handles a token before the root.
    #[verifier::rlimit(100)]
    fn step_prolog(&mut self, lexeme: Lexeme<'src>, src: &'src str) -> (r: Result<(), XmlError>)
        requires
            old(self)@.wf(src.spec_bytes()),
            old(self)@.state == ParserState::Prolog,
            lexeme.lies_in(src.spec_bytes()),
        ensures
            match old(self)@.prolog_step(lexeme) {
                Ok(next) => r is Ok && final(self)@ == next && final(self)@.wf(src.spec_bytes()),
                Err(fault) => r matches Err(e) && e@ == fault.error(src@),
            },
    {
        match lexeme {
            Lexeme::ElementStart { prefix, local, span } => {
                self.push_frame(prefix, local, span, src);
                Ok(())
            },
            Lexeme::Comment { text, .. } => {
                self.push_prolog(Node::Comment(text), src);
                Ok(())
            },
            Lexeme::Declaration { version, encoding, standalone, span } => {
                if self.prolog.len() > 0 {
                    return Err(fault_at(src, span, XmlErrorKind::DeclarationNotFirst));
                }
                self.declaration = Some(
                    DeclarationNode::new(version, encoding, standalone).with_span(span),
                );
                proof {
                    assert(self@.stack =~= old(self)@.stack);
                }
                Ok(())
            },
            Lexeme::ProcessingInstruction { target, content, span } => {
                let node = ProcessingInstructionNode::new(span, target, content);
                self.push_prolog(Node::ProcessingInstruction(node), src);
                Ok(())
            },
            Lexeme::Cdata { text, span } => {
                let node = CdataNode::new(span, text);
                self.push_prolog(Node::Cdata(node), src);
                Ok(())
            },
            _ => Err(unexpected_at(src, &lexeme, " in prolog section")),
        }
    }

    /// Handles a token among the attributes of a tag.
    #[verifier::rlimit(100)]
    fn step_attributes(&mut self, lexeme: Lexeme<'src>, src: &'src str) -> (r: Result<
        (),
        XmlError,
    >)
        requires
            old(self)@.wf(src.spec_bytes()),
            old(self)@.state == ParserState::TagAttributes,
            lexeme.lies_in(src.spec_bytes()),
        ensures
            match old(self)@.attributes_step(lexeme, src@) {
                Ok(next) => r is Ok && final(self)@ == next && final(self)@.wf(src.spec_bytes()),
                Err(fault) => r matches Err(e) && e@ == fault.error(src@),
            },
    {
        match lexeme {
            Lexeme::Attribute { prefix, local, value, span } => {
                let attribute = NodeAttribute::new(maybe_empty(prefix), local, value).with_span(
                    span,
                );
                self.push_attribute(attribute, src);
                Ok(())
            },
            Lexeme::Comment { text, .. } => {
                self.push_child(Node::Comment(text), src);
                Ok(())
            },
            Lexeme::ElementEnd { end: TagEnd::Open, .. } => {
                self.state = ParserState::TagChildren;
                proof {
                    assert(self@.stack =~= old(self)@.stack);
                }
                Ok(())
            },
            Lexeme::ElementEnd { end: TagEnd::Empty, span } => {
                self.close(&span, src);
                Ok(())
            },
            Lexeme::Text { .. } => Ok(()),
            _ => Err(unexpected_at(src, &lexeme, " in tag attributes")),
        }
    }

    /// Handles a token among the children of a tag.
    #[verifier::rlimit(100)]
    fn step_children(&mut self, lexeme: Lexeme<'src>, src: &'src str) -> (r: Result<(), XmlError>)
        requires
            old(self)@.wf(src.spec_bytes()),
            old(self)@.state == ParserState::TagChildren,
            lexeme.lies_in(src.spec_bytes()),
        ensures
            match old(self)@.children_step(lexeme, src@) {
                Ok(next) => r is Ok && final(self)@ == next && final(self)@.wf(src.spec_bytes()),
                Err(fault) => r matches Err(e) && e@ == fault.error(src@),
            },
    {
        match lexeme {
            Lexeme::ElementStart { prefix, local, span } => {
                self.push_frame(prefix, local, span, src);
                Ok(())
            },
            Lexeme::Cdata { text, span } => {
                let node = CdataNode::new(span, text);
                self.push_child(Node::Cdata(node), src);
                Ok(())
            },
            Lexeme::Text { text } => {
                proof {
                    encode_utf8_valid_utf8(src@);
                    if text_node(text@) is Some {
                        lemma_text_node_lies_in(text@, src.spec_bytes());
                    } else {
                        lemma_lead_fits(text@.text);
                    }
                }
                let raw = text.text();
                let tail = trim_start(raw);
                let inner = trim_end(tail);
                if inner.is_empty() {
                    return Ok(());
                }
                // The length of the source is read so that the verifier knows it
                // to fit a `usize`.
                let _ = byte_len(src);
                let lead = byte_len(raw) - byte_len(tail);
                let node = TextNode::new(text, StrSpan::new(inner, text.start() + lead));
                self.push_child(Node::Text(node), src);
                Ok(())
            },
            Lexeme::Comment { text, .. } => {
                self.push_child(Node::Comment(text), src);
                Ok(())
            },
            Lexeme::ProcessingInstruction { target, content, span } => {
                let node = ProcessingInstructionNode::new(span, target, content);
                self.push_child(Node::ProcessingInstruction(node), src);
                Ok(())
            },
            Lexeme::ElementEnd { end: TagEnd::Close(prefix, local), span } => {
                let last = self.stack.len() - 1;
                let closes = self.stack[last].name().equals(
                    match maybe_empty(prefix) {
                        Some(p) => Some(p.text()),
                        None => None,
                    },
                    local.text(),
                );
                if !closes {
                    let name = self.stack[last].name().qualified();
                    return Err(fault_at(src, span, XmlErrorKind::UnclosedTag(name)));
                }
                self.close(&span, src);
                Ok(())
            },
            _ => Err(unexpected_at(src, &lexeme, " inside tag")),
        }
    }

    /// Handles a token behind the root.
    fn step_epilog(&mut self, lexeme: Lexeme<'src>, src: &'src str) -> (r: Result<(), XmlError>)
        requires
            old(self)@.wf(src.spec_bytes()),
            old(self)@.state == ParserState::Epilog,
            lexeme.lies_in(src.spec_bytes()),
        ensures
            match old(self)@.epilog_step(lexeme) {
                Ok(next) => r is Ok && final(self)@ == next && final(self)@.wf(src.spec_bytes()),
                Err(fault) => r matches Err(e) && e@ == fault.error(src@),
            },
    {
        match lexeme {
            Lexeme::Comment { text, .. } => {
                self.push_epilog(Node::Comment(text), src);
                Ok(())
            },
            Lexeme::Cdata { text, span } => {
                let node = CdataNode::new(span, text);
                self.push_epilog(Node::Cdata(node), src);
                Ok(())
            },
            Lexeme::ProcessingInstruction { target, content, span } => {
                let node = ProcessingInstructionNode::new(span, target, content);
                self.push_epilog(Node::ProcessingInstruction(node), src);
                Ok(())
            },
            _ => Err(unexpected_at(src, &lexeme, " in after root")),
        }
    }

    /// Handles a token in the state that the builder is in.
    fn step(&mut self, lexeme: Lexeme<'src>, src: &'src str) -> (r: Result<(), XmlError>)
        requires
            old(self)@.wf(src.spec_bytes()),
            lexeme.lies_in(src.spec_bytes()),
        ensures
            match old(self)@.step(lexeme, src@) {
                Ok(next) => r is Ok && final(self)@ == next && final(self)@.wf(src.spec_bytes()),
                Err(fault) => r matches Err(e) && e@ == fault.error(src@),
            },
    {
        match self.state {
            ParserState::Prolog => self.step_prolog(lexeme, src),
            ParserState::TagAttributes => self.step_attributes(lexeme, src),
            ParserState::TagChildren => self.step_children(lexeme, src),
            ParserState::Epilog => self.step_epilog(lexeme, src),
        }
    }

    /// Whether the builder stands before the root.
    fn in_prolog(&self) -> (r: bool)
        ensures
            r == (self@.state == ParserState::Prolog),
    {
        match self.state {
            ParserState::Prolog => true,
            _ => false,
        }
    }

    /// Ends the document at the end of the tokens.
    fn finish(self, src: &'src str) -> (r: XmlResult<Document<'src>>)
        requires
            self@.wf(src.spec_bytes()),
        ensures
            match self@.finish(src@) {
                Ok(doc) => r matches Ok(d) && d@ == doc && d@.src == Some(src@) && d@.storable()
                    && d@.single_rooted(),
                Err(fault) => r matches Err(e) && e@ == fault.error(src@),
            },
    {
        let mut stack = self.stack;
        let ghost before = self@.stack;
        if stack.len() == 0 {
            return Err(fault_at(src, StrSpan::end(src), XmlErrorKind::UnexpectedEof));
        }
        let last = stack.pop().unwrap();
        proof {
            assert(last@ == before.last());
        }
        if stack.len() > 0 {
            let name = last.name().qualified();
            return Err(fault_at(src, *last.span(), XmlErrorKind::UnclosedTag(name)));
        }
        proof {
            assert(last@ == before[0]);
        }
        Ok(Document::from_parts(Some(src), self.declaration, self.prolog, last, self.epilog))
    }
}

/// The white space that a text starts with takes no more bytes than the
/// text.
pub proof fn lemma_lead_fits(text: Seq<char>)
    ensures
        encode_utf8(strip_leading(text)).len() <= encode_utf8(text).len(),
{
    let a = strip_leading(text);
    lemma_strip_leading_suffix(text);
    let k = text.len() - a.len();
    assert(text =~= text.subrange(0, k) + a);
    lemma_encode_concat(text.subrange(0, k), a);
}

/// The document type declaration that a token starts, without entities;
/// an error where the token starts none.
pub open spec fn dtd_opened(start: Lexeme<'_>) -> Result<DtdView, Fault> {
    match start {
        Lexeme::DtdStart { name, external_id, span } => Ok(
            DtdView {
                span: span@,
                name: name@,
                external_id: opt_id_view(external_id),
                entities: Seq::empty(),
            },
        ),
        Lexeme::EmptyDtd { name, external_id, span } => Ok(
            DtdView {
                span: span@,
                name: name@,
                external_id: opt_id_view(external_id),
                entities: Seq::empty(),
            },
        ),
        _ => Err(
            Fault {
                kind: ErrorKindView::Custom("Expected DTD start or empty DTD"@),
                span: start.whole(),
            },
        ),
    }
}

/// What the tokens behind the start of a document type declaration add to
/// it, and how many of them belong to it: every entity declaration up to
/// the token that ends the declaration. Any other token is an error, and
/// so is the end of the tokens.
pub open spec fn dtd_entities(dtd: DtdView, rest: Seq<Lexed<'_>>, src: Seq<char>) -> (
    Result<DtdView, Fault>,
    nat,
)
    decreases rest.len(),
{
    if rest.len() == 0 {
        (Err(Fault { kind: ErrorKindView::UnexpectedEof, span: end_span(src) }), 0)
    } else {
        match rest[0] {
            Err(e) => (Err(Fault { kind: ErrorKindView::Xml(e), span: SpanView::empty() }), 1),
            Ok(Lexeme::DtdEnd { span }) => (
                Ok(DtdView { span: dtd.span.cover(span@, encode_utf8(src)), ..dtd }),
                1,
            ),
            Ok(Lexeme::EntityDeclaration { name, definition, span }) => {
                let more = dtd_entities(
                    DtdView {
                        entities: dtd.entities.push(
                            DtdEntityView { span: span@, name: name@, definition: definition@ },
                        ),
                        ..dtd
                    },
                    rest.drop_first(),
                    src,
                );
                (more.0, more.1 + 1)
            },
            Ok(other) => (
                Err(
                    Fault {
                        kind: ErrorKindView::Custom("Expected Entity or DTD end"@),
                        span: other.whole(),
                    },
                ),
                1,
            ),
        }
    }
}

/// The document type declaration that a token starts and the tokens behind
/// it complete, and how many of those belong to it.
pub open spec fn dtd_parse(start: Lexeme<'_>, rest: Seq<Lexed<'_>>, src: Seq<char>) -> (
    Result<DtdView, Fault>,
    nat,
) {
    match dtd_opened(start) {
        Err(fault) => (Err(fault), 0),
        Ok(dtd) => if start is DtdStart {
            dtd_entities(dtd, rest, src)
        } else {
            (Ok(dtd), 0)
        },
    }
}

/// What the builder makes of the tokens that are left: the document at
/// their end, or the first error. An error of the tokenizer ends the
/// stream. Before the root, a token that starts a document type
/// declaration takes the tokens of the declaration with it.
pub open spec fn run(b: BuilderView, items: Seq<Lexed<'_>>, src: Seq<char>) -> Result<
    DocumentView,
    Fault,
>
    decreases items.len(),
{
    if items.len() == 0 {
        b.finish(src)
    } else {
        match items[0] {
            Err(e) => Err(Fault { kind: ErrorKindView::Xml(e), span: SpanView::empty() }),
            Ok(lexeme) => {
                if b.state == ParserState::Prolog && (lexeme is DtdStart || lexeme is EmptyDtd) {
                    let (dtd, used) = dtd_parse(lexeme, items.drop_first(), src);
                    match dtd {
                        Err(fault) => Err(fault),
                        Ok(dtd) => if used < items.len() {
                            run(b.with_dtd(dtd), items.skip(1 + used as int), src)
                        } else {
                            Err(Fault { kind: ErrorKindView::UnexpectedEof, span: end_span(src) })
                        },
                    }
                } else {
                    match b.step(lexeme, src) {
                        Err(fault) => Err(fault),
                        Ok(next) => run(next, items.drop_first(), src),
                    }
                }
            },
        }
    }
}

/// The document that a stream of tokens over the source `src` stands for,
/// or the first error in it.
pub open spec fn parsed(items: Seq<Lexed<'_>>, src: Seq<char>) -> Result<DocumentView, Fault> {
    run(BuilderView::initial(), items, src)
}

/// Every token behind the first of a stream lies in the source where every
/// token of the stream does.
pub proof fn lemma_rest_lies_in(items: Seq<Lexed<'_>>, n: int, src: Seq<u8>)
    requires
        stream_lies_in(items, src),
        0 <= n <= items.len(),
    ensures
        stream_lies_in(items.skip(n), src),
{
    assert forall|i: int| 0 <= i < items.skip(n).len() implies match #[trigger] items.skip(n)[i] {
        Ok(lexeme) => lexeme.lies_in(src),
        Err(_) => true,
    } by {
        assert(items.skip(n)[i] == items[i + n]);
    }
}

impl<'src> DtdNode<'src> {
    /// Reads a document type declaration: `start` is the token that starts
    /// it, and `source` yields the tokens behind it. Where the declaration
    /// has entities, they are read up to the token that ends it.
    ///
    /// # Errors
    /// Where `start` starts no declaration, where another token stands
    /// among the entities, where the tokenizer fails, and where the tokens
    /// end before the declaration does.
    #[verifier::rlimit(100)]
    pub fn parse(start: Lexeme<'src>, source: &mut Lexemes<'_, 'src>, src: &'src str) -> (r:
        XmlResult<Self>)
        requires
            start.lies_in(src.spec_bytes()),
            stream_lies_in(old(source).pending(), src.spec_bytes()),
        ensures
            dtd_parse(start, old(source).pending(), src@).1 <= old(source).pending().len(),
            final(source).pending() == old(source).pending().skip(
                dtd_parse(start, old(source).pending(), src@).1 as int,
            ),
            match dtd_parse(start, old(source).pending(), src@).0 {
                Ok(dtd) => r matches Ok(node) && node@ == dtd && node@.storable(
                    Some(src.spec_bytes()),
                ),
                Err(fault) => r matches Err(e) && e@ == fault.error(src@),
            },
    {
        let ghost all = source.pending();
        proof {
            assert(all.skip(0) =~= all);
        }
        let mut node = match start {
            Lexeme::DtdStart { name, external_id, span } => DtdNode::new(span, name, external_id),
            Lexeme::EmptyDtd { name, external_id, span } => {
                return Ok(DtdNode::new(span, name, external_id));
            },
            _ => {
                return Err(
                    fault_at(
                        src,
                        start.span(),
                        XmlErrorKind::Custom("Expected DTD start or empty DTD".to_owned()),
                    ),
                );
            },
        };
        let ghost first = node@;
        let ghost mut used: nat = 0;
        loop
            invariant
                used <= all.len(),
                source.pending() == all.skip(used as int),
                stream_lies_in(all, src.spec_bytes()),
                node@.storable(Some(src.spec_bytes())),
                dtd_entities(first, all, src@) == (
                    dtd_entities(node@, source.pending(), src@).0,
                    dtd_entities(node@, source.pending(), src@).1 + used,
                ),
                dtd_parse(start, all, src@) == dtd_entities(first, all, src@),
                all == old(source).pending(),
            decreases source.pending().len(),
        {
            let ghost rest = source.pending();
            proof {
                lemma_rest_lies_in(all, used as int, src.spec_bytes());
            }
            let item = match source.next() {
                None => {
                    return Err(fault_at(src, StrSpan::end(src), XmlErrorKind::UnexpectedEof));
                },
                Some(item) => item,
            };
            proof {
                assert(rest.drop_first() =~= all.skip(used + 1 as int));
            }
            let lexeme = match item {
                Err(e) => {
                    return Err(fault_at(src, StrSpan::empty(), XmlErrorKind::Xml(e)));
                },
                Ok(lexeme) => lexeme,
            };
            match lexeme {
                Lexeme::DtdEnd { span } => {
                    node.extend_span(&span, src);
                    return Ok(node);
                },
                Lexeme::EntityDeclaration { name, definition, span } => {
                    node.push_entity(DtdEntity::new(span, name, definition));
                    proof {
                        assert(node.entities@.len() == node.entities.len());
                    }
                },
                _ => {
                    return Err(
                        fault_at(
                            src,
                            lexeme.span(),
                            XmlErrorKind::Custom("Expected Entity or DTD end".to_owned()),
                        ),
                    );
                },
            }
            proof {
                used = used + 1;
            }
        }
    }
}

impl<'src> Document<'src> {
    /// Builds the document that the tokens of `source` stand for. Every
    /// span of every token has to be a piece of `src` at its offset.
    ///
    /// # Errors
    /// The first error that `parsed` names: a token where it may not
    /// stand, a tag that another closes, an XML declaration that does not
    /// stand first, an error of the tokenizer, or an end that comes too
    /// early.
    #[verifier::rlimit(100)]
    pub fn parse(src: &'src str, source: &mut Lexemes<'_, 'src>) -> (r: XmlResult<Self>)
        requires
            stream_lies_in(old(source).pending(), src.spec_bytes()),
        ensures
            match parsed(old(source).pending(), src@) {
                Ok(doc) => r matches Ok(d) && d@ == doc && d@.src == Some(src@) && d@.storable()
                    && d@.single_rooted(),
                Err(fault) => r matches Err(e) && e@ == fault.error(src@),
            },
    {
        let ghost all = source.pending();
        let mut builder = Builder::new();
        // The length of the source is read so that the verifier knows it to
        // fit a `usize`.
        let _ = byte_len(src);
        loop
            invariant
                builder@.wf(src.spec_bytes()),
                stream_lies_in(source.pending(), src.spec_bytes()),
                run(builder@, source.pending(), src@) == parsed(all, src@),
                all == old(source).pending(),
            decreases source.pending().len(),
        {
            let ghost rest = source.pending();
            let item = match source.next() {
                None => {
                    return builder.finish(src);
                },
                Some(item) => item,
            };
            proof {
                lemma_rest_lies_in(rest, 1, src.spec_bytes());
                assert(rest.skip(1) =~= rest.drop_first());
            }
            let lexeme = match item {
                Err(e) => {
                    return Err(fault_at(src, StrSpan::empty(), XmlErrorKind::Xml(e)));
                },
                Ok(lexeme) => lexeme,
            };
            let starts_dtd = match lexeme {
                Lexeme::DtdStart { .. } => true,
                Lexeme::EmptyDtd { .. } => true,
                _ => false,
            };
            if starts_dtd && builder.in_prolog() {
                let ghost behind = source.pending();
                let node = DtdNode::parse(lexeme, source, src)?;
                proof {
                    let used = dtd_parse(lexeme, behind, src@).1;
                    lemma_rest_lies_in(behind, used as int, src.spec_bytes());
                    assert(behind.skip(used as int) =~= rest.skip(1 + used as int));
                }
                builder.push_prolog(Node::DocumentType(node), src);
            } else {
                builder.step(lexeme, src)?;
            }
        }
    }

    /// Parses a text into a document whose spans are pieces of the text.
    ///
    /// # Errors
    /// The first error that `parsed` names in what the tokenizer yields on
    /// the text.
    pub fn parse_str(source: &'src str) -> (r: XmlResult<Self>)
        ensures
            match parsed(token_stream(source), source@) {
                Ok(doc) => r matches Ok(d) && d@ == doc && d@.src == Some(source@) && d@.storable()
                    && d@.single_rooted(),
                Err(fault) => r matches Err(e) && e@ == fault.error(source@),
            },
    {
        let mut lexemes = Lexemes::of_text(source);
        Document::parse(source, &mut lexemes)
    }

    /// Builds the document that a list of tokens stands for, where every
    /// span of every token is a piece of `src` at its offset; `None`
    /// otherwise.
    #[verifier::rlimit(100)]
    pub fn checked_from_lexemes(src: &'src str, lexemes: &[Lexeme<'src>]) -> (r: Option<
        XmlResult<Self>,
    >)
        ensures
            r is Some <==> stream_lies_in(as_stream(lexemes@), src.spec_bytes()),
            r matches Some(built) ==> match parsed(as_stream(lexemes@), src@) {
                Ok(doc) => built matches Ok(d) && d@ == doc && d@.src == Some(src@)
                    && d@.storable() && d@.single_rooted(),
                Err(fault) => built matches Err(e) && e@ == fault.error(src@),
            },
    {
        let mut i: usize = 0;
        while i < lexemes.len()
            invariant
                i <= lexemes@.len(),
                forall|j: int| 0 <= j < i ==> (#[trigger] lexemes@[j]).lies_in(src.spec_bytes()),
            decreases lexemes@.len() - i,
        {
            if !lexemes[i].placed_in(src) {
                proof {
                    assert(as_stream(lexemes@)[i as int] == Ok::<Lexeme<'src>, xmlparser::Error>(
                        lexemes@[i as int],
                    ));
                }
                return None;
            }
            i += 1;
        }
        proof {
            assert forall|j: int| 0 <= j < as_stream(lexemes@).len() implies match #[trigger] as_stream(
                lexemes@,
            )[j] {
                Ok(lexeme) => lexeme.lies_in(src.spec_bytes()),
                Err(_) => true,
            } by {
                assert(as_stream(lexemes@)[j] == Ok::<Lexeme<'src>, xmlparser::Error>(lexemes@[j]));
            }
        }
        Some(Document::from_lexemes(src, lexemes))
    }

    /// Builds the document that a list of tokens stands for. Every span of
    /// every token has to be a piece of `src` at its offset.
    ///
    /// # Errors
    /// The first error that `parsed` names in the list.
    pub fn from_lexemes(src: &'src str, lexemes: &[Lexeme<'src>]) -> (r: XmlResult<Self>)
        requires
            stream_lies_in(as_stream(lexemes@), src.spec_bytes()),
        ensures
            match parsed(as_stream(lexemes@), src@) {
                Ok(doc) => r matches Ok(d) && d@ == doc && d@.src == Some(src@) && d@.storable()
                    && d@.single_rooted(),
                Err(fault) => r matches Err(e) && e@ == fault.error(src@),
            },
    {
        let mut source = Lexemes::of_list(lexemes);
        Document::parse(src, &mut source)
    }
}

} // verus!
