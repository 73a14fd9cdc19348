//! The lexical tokens that the tree builder consumes, and where they come
//! from: the tokenizer run over a text, or a list handed in.
use vstd::prelude::*;
use vstd::string::*;
use crate::node::dtd::{EntityDefinition, ExternalId};
use crate::strspan::{SpanView, StrSpan};

verus! {

/// Declares the type `xmlparser::Token`, a token as the tokenizer hands it
/// out, of which only `lexeme_of` is known here.
#[verifier::external_type_specification]
#[verifier::external_body]
pub struct ExRawToken<'a>(xmlparser::Token<'a>);

/// Declares the type `xmlparser::Tokenizer`, of which only `pending_tokens`
/// is known here.
#[verifier::external_type_specification]
#[verifier::external_body]
pub struct ExTokenizer<'a>(xmlparser::Tokenizer<'a>);

/// How an element token ends.
#[derive(Clone, Copy, PartialEq, Eq, Debug)]
pub enum TagEnd<'a> {
    /// `>`: the tag is open and children follow.
    Open,
    /// `</prefix:local>`: the tag of this prefix and local name closes.
    Close(StrSpan<'a>, StrSpan<'a>),
    /// `/>`: the tag closes without children.
    Empty,
}

/// A lexical token. Every span is a piece of the text that was tokenized,
/// at its offset; a name without prefix has the empty span at offset zero
/// as its prefix.
#[derive(Clone, Copy, PartialEq, Eq, Debug)]
pub enum Lexeme<'a> {
    /// `<?xml version="1.0" encoding="UTF-8" standalone="yes"?>`
    Declaration {
        version: StrSpan<'a>,
        encoding: Option<StrSpan<'a>>,
        standalone: Option<bool>,
        span: StrSpan<'a>,
    },
    /// `<?target content?>`
    ProcessingInstruction { target: StrSpan<'a>, content: Option<StrSpan<'a>>, span: StrSpan<'a> },
    /// `<!-- text -->`
    Comment { text: StrSpan<'a>, span: StrSpan<'a> },
    /// `<!DOCTYPE name SYSTEM "id" [`
    DtdStart { name: StrSpan<'a>, external_id: Option<ExternalId<'a>>, span: StrSpan<'a> },
    /// `<!DOCTYPE name SYSTEM "id">`
    EmptyDtd { name: StrSpan<'a>, external_id: Option<ExternalId<'a>>, span: StrSpan<'a> },
    /// `<!ENTITY name "value">`
    EntityDeclaration { name: StrSpan<'a>, definition: EntityDefinition<'a>, span: StrSpan<'a> },
    /// `]>`
    DtdEnd { span: StrSpan<'a> },
    /// `<prefix:local`
    ElementStart { prefix: StrSpan<'a>, local: StrSpan<'a>, span: StrSpan<'a> },
    /// `prefix:local="value"`
    Attribute { prefix: StrSpan<'a>, local: StrSpan<'a>, value: StrSpan<'a>, span: StrSpan<'a> },
    /// `>`, `/>` or `</prefix:local>`
    ElementEnd { end: TagEnd<'a>, span: StrSpan<'a> },
    /// What stands between `>` and `<`, white space included.
    Text { text: StrSpan<'a> },
    /// `<![CDATA[text]]>`
    Cdata { text: StrSpan<'a>, span: StrSpan<'a> },
}

/// True when an optional span of a token is absent or lies in the source.
pub open spec fn opt_span_lies_in(s: Option<StrSpan<'_>>, src: Seq<u8>) -> bool {
    match s {
        Some(v) => v@.lies_in(src),
        None => true,
    }
}

/// True when an optional identifier of a token is absent or all of its spans
/// lie in the source.
pub open spec fn opt_id_lies_in(id: Option<ExternalId<'_>>, src: Seq<u8>) -> bool {
    match id {
        Some(v) => v@.storable(Some(src)),
        None => true,
    }
}

/// Whether an optional span is absent or a piece of `src` at its offset.
fn opt_span_placed_in(s: &Option<StrSpan<'_>>, src: &str) -> (r: bool)
    ensures
        r == opt_span_lies_in(*s, src.spec_bytes()),
{
    match s {
        Some(v) => v.placed_in(src),
        None => true,
    }
}

/// Whether every span of an identifier is a piece of `src` at its offset.
fn id_placed_in(id: &ExternalId<'_>, src: &str) -> (r: bool)
    ensures
        r == id@.storable(Some(src.spec_bytes())),
{
    // The length of the source is read so that the verifier knows it to
    // fit a `usize`.
    let _ = crate::utf8::byte_len(src);
    match id {
        ExternalId::System(s) => s.placed_in(src),
        ExternalId::Public(p, s) => p.placed_in(src) && s.placed_in(src),
    }
}

/// Whether an optional identifier is absent or every span of it is a piece
/// of `src` at its offset.
fn opt_id_placed_in(id: &Option<ExternalId<'_>>, src: &str) -> (r: bool)
    ensures
        r == opt_id_lies_in(*id, src.spec_bytes()),
{
    match id {
        Some(v) => id_placed_in(v, src),
        None => true,
    }
}

impl<'a> Lexeme<'a> {
    /// The span that the whole token covers.
    pub open spec fn whole(self) -> SpanView {
        match self {
            Lexeme::Declaration { span, .. } => span@,
            Lexeme::ProcessingInstruction { span, .. } => span@,
            Lexeme::Comment { span, .. } => span@,
            Lexeme::DtdStart { span, .. } => span@,
            Lexeme::EmptyDtd { span, .. } => span@,
            Lexeme::EntityDeclaration { span, .. } => span@,
            Lexeme::DtdEnd { span } => span@,
            Lexeme::ElementStart { span, .. } => span@,
            Lexeme::Attribute { span, .. } => span@,
            Lexeme::ElementEnd { span, .. } => span@,
            Lexeme::Text { text } => text@,
            Lexeme::Cdata { span, .. } => span@,
        }
    }

    /// True when every span of the token lies in the source with the UTF-8
    /// bytes `src`, which is not longer than an offset can say.
    pub open spec fn lies_in(self, src: Seq<u8>) -> bool {
        &&& src.len() <= usize::MAX
        &&& match self {
            Lexeme::Declaration { version, encoding, standalone, span } => {
                version@.lies_in(src) && opt_span_lies_in(encoding, src) && span@.lies_in(src)
            },
            Lexeme::ProcessingInstruction { target, content, span } => {
                target@.lies_in(src) && opt_span_lies_in(content, src) && span@.lies_in(src)
            },
            Lexeme::Comment { text, span } => text@.lies_in(src) && span@.lies_in(src),
            Lexeme::DtdStart { name, external_id, span } => {
                name@.lies_in(src) && opt_id_lies_in(external_id, src) && span@.lies_in(src)
            },
            Lexeme::EmptyDtd { name, external_id, span } => {
                name@.lies_in(src) && opt_id_lies_in(external_id, src) && span@.lies_in(src)
            },
            Lexeme::EntityDeclaration { name, definition, span } => {
                name@.lies_in(src) && definition@.storable(Some(src)) && span@.lies_in(src)
            },
            Lexeme::DtdEnd { span } => span@.lies_in(src),
            Lexeme::ElementStart { prefix, local, span } => {
                prefix@.lies_in(src) && local@.lies_in(src) && span@.lies_in(src)
            },
            Lexeme::Attribute { prefix, local, value, span } => {
                prefix@.lies_in(src) && local@.lies_in(src) && value@.lies_in(src)
                    && span@.lies_in(src)
            },
            Lexeme::ElementEnd { end, span } => span@.lies_in(src) && match end {
                TagEnd::Close(prefix, local) => prefix@.lies_in(src) && local@.lies_in(src),
                _ => true,
            },
            Lexeme::Text { text } => text@.lies_in(src),
            Lexeme::Cdata { text, span } => text@.lies_in(src) && span@.lies_in(src),
        }
    }

    /// What the kind of the token is called in a message.
    pub open spec fn kind_name(self) -> Seq<char> {
        match self {
            Lexeme::Declaration { .. } => "declaration"@,
            Lexeme::ProcessingInstruction { .. } => "processing instruction"@,
            Lexeme::Comment { .. } => "comment"@,
            Lexeme::DtdStart { .. } => "doctype"@,
            Lexeme::EmptyDtd { .. } => "doctype"@,
            Lexeme::EntityDeclaration { .. } => "entity declaration"@,
            Lexeme::DtdEnd { .. } => "doctype end"@,
            Lexeme::ElementStart { .. } => "element start"@,
            Lexeme::Attribute { .. } => "attribute"@,
            Lexeme::ElementEnd { .. } => "element end"@,
            Lexeme::Text { .. } => "text"@,
            Lexeme::Cdata { .. } => "cdata"@,
        }
    }

    /// Whether every span of the token is a piece of `src` at its offset.
    #[verifier::rlimit(100)]
    pub fn placed_in(&self, src: &str) -> (r: bool)
        ensures
            r == self.lies_in(src.spec_bytes()),
    {
        // The length of the source is read so that the verifier knows it to
        // fit a `usize`.
        let _ = crate::utf8::byte_len(src);
        match self {
            Lexeme::Declaration { version, encoding, standalone, span } => {
                version.placed_in(src) && opt_span_placed_in(encoding, src) && span.placed_in(src)
            },
            Lexeme::ProcessingInstruction { target, content, span } => {
                target.placed_in(src) && opt_span_placed_in(content, src) && span.placed_in(src)
            },
            Lexeme::Comment { text, span } => text.placed_in(src) && span.placed_in(src),
            Lexeme::DtdStart { name, external_id, span } => {
                name.placed_in(src) && opt_id_placed_in(external_id, src) && span.placed_in(src)
            },
            Lexeme::EmptyDtd { name, external_id, span } => {
                name.placed_in(src) && opt_id_placed_in(external_id, src) && span.placed_in(src)
            },
            Lexeme::EntityDeclaration { name, definition, span } => {
                name.placed_in(src) && (match definition {
                    EntityDefinition::EntityValue(v) => v.placed_in(src),
                    EntityDefinition::ExternalId(id) => id_placed_in(id, src),
                }) && span.placed_in(src)
            },
            Lexeme::DtdEnd { span } => span.placed_in(src),
            Lexeme::ElementStart { prefix, local, span } => {
                prefix.placed_in(src) && local.placed_in(src) && span.placed_in(src)
            },
            Lexeme::Attribute { prefix, local, value, span } => {
                prefix.placed_in(src) && local.placed_in(src) && value.placed_in(src)
                    && span.placed_in(src)
            },
            Lexeme::ElementEnd { end, span } => span.placed_in(src) && match end {
                TagEnd::Close(prefix, local) => prefix.placed_in(src) && local.placed_in(src),
                _ => true,
            },
            Lexeme::Text { text } => text.placed_in(src),
            Lexeme::Cdata { text, span } => text.placed_in(src) && span.placed_in(src),
        }
    }

    /// The span that the whole token covers.
    pub fn span(&self) -> (r: StrSpan<'a>)
        ensures
            r@ == self.whole(),
    {
        match self {
            Lexeme::Declaration { span, .. } => *span,
            Lexeme::ProcessingInstruction { span, .. } => *span,
            Lexeme::Comment { span, .. } => *span,
            Lexeme::DtdStart { span, .. } => *span,
            Lexeme::EmptyDtd { span, .. } => *span,
            Lexeme::EntityDeclaration { span, .. } => *span,
            Lexeme::DtdEnd { span } => *span,
            Lexeme::ElementStart { span, .. } => *span,
            Lexeme::Attribute { span, .. } => *span,
            Lexeme::ElementEnd { span, .. } => *span,
            Lexeme::Text { text } => *text,
            Lexeme::Cdata { span, .. } => *span,
        }
    }

    /// What the kind of the token is called in a message.
    pub fn name(&self) -> (r: &'static str)
        ensures
            r@ == self.kind_name(),
    {
        match self {
            Lexeme::Declaration { .. } => "declaration",
            Lexeme::ProcessingInstruction { .. } => "processing instruction",
            Lexeme::Comment { .. } => "comment",
            Lexeme::DtdStart { .. } => "doctype",
            Lexeme::EmptyDtd { .. } => "doctype",
            Lexeme::EntityDeclaration { .. } => "entity declaration",
            Lexeme::DtdEnd { .. } => "doctype end",
            Lexeme::ElementStart { .. } => "element start",
            Lexeme::Attribute { .. } => "attribute",
            Lexeme::ElementEnd { .. } => "element end",
            Lexeme::Text { .. } => "text",
            Lexeme::Cdata { .. } => "cdata",
        }
    }
}

/// What the tokenizer yields: a token, or the error that ends the stream.
pub type Lexed<'a> = Result<Lexeme<'a>, xmlparser::Error>;

/// The token that a token of the tokenizer holds, field by field.
pub uninterp spec fn lexeme_of(token: xmlparser::Token<'_>) -> Lexeme<'_>;

/// What a tokenizer has yet to yield, in order.
pub uninterp spec fn pending_tokens(tokenizer: xmlparser::Tokenizer<'_>) -> Seq<Lexed<'_>>;

/// What the tokenizer yields on a text, in order.
pub uninterp spec fn token_stream(text: &str) -> Seq<Lexed<'_>>;

/// True when every token of a stream lies in the source with the UTF-8
/// bytes `src`.
pub open spec fn stream_lies_in(items: Seq<Lexed<'_>>, src: Seq<u8>) -> bool {
    forall|i: int|
        0 <= i < items.len() ==> match #[trigger] items[i] {
            Ok(lexeme) => lexeme.lies_in(src),
            Err(_) => true,
        }
}

/// Calls `xmlparser::Tokenizer::from` on a text. Assumed: what the
/// tokenizer will yield is a function of the text alone, named
/// `token_stream`, and every span in it is a piece of the text at its
/// offset, or the empty span at offset zero.
#[verifier::external_body]
fn tokenizer_of<'a>(text: &'a str) -> (r: xmlparser::Tokenizer<'a>)
    ensures
        pending_tokens(r) == token_stream(text),
        stream_lies_in(pending_tokens(r), text.spec_bytes()),
{
    xmlparser::Tokenizer::from(text)
}

/// Calls `Iterator::next` of `xmlparser::Tokenizer`. Assumed: it yields
/// what is pending, one item at a time, and nothing once that is used up.
#[verifier::external_body]
fn next_token<'a>(tokenizer: &mut xmlparser::Tokenizer<'a>) -> (r: Option<
    Result<xmlparser::Token<'a>, xmlparser::Error>,
>)
    ensures
        match r {
            None => pending_tokens(*old(tokenizer)).len() == 0 && pending_tokens(
                *final(tokenizer),
            ) == pending_tokens(*old(tokenizer)),
            Some(item) => {
                &&& pending_tokens(*old(tokenizer)).len() > 0
                &&& pending_tokens(*final(tokenizer)) == pending_tokens(
                    *old(tokenizer),
                ).drop_first()
                &&& match item {
                    Ok(token) => pending_tokens(*old(tokenizer))[0] == Ok::<
                        Lexeme<'a>,
                        xmlparser::Error,
                    >(lexeme_of(token)),
                    Err(e) => pending_tokens(*old(tokenizer))[0] == Err::<
                        Lexeme<'a>,
                        xmlparser::Error,
                    >(e),
                }
            },
        },
{
    tokenizer.next()
}

/// Matches on `xmlparser::Token::Declaration` and reads every span of the
/// token with `as_str` and `start` of `xmlparser::StrSpan`. Assumed: for a
/// token that is a declaration, the result holds its fields one for one;
/// for any other token it is `None`.
#[verifier::external_body]
fn declaration_of<'a>(token: &xmlparser::Token<'a>) -> (r: Option<Lexeme<'a>>)
    ensures
        r == if lexeme_of(*token) is Declaration {
            Some(lexeme_of(*token))
        } else {
            None
        },
{
    match *token {
        xmlparser::Token::Declaration { version, encoding, standalone, span } => Some(
            Lexeme::Declaration {
                version: StrSpan::new(version.as_str(), version.start()),
                encoding: encoding.map(|s| StrSpan::new(s.as_str(), s.start())),
                standalone,
                span: StrSpan::new(span.as_str(), span.start()),
            },
        ),
        _ => None,
    }
}

/// Matches on `xmlparser::Token::ProcessingInstruction` and reads every
/// span of the token with `as_str` and `start` of `xmlparser::StrSpan`.
/// Assumed: for a token that is a processing instruction, the result holds
/// its fields one for one; for any other token it is `None`.
#[verifier::external_body]
fn instruction_of<'a>(token: &xmlparser::Token<'a>) -> (r: Option<Lexeme<'a>>)
    ensures
        r == if lexeme_of(*token) is ProcessingInstruction {
            Some(lexeme_of(*token))
        } else {
            None
        },
{
    match *token {
        xmlparser::Token::ProcessingInstruction { target, content, span } => Some(
            Lexeme::ProcessingInstruction {
                target: StrSpan::new(target.as_str(), target.start()),
                content: content.map(|s| StrSpan::new(s.as_str(), s.start())),
                span: StrSpan::new(span.as_str(), span.start()),
            },
        ),
        _ => None,
    }
}

/// Matches on `xmlparser::Token::Comment` and reads every span of the token
/// with `as_str` and `start` of `xmlparser::StrSpan`. Assumed: for a token
/// that is a comment, the result holds its fields one for one; for any
/// other token it is `None`.
#[verifier::external_body]
fn comment_of<'a>(token: &xmlparser::Token<'a>) -> (r: Option<Lexeme<'a>>)
    ensures
        r == if lexeme_of(*token) is Comment {
            Some(lexeme_of(*token))
        } else {
            None
        },
{
    match *token {
        xmlparser::Token::Comment { text, span } => Some(
            Lexeme::Comment {
                text: StrSpan::new(text.as_str(), text.start()),
                span: StrSpan::new(span.as_str(), span.start()),
            },
        ),
        _ => None,
    }
}

/// Matches on `xmlparser::Token::DtdStart` and reads every span of the
/// token with `as_str` and `start` of `xmlparser::StrSpan`. Assumed: for a
/// token that is the start of a document type declaration with entities,
/// the result holds its fields one for one; for any other token it is
/// `None`.
#[verifier::external_body]
fn dtd_start_of<'a>(token: &xmlparser::Token<'a>) -> (r: Option<Lexeme<'a>>)
    ensures
        r == if lexeme_of(*token) is DtdStart {
            Some(lexeme_of(*token))
        } else {
            None
        },
{
    match *token {
        xmlparser::Token::DtdStart { name, external_id, span } => Some(
            Lexeme::DtdStart {
                name: StrSpan::new(name.as_str(), name.start()),
                external_id: external_id.map(|id| match id {
                    xmlparser::ExternalId::System(s) => ExternalId::System(StrSpan::new(s.as_str(), s.start())),
                    xmlparser::ExternalId::Public(p, s) => ExternalId::Public(StrSpan::new(p.as_str(), p.start()), StrSpan::new(s.as_str(), s.start())),
                }),
                span: StrSpan::new(span.as_str(), span.start()),
            },
        ),
        _ => None,
    }
}

/// Matches on `xmlparser::Token::EmptyDtd` and reads every span of the
/// token with `as_str` and `start` of `xmlparser::StrSpan`. Assumed: for a
/// token that is a document type declaration without entities, the result
/// holds its fields one for one; for any other token it is `None`.
#[verifier::external_body]
fn empty_dtd_of<'a>(token: &xmlparser::Token<'a>) -> (r: Option<Lexeme<'a>>)
    ensures
        r == if lexeme_of(*token) is EmptyDtd {
            Some(lexeme_of(*token))
        } else {
            None
        },
{
    match *token {
        xmlparser::Token::EmptyDtd { name, external_id, span } => Some(
            Lexeme::EmptyDtd {
                name: StrSpan::new(name.as_str(), name.start()),
                external_id: external_id.map(|id| match id {
                    xmlparser::ExternalId::System(s) => ExternalId::System(StrSpan::new(s.as_str(), s.start())),
                    xmlparser::ExternalId::Public(p, s) => ExternalId::Public(StrSpan::new(p.as_str(), p.start()), StrSpan::new(s.as_str(), s.start())),
                }),
                span: StrSpan::new(span.as_str(), span.start()),
            },
        ),
        _ => None,
    }
}

/// Matches on `xmlparser::Token::EntityDeclaration` and reads the name and
/// the span of the token with `as_str` and `start` of `xmlparser::StrSpan`.
/// Assumed: for an entity declaration the result holds these two fields;
/// for any other token it is `None`.
#[verifier::external_body]
fn entity_of<'a>(token: &xmlparser::Token<'a>) -> (r: Option<(StrSpan<'a>, StrSpan<'a>)>)
    ensures
        r == match lexeme_of(*token) {
            Lexeme::EntityDeclaration { name, span, .. } => Some((name, span)),
            _ => None,
        },
{
    match *token {
        xmlparser::Token::EntityDeclaration { name, span, .. } => Some(
            (StrSpan::new(name.as_str(), name.start()), StrSpan::new(span.as_str(), span.start())),
        ),
        _ => None,
    }
}

/// Matches on `xmlparser::Token::EntityDeclaration` and on the
/// `xmlparser::EntityDefinition` in it, and reads every span with `as_str`
/// and `start` of `xmlparser::StrSpan`. Assumed: for an entity declaration
/// the result holds its definition, variant for variant; for any other
/// token it is `None`.
#[verifier::external_body]
fn entity_definition_of<'a>(token: &xmlparser::Token<'a>) -> (r: Option<EntityDefinition<'a>>)
    ensures
        r == match lexeme_of(*token) {
            Lexeme::EntityDeclaration { definition, .. } => Some(definition),
            _ => None,
        },
{
    match *token {
        xmlparser::Token::EntityDeclaration { definition, .. } => Some(match definition {
            xmlparser::EntityDefinition::EntityValue(v) => EntityDefinition::EntityValue(StrSpan::new(v.as_str(), v.start())),
            xmlparser::EntityDefinition::ExternalId(xmlparser::ExternalId::System(s)) => EntityDefinition::ExternalId(ExternalId::System(StrSpan::new(s.as_str(), s.start()))),
            xmlparser::EntityDefinition::ExternalId(xmlparser::ExternalId::Public(p, s)) => EntityDefinition::ExternalId(ExternalId::Public(StrSpan::new(p.as_str(), p.start()), StrSpan::new(s.as_str(), s.start()))),
        }),
        _ => None,
    }
}

/// Matches on `xmlparser::Token::DtdEnd` and reads every span of the token
/// with `as_str` and `start` of `xmlparser::StrSpan`. Assumed: for a token
/// that is the end of a document type declaration, the result holds its
/// fields one for one; for any other token it is `None`.
#[verifier::external_body]
fn dtd_end_of<'a>(token: &xmlparser::Token<'a>) -> (r: Option<Lexeme<'a>>)
    ensures
        r == if lexeme_of(*token) is DtdEnd {
            Some(lexeme_of(*token))
        } else {
            None
        },
{
    match *token {
        xmlparser::Token::DtdEnd { span } => Some(
            Lexeme::DtdEnd { span: StrSpan::new(span.as_str(), span.start()) },
        ),
        _ => None,
    }
}

/// Matches on `xmlparser::Token::ElementStart` and reads every span of the
/// token with `as_str` and `start` of `xmlparser::StrSpan`. Assumed: for a
/// token that is the start of an element, the result holds its fields one
/// for one; for any other token it is `None`.
#[verifier::external_body]
fn element_start_of<'a>(token: &xmlparser::Token<'a>) -> (r: Option<Lexeme<'a>>)
    ensures
        r == if lexeme_of(*token) is ElementStart {
            Some(lexeme_of(*token))
        } else {
            None
        },
{
    match *token {
        xmlparser::Token::ElementStart { prefix, local, span } => Some(
            Lexeme::ElementStart {
                prefix: StrSpan::new(prefix.as_str(), prefix.start()),
                local: StrSpan::new(local.as_str(), local.start()),
                span: StrSpan::new(span.as_str(), span.start()),
            },
        ),
        _ => None,
    }
}

/// Matches on `xmlparser::Token::Attribute` and reads every span of the
/// token with `as_str` and `start` of `xmlparser::StrSpan`. Assumed: for a
/// token that is an attribute, the result holds its fields one for one; for
/// any other token it is `None`.
#[verifier::external_body]
fn attribute_of<'a>(token: &xmlparser::Token<'a>) -> (r: Option<Lexeme<'a>>)
    ensures
        r == if lexeme_of(*token) is Attribute {
            Some(lexeme_of(*token))
        } else {
            None
        },
{
    match *token {
        xmlparser::Token::Attribute { prefix, local, value, span } => Some(
            Lexeme::Attribute {
                prefix: StrSpan::new(prefix.as_str(), prefix.start()),
                local: StrSpan::new(local.as_str(), local.start()),
                value: StrSpan::new(value.as_str(), value.start()),
                span: StrSpan::new(span.as_str(), span.start()),
            },
        ),
        _ => None,
    }
}

/// Matches on `xmlparser::Token::ElementEnd` and reads every span of the
/// token with `as_str` and `start` of `xmlparser::StrSpan`. Assumed: for a
/// token that is the end of an element, the result holds its fields one for
/// one; for any other token it is `None`.
#[verifier::external_body]
fn element_end_of<'a>(token: &xmlparser::Token<'a>) -> (r: Option<Lexeme<'a>>)
    ensures
        r == if lexeme_of(*token) is ElementEnd {
            Some(lexeme_of(*token))
        } else {
            None
        },
{
    match *token {
        xmlparser::Token::ElementEnd { end, span } => Some(
            Lexeme::ElementEnd {
                end: match end {
                    xmlparser::ElementEnd::Open => TagEnd::Open,
                    xmlparser::ElementEnd::Close(p, l) => TagEnd::Close(StrSpan::new(p.as_str(), p.start()), StrSpan::new(l.as_str(), l.start())),
                    xmlparser::ElementEnd::Empty => TagEnd::Empty,
                },
                span: StrSpan::new(span.as_str(), span.start()),
            },
        ),
        _ => None,
    }
}

/// Matches on `xmlparser::Token::Text` and reads every span of the token
/// with `as_str` and `start` of `xmlparser::StrSpan`. Assumed: for a token
/// that is a text, the result holds its fields one for one; for any other
/// token it is `None`.
#[verifier::external_body]
fn text_of_token<'a>(token: &xmlparser::Token<'a>) -> (r: Option<Lexeme<'a>>)
    ensures
        r == if lexeme_of(*token) is Text {
            Some(lexeme_of(*token))
        } else {
            None
        },
{
    match *token {
        xmlparser::Token::Text { text } => Some(
            Lexeme::Text { text: StrSpan::new(text.as_str(), text.start()) },
        ),
        _ => None,
    }
}

/// Matches on `xmlparser::Token::Cdata` and reads every span of the token
/// with `as_str` and `start` of `xmlparser::StrSpan`. Assumed: for a token
/// that is a CDATA section, the result holds its fields one for one; for
/// any other token it is `None`.
#[verifier::external_body]
fn cdata_of<'a>(token: &xmlparser::Token<'a>) -> (r: Option<Lexeme<'a>>)
    ensures
        r == if lexeme_of(*token) is Cdata {
            Some(lexeme_of(*token))
        } else {
            None
        },
{
    match *token {
        xmlparser::Token::Cdata { text, span } => Some(
            Lexeme::Cdata {
                text: StrSpan::new(text.as_str(), text.start()),
                span: StrSpan::new(span.as_str(), span.start()),
            },
        ),
        _ => None,
    }
}

/// The token that a token of the tokenizer holds.
fn lexeme<'a>(token: &xmlparser::Token<'a>) -> (r: Lexeme<'a>)
    ensures
        r == lexeme_of(*token),
{
    if let Some(l) = element_start_of(token) {
        return l;
    }
    if let Some(l) = attribute_of(token) {
        return l;
    }
    if let Some(l) = element_end_of(token) {
        return l;
    }
    if let Some(l) = text_of_token(token) {
        return l;
    }
    if let Some(l) = comment_of(token) {
        return l;
    }
    if let Some(l) = cdata_of(token) {
        return l;
    }
    if let Some(l) = instruction_of(token) {
        return l;
    }
    if let Some(l) = declaration_of(token) {
        return l;
    }
    if let Some(l) = dtd_start_of(token) {
        return l;
    }
    if let Some(l) = empty_dtd_of(token) {
        return l;
    }
    if let Some((name, span)) = entity_of(token) {
        if let Some(definition) = entity_definition_of(token) {
            return Lexeme::EntityDeclaration { name, definition, span };
        }
    }
    match dtd_end_of(token) {
        Some(l) => l,
        None => vstd::pervasive::unreached(),
    }
}

/// A list of tokens as a stream without errors.
pub open spec fn as_stream<'a>(items: Seq<Lexeme<'a>>) -> Seq<Lexed<'a>> {
    Seq::new(items.len(), |i: int| Ok(items[i]))
}

/// Where tokens come from: the tokenizer run over a text, or a list.
pub struct Lexemes<'a, 'src> {
    live: Option<xmlparser::Tokenizer<'src>>,
    given: &'a [Lexeme<'src>],
    at: usize,
}

impl<'a, 'src> Lexemes<'a, 'src> {
    /// What is yet to come, in order.
    pub closed spec fn pending(self) -> Seq<Lexed<'src>> {
        match self.live {
            Some(tokenizer) => pending_tokens(tokenizer),
            None => if self.at <= self.given@.len() {
                as_stream(self.given@.skip(self.at as int))
            } else {
                Seq::empty()
            },
        }
    }

    /// The tokens of a text.
    pub fn of_text(text: &'src str) -> (r: Self)
        ensures
            r.pending() == token_stream(text),
            stream_lies_in(r.pending(), text.spec_bytes()),
    {
        let given: &'a [Lexeme<'src>] = &[];
        Lexemes { live: Some(tokenizer_of(text)), given, at: 0 }
    }

    /// The tokens of a list.
    pub fn of_list(items: &'a [Lexeme<'src>]) -> (r: Self)
        ensures
            r.pending() == as_stream(items@),
    {
        proof {
            assert(items@.skip(0) =~= items@);
        }
        Lexemes { live: None, given: items, at: 0 }
    }

    /// The next token, the error that ends the stream, or `None` at its
    /// end.
    pub fn next(&mut self) -> (r: Option<Lexed<'src>>)
        ensures
            match r {
                None => old(self).pending().len() == 0 && final(self).pending() == old(
                    self,
                ).pending(),
                Some(item) => {
                    &&& old(self).pending().len() > 0
                    &&& item == old(self).pending()[0]
                    &&& final(self).pending() == old(self).pending().drop_first()
                },
            },
    {
        match &mut self.live {
            Some(tokenizer) => {
                match next_token(tokenizer) {
                    None => None,
                    Some(Ok(token)) => Some(Ok(lexeme(&token))),
                    Some(Err(e)) => Some(Err(e)),
                }
            },
            None => {
                if self.at < self.given.len() {
                    let item = self.given[self.at];
                    proof {
                        let rest = self.given@.skip(self.at as int);
                        assert(as_stream(rest).drop_first() =~= as_stream(
                            self.given@.skip(self.at + 1),
                        ));
                    }
                    self.at += 1;
                    Some(Ok(item))
                } else {
                    None
                }
            },
        }
    }
}

} // verus!
