//! Names of tags and attributes.
use vstd::prelude::*;
use vstd::string::*;
use vstd::utf8::*;
use crate::strspan::{
    opt_storable, opt_span_to_string, opt_span_unplaced, opt_string_to_span, opt_text,
    opt_unplaced, opt_view, owned_opt_span, owned_span, SpanView, StrSpan,
};
use crate::strspan::{opt_span_decoding, opt_span_encoding};
use crate::to_bin::{BinDecodeError, Decoded, Decoder, Encoder, ToBinHandler};
use crate::utf8::{byte_len, lemma_ascii_is_boundary, opt_str_eq, slice_bytes, str_eq};

verus! {

/// What a name stands for: an optional prefix and a local part.
pub struct NameView {
    pub prefix: Option<SpanView>,
    pub local: SpanView,
}

impl NameView {
    /// The name with every offset set to zero.
    pub open spec fn stripped(self) -> NameView {
        NameView { prefix: opt_unplaced(self.prefix), local: self.local.unplaced() }
    }

    /// The name as an owned copy holds it: without offsets.
    pub open spec fn detached(self) -> NameView {
        self.stripped()
    }

    /// True when the binary form can hold the name in this mode: with a
    /// source, every span lies in it; without one, every text has a length
    /// that a count can hold; and so has every sequence.
    pub open spec fn storable(self, mode: Option<Seq<u8>>) -> bool {
        opt_storable(self.prefix, mode) && self.local.storable(mode)
    }

    /// The bytes that stand for the name: its optional prefix and its
    /// local part.
    pub open spec fn encoding(self, header: bool) -> Seq<u8> {
        opt_span_encoding(self.prefix, header) + self.local.encoding(header)
    }

    /// The name that `buf` holds at `pos`.
    #[verifier::opaque]
    pub open spec fn decoding(buf: Seq<u8>, pos: int, src: Option<Seq<u8>>) -> Decoded<NameView> {
        match opt_span_decoding(buf, pos, src) {
            Err(e) => Err(e),
            Ok((prefix, n1)) => match SpanView::decoding(buf, pos + n1, src) {
                Err(e) => Err(e),
                Ok((local, n2)) => Ok((NameView { prefix, local }, n1 + n2)),
            },
        }
    }

    /// True when the name has this prefix and this local part.
    pub open spec fn is(self, prefix: Option<Seq<char>>, local: Seq<char>) -> bool {
        opt_text(self.prefix) == prefix && self.local.text == local
    }

    /// True when two names have the same prefix and the same local part,
    /// wherever they stand in the source.
    pub open spec fn same_text(self, other: NameView) -> bool {
        self.is(opt_text(other.prefix), other.local.text)
    }

    /// The name as it is written: `prefix:local`, or `local` alone.
    pub open spec fn qualified(self) -> Seq<char> {
        match self.prefix {
            Some(p) => p.text + seq![':'] + self.local.text,
            None => self.local.text,
        }
    }
}

/// The characters of an optional string slice.
pub open spec fn opt_str_view(s: Option<&str>) -> Option<Seq<char>> {
    match s {
        Some(v) => Some(v@),
        None => None,
    }
}

/// The text of an optional span.
fn opt_span_text<'a>(s: &Option<StrSpan<'a>>) -> (r: Option<&'a str>)
    ensures
        opt_str_view(r) == opt_text(opt_view(*s)),
{
    match s {
        Some(v) => Some(v.text()),
        None => None,
    }
}

/// The text of an optional string.
fn opt_string_text(s: &Option<String>) -> (r: Option<&str>)
    ensures
        opt_str_view(r) == opt_text(owned_opt_span(*s)),
{
    match s {
        Some(v) => Some(v.as_str()),
        None => None,
    }
}

/// Writes a name out as `prefix:local`, or as `local` alone.
fn join_name(prefix: Option<&str>, local: &str) -> (r: String)
    ensures
        r@ == match prefix {
            Some(p) => p@ + seq![':'] + local@,
            None => local@,
        },
{
    match prefix {
        Some(p) => {
            let mut out = p.to_owned();
            proof {
                reveal_strlit(":");
                assert(":"@ =~= seq![':']);
            }
            out.append(":");
            out.append(local);
            out
        },
        None => local.to_owned(),
    }
}

/// The name of a tag or an attribute, with an optional prefix:
/// `prefix:local`.
#[derive(Debug, Clone)]
pub struct NodeName<'src> {
    pub(crate) prefix: Option<StrSpan<'src>>,
    pub(crate) local: StrSpan<'src>,
}

impl<'src> View for NodeName<'src> {
    type V = NameView;

    open(crate) spec fn view(&self) -> NameView {
        NameView { prefix: opt_view(self.prefix), local: self.local@ }
    }
}

impl<'src> NodeName<'src> {
    /// A name of a prefix, or none, and a local part.
    pub fn new(prefix: Option<StrSpan<'src>>, local: StrSpan<'src>) -> (r: Self)
        ensures
            r@ == (NameView { prefix: opt_view(prefix), local: local@ }),
    {
        NodeName { prefix, local }
    }

    /// Whether the name has this prefix and this local part.
    #[must_use]
    pub fn equals(&self, prefix: Option<&str>, local: &str) -> (r: bool)
        ensures
            r == self@.is(opt_str_view(prefix), local@),
    {
        opt_str_eq(opt_span_text(&self.prefix), prefix) && str_eq(self.local.text(), local)
    }

    /// The prefix of the name.
    #[must_use]
    pub fn prefix(&self) -> (r: Option<&StrSpan<'src>>)
        ensures
            match r {
                Some(p) => self@.prefix == Some(p@),
                None => self@.prefix is None,
            },
    {
        self.prefix.as_ref()
    }

    /// The local part of the name.
    #[must_use]
    pub fn local(&self) -> (r: &StrSpan<'src>)
        ensures
            r@ == self@.local,
    {
        &self.local
    }

    /// An owned copy of the name, without offsets.
    #[must_use]
    pub fn to_owned(&self) -> (r: OwnedNodeName)
        ensures
            r@ == self@.detached(),
    {
        OwnedNodeName {
            prefix: opt_span_to_string(&self.prefix),
            local: self.local.text().to_owned(),
        }
    }

    /// A copy of the name.
    pub fn duplicate(&self) -> (r: Self)
        ensures
            r@ == self@,
    {
        NodeName { prefix: self.prefix, local: self.local }
    }

    /// The name with every offset set to zero.
    pub fn stripped(&self) -> (r: Self)
        ensures
            r@ == self@.stripped(),
    {
        NodeName { prefix: opt_span_unplaced(&self.prefix), local: self.local.unplaced() }
    }

    /// Sets every offset of the name to zero and keeps the text.
    pub fn strip_metadata(&mut self)
        ensures
            final(self)@ == old(self)@.stripped(),
    {
        *self = self.stripped();
    }

    /// The name as it is written: `prefix:local`, or `local` alone.
    pub fn qualified(&self) -> (r: String)
        ensures
            r@ == self@.qualified(),
    {
        join_name(opt_span_text(&self.prefix), self.local.text())
    }

    /// Whether the name is written as `qualified`.
    pub fn is_written(&self, qualified: &str) -> (r: bool)
        ensures
            r == (self@.qualified() == qualified@),
    {
        let own = self.qualified();
        str_eq(own.as_str(), qualified)
    }

    /// Whether two names have the same prefix and the same local part,
    /// wherever they stand in the source.
    pub fn same_text(&self, other: &NodeName<'_>) -> (r: bool)
        ensures
            r == self@.same_text(other@),
    {
        other.equals(opt_span_text(&self.prefix), self.local.text())
    }
}

impl<'src> ToBinHandler<'src> for NodeName<'src> {
    type Model = NameView;

    open spec fn reserving(buf: Seq<u8>, pos: int, src: Option<Seq<u8>>) -> bool {
        false
    }

    open spec fn model(&self) -> NameView {
        self@
    }

    open spec fn encoding(m: NameView, header: bool) -> Seq<u8> {
        m.encoding(header)
    }

    open spec fn decoding(buf: Seq<u8>, pos: int, src: Option<Seq<u8>>) -> Decoded<NameView> {
        NameView::decoding(buf, pos, src)
    }

    fn write(&self, encoder: &mut Encoder) -> (r: std::io::Result<()>) {
        let _ = self.prefix.write(encoder);
        let _ = self.local.write(encoder);
        proof {
            assert(encoder@.bytes =~= old(encoder)@.bytes + self@.encoding(
                old(encoder)@.source_header,
            ));
        }
        Ok(())
    }

    fn read(decoder: &mut Decoder<'src>) -> (r: Result<Self, BinDecodeError>) {
        proof {
            reveal(NameView::decoding);
            reveal(opt_span_decoding);
        }
        let prefix = Option::<StrSpan<'src>>::read(decoder)?;
        let local = StrSpan::read(decoder)?;
        Ok(NodeName { prefix, local })
    }
}

impl<'src> PartialEq for NodeName<'src> {
    fn eq(&self, other: &Self) -> (r: bool) {
        self.same_text(other)
    }
}

impl<'src> vstd::std_specs::cmp::PartialEqSpecImpl for NodeName<'src> {
    open spec fn obeys_eq_spec() -> bool {
        true
    }

    open spec fn eq_spec(&self, other: &Self) -> bool {
        self@.same_text(other@)
    }
}

impl<'src, 'b> PartialEq<&'b str> for NodeName<'src> {
    fn eq(&self, other: &&'b str) -> (r: bool) {
        self.is_written(*other)
    }
}

impl<'src, 'b> vstd::std_specs::cmp::PartialEqSpecImpl<&'b str> for NodeName<'src> {
    open spec fn obeys_eq_spec() -> bool {
        true
    }

    open spec fn eq_spec(&self, other: &&'b str) -> bool {
        self@.qualified() == other@
    }
}

impl<'src> PartialEq<str> for NodeName<'src> {
    fn eq(&self, other: &str) -> (r: bool) {
        self.is_written(other)
    }
}

impl<'src> vstd::std_specs::cmp::PartialEqSpecImpl<str> for NodeName<'src> {
    open spec fn obeys_eq_spec() -> bool {
        true
    }

    open spec fn eq_spec(&self, other: &str) -> bool {
        self@.qualified() == other@
    }
}

/// The index of the first colon at or behind `from`, or the length where
/// there is none.
pub open spec fn colon_at(bytes: Seq<u8>, from: int) -> int
    decreases bytes.len() - from,
{
    if from >= bytes.len() {
        bytes.len() as int
    } else if bytes[from] == 0x3Au8 {
        from
    } else {
        colon_at(bytes, from + 1)
    }
}

/// The parts of a name written as `prefix:local` or as `local` alone, in
/// UTF-8: the prefix, if there is a colon, and the local part. A name with
/// more than one colon has no parts.
pub open spec fn name_parts(bytes: Seq<u8>) -> Option<(Option<Seq<u8>>, Seq<u8>)> {
    let first = colon_at(bytes, 0);
    if first >= bytes.len() {
        Some((None, bytes))
    } else if colon_at(bytes, first + 1) < bytes.len() {
        None
    } else {
        Some((Some(bytes.subrange(0, first)), bytes.subrange(first + 1, bytes.len() as int)))
    }
}

/// The index of the first colon at or behind `from` in a text, or its
/// length in bytes where there is none.
fn find_colon(text: &str, from: usize) -> (r: usize)
    requires
        from <= text.spec_bytes().len(),
    ensures
        r == colon_at(text.spec_bytes(), from as int),
        from <= r <= text.spec_bytes().len(),
        r < text.spec_bytes().len() ==> text.spec_bytes()[r as int] == 0x3Au8,
{
    let bytes = text.as_bytes();
    let mut i: usize = from;
    while i < bytes.len() && bytes[i] != 0x3A
        invariant
            from <= i <= bytes@.len(),
            bytes@ == text.spec_bytes(),
            colon_at(bytes@, from as int) == colon_at(bytes@, i as int),
        decreases bytes@.len() - i,
    {
        i += 1;
    }
    i
}

/// An owned name, without offsets.
#[derive(Debug, Clone)]
pub struct OwnedNodeName {
    /// The prefix of the name.
    pub prefix: Option<String>,
    /// The local part of the name.
    pub local: String,
}

impl View for OwnedNodeName {
    type V = NameView;

    open spec fn view(&self) -> NameView {
        NameView { prefix: owned_opt_span(self.prefix), local: owned_span(self.local@) }
    }
}

impl OwnedNodeName {
    /// A name of a prefix, or none, and a local part.
    pub fn new(prefix: Option<&str>, local: &str) -> (r: Self)
        ensures
            r@ == (NameView {
                prefix: match prefix {
                    Some(p) => Some(owned_span(p@)),
                    None => None,
                },
                local: owned_span(local@),
            }),
    {
        let prefix = match prefix {
            Some(p) => Some(p.to_owned()),
            None => None,
        };
        OwnedNodeName { prefix, local: local.to_owned() }
    }

    /// The name that is written as `prefix:local` or as `local` alone, or
    /// `None` where the text has more than one colon.
    pub fn from_qualified(name: &str) -> (r: Option<Self>)
        ensures
            match name_parts(name.spec_bytes()) {
                None => r is None,
                Some((prefix, local)) => r matches Some(n) && n@ == n@.stripped() && encode_utf8(
                    n@.local.text,
                ) == local && match prefix {
                    Some(p) => n@.prefix matches Some(q) && encode_utf8(q.text) == p,
                    None => n@.prefix is None,
                },
            },
    {
        let len = byte_len(name);
        let first = find_colon(name, 0);
        if first >= len {
            return Some(OwnedNodeName { prefix: None, local: name.to_owned() });
        }
        let second = find_colon(name, first + 1);
        if second < len {
            return None;
        }
        proof {
            encode_utf8_valid_utf8(name@);
            lemma_ascii_is_boundary(name.spec_bytes(), first as int);
            is_char_boundary_start_end_of_seq(name.spec_bytes());
        }
        let prefix = slice_bytes(name, 0, first).unwrap();
        let local = slice_bytes(name, first + 1, len).unwrap();
        Some(OwnedNodeName { prefix: Some(prefix.to_owned()), local: local.to_owned() })
    }

    /// The name that is written as `prefix:local` or as `local` alone. The
    /// text may not hold more than one colon; `from_qualified` takes any
    /// text.
    pub fn from(name: &str) -> (r: Self)
        requires
            name_parts(name.spec_bytes()) is Some,
        ensures
            r@ == r@.stripped(),
            encode_utf8(r@.local.text) == name_parts(name.spec_bytes()).unwrap().1,
            match name_parts(name.spec_bytes()).unwrap().0 {
                Some(p) => r@.prefix matches Some(q) && encode_utf8(q.text) == p,
                None => r@.prefix is None,
            },
    {
        match OwnedNodeName::from_qualified(name) {
            Some(parsed) => parsed,
            None => vstd::pervasive::unreached(),
        }
    }

    /// Whether the name has this prefix and this local part.
    #[must_use]
    pub fn equals(&self, prefix: Option<&str>, local: &str) -> (r: bool)
        ensures
            r == self@.is(opt_str_view(prefix), local@),
    {
        opt_str_eq(opt_string_text(&self.prefix), prefix) && str_eq(self.local.as_str(), local)
    }

    /// A copy of the name.
    pub fn duplicate(&self) -> (r: Self)
        ensures
            r@ == self@,
    {
        let prefix = match &self.prefix {
            Some(p) => Some(p.clone()),
            None => None,
        };
        OwnedNodeName { prefix, local: self.local.clone() }
    }

    /// The name as spans over the owned strings, at offset zero.
    pub fn borrowed(&self) -> (r: NodeName<'_>)
        ensures
            r@ == self@,
    {
        NodeName { prefix: opt_string_to_span(&self.prefix), local: StrSpan::from_str(self.local.as_str()) }
    }

    /// The name as it is written: `prefix:local`, or `local` alone.
    pub fn qualified(&self) -> (r: String)
        ensures
            r@ == self@.qualified(),
    {
        join_name(opt_string_text(&self.prefix), self.local.as_str())
    }

    /// Whether the name is written as `qualified`.
    pub fn is_written(&self, qualified: &str) -> (r: bool)
        ensures
            r == (self@.qualified() == qualified@),
    {
        let own = self.qualified();
        str_eq(own.as_str(), qualified)
    }

    /// Whether two names have the same prefix and the same local part.
    pub fn same_text(&self, other: &OwnedNodeName) -> (r: bool)
        ensures
            r == self@.same_text(other@),
    {
        other.equals(opt_string_text(&self.prefix), self.local.as_str())
    }

    /// Whether this name has the prefix and the local part of a borrowed
    /// name.
    pub fn same_text_as(&self, other: &NodeName<'_>) -> (r: bool)
        ensures
            r == self@.same_text(other@),
    {
        other.equals(opt_string_text(&self.prefix), self.local.as_str())
    }
}

impl PartialEq for OwnedNodeName {
    fn eq(&self, other: &Self) -> (r: bool) {
        self.same_text(other)
    }
}

impl vstd::std_specs::cmp::PartialEqSpecImpl for OwnedNodeName {
    open spec fn obeys_eq_spec() -> bool {
        true
    }

    open spec fn eq_spec(&self, other: &Self) -> bool {
        self@.same_text(other@)
    }
}

/// An owned value is written as the spans over its strings are, and read
/// as an owned copy of what the stream holds.
impl<'src> ToBinHandler<'src> for OwnedNodeName {
    type Model = NameView;

    open spec fn reserving(buf: Seq<u8>, pos: int, src: Option<Seq<u8>>) -> bool {
        false
    }

    open spec fn model(&self) -> NameView {
        self@
    }

    open spec fn encoding(m: NameView, header: bool) -> Seq<u8> {
        m.encoding(header)
    }

    open spec fn decoding(buf: Seq<u8>, pos: int, src: Option<Seq<u8>>) -> Decoded<NameView> {
        match NameView::decoding(buf, pos, src) {
            Ok((m, used)) => Ok((m.detached(), used)),
            Err(e) => Err(e),
        }
    }

    fn write(&self, encoder: &mut Encoder) -> (r: std::io::Result<()>) {
        self.borrowed().write(encoder)
    }

    fn read(decoder: &mut Decoder<'src>) -> (r: Result<Self, BinDecodeError>) {
        match NodeName::read(decoder) {
            Ok(node) => Ok(node.to_owned()),
            Err(e) => Err(e),
        }
    }
}

impl<'b> PartialEq<&'b str> for OwnedNodeName {
    fn eq(&self, other: &&'b str) -> (r: bool) {
        self.is_written(*other)
    }
}

impl<'b> vstd::std_specs::cmp::PartialEqSpecImpl<&'b str> for OwnedNodeName {
    open spec fn obeys_eq_spec() -> bool {
        true
    }

    open spec fn eq_spec(&self, other: &&'b str) -> bool {
        self@.qualified() == other@
    }
}

impl PartialEq<str> for OwnedNodeName {
    fn eq(&self, other: &str) -> (r: bool) {
        self.is_written(other)
    }
}

impl vstd::std_specs::cmp::PartialEqSpecImpl<str> for OwnedNodeName {
    open spec fn obeys_eq_spec() -> bool {
        true
    }

    open spec fn eq_spec(&self, other: &str) -> bool {
        self@.qualified() == other@
    }
}

impl<'src> PartialEq<NodeName<'src>> for OwnedNodeName {
    fn eq(&self, other: &NodeName<'src>) -> (r: bool) {
        self.same_text_as(other)
    }
}

impl<'src> vstd::std_specs::cmp::PartialEqSpecImpl<NodeName<'src>> for OwnedNodeName {
    open spec fn obeys_eq_spec() -> bool {
        true
    }

    open spec fn eq_spec(&self, other: &NodeName<'src>) -> bool {
        self@.same_text(other@)
    }
}

} // verus!
