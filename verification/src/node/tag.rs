//! Tags and their attributes.
use vstd::prelude::*;
use vstd::string::*;
use crate::node::name::{opt_str_view, NameView, NodeName, OwnedNodeName};
use crate::node::{node_view, owned_node_view, Node, NodeView, OwnedNode};
use crate::node::{nodes_decoding, nodes_encoding, nodes_view};
use crate::strspan::{opt_view, owned_span, SpanView, StrSpan};
use crate::to_bin::{
    bytes_left, count_decoding, count_encoding, count_reserves, read_agrees, BinDecodeError, DecodeFailure,
    Decoded, Decoder, Encoder, ToBinHandler,
};

verus! {

/// What an attribute stands for.
pub struct AttributeView {
    /// The whole attribute as it stands in the source.
    pub span: SpanView,
    /// The name of the attribute.
    pub name: NameView,
    /// The value between the quotes.
    pub value: SpanView,
}

impl AttributeView {
    /// The attribute with every offset set to zero.
    pub open spec fn stripped(self) -> AttributeView {
        AttributeView {
            span: self.span.unplaced(),
            name: self.name.stripped(),
            value: self.value.unplaced(),
        }
    }

    /// The attribute as an owned copy holds it: name and value, without
    /// offsets.
    pub open spec fn detached(self) -> AttributeView {
        AttributeView {
            span: SpanView::empty(),
            name: self.name.detached(),
            value: self.value.unplaced(),
        }
    }

    /// The bytes that stand for the attribute: its span, its name and its
    /// value.
    pub open spec fn encoding(self, header: bool) -> Seq<u8> {
        self.span.encoding(header) + self.name.encoding(header) + self.value.encoding(header)
    }

    /// The attribute that `buf` holds at `pos`.
    #[verifier::opaque]
    pub open spec fn decoding(buf: Seq<u8>, pos: int, src: Option<Seq<u8>>) -> Decoded<
        AttributeView,
    > {
        match SpanView::decoding(buf, pos, src) {
            Err(e) => Err(e),
            Ok((span, n1)) => match NameView::decoding(buf, pos + n1, src) {
                Err(e) => Err(e),
                Ok((name, n2)) => match SpanView::decoding(buf, pos + n1 + n2, src) {
                    Err(e) => Err(e),
                    Ok((value, n3)) => Ok((AttributeView { span, name, value }, n1 + n2 + n3)),
                },
            },
        }
    }

    /// True when the binary form can hold the attribute in this mode: with a
    /// source, every span lies in it; without one, every text has a length
    /// that a count can hold; and so has every sequence.
    pub open spec fn storable(self, mode: Option<Seq<u8>>) -> bool {
        self.span.storable(mode) && self.name.storable(mode) && self.value.storable(mode)
    }
}

/// The bytes that stand for attributes, one behind the other.
pub open spec fn attributes_encoding(items: Seq<AttributeView>, header: bool) -> Seq<u8>
    decreases items.len(),
{
    if items.len() == 0 {
        Seq::empty()
    } else {
        attributes_encoding(items.drop_last(), header) + items.last().encoding(header)
    }
}

/// The `count` attributes that `buf` holds from `pos` on, one behind the
/// other.
pub open spec fn attributes_decoding(
    buf: Seq<u8>,
    pos: int,
    count: nat,
    src: Option<Seq<u8>>,
) -> Decoded<Seq<AttributeView>>
    decreases count,
{
    if count == 0 {
        Ok((Seq::empty(), 0))
    } else {
        match attributes_decoding(buf, pos, (count - 1) as nat, src) {
            Err(e) => Err(e),
            Ok((items, used)) => match AttributeView::decoding(buf, pos + used, src) {
                Err(e) => Err(e),
                Ok((m, more)) => Ok((items.push(m), used + more)),
            },
        }
    }
}

/// The attributes that `buf` holds at `pos`, behind their count.
#[verifier::opaque]
pub open spec fn counted_attributes_decoding(
    buf: Seq<u8>,
    pos: int,
    src: Option<Seq<u8>>,
) -> Decoded<Seq<AttributeView>> {
    match count_decoding(buf, pos) {
        Err(e) => Err(e),
        Ok((count, _)) => match attributes_decoding(buf, pos + 8, count as nat, src) {
            Err(e) => Err(e),
            Ok((items, used)) => Ok((items, 8 + used)),
        },
    }
}

/// Where the first attributes fail to decode, so do more of them, in the
/// same way.
pub proof fn lemma_attributes_failure_stays(
    buf: Seq<u8>,
    pos: int,
    few: nat,
    many: nat,
    src: Option<Seq<u8>>,
)
    requires
        few <= many,
        attributes_decoding(buf, pos, few, src) is Err,
    ensures
        attributes_decoding(buf, pos, many, src) == attributes_decoding(buf, pos, few, src),
    decreases many,
{
    if few < many {
        lemma_attributes_failure_stays(buf, pos, few, (many - 1) as nat, src);
    }
}

/// What a sequence of attributes stands for.
pub open spec fn attributes_view(attributes: Seq<NodeAttribute<'_>>) -> Seq<AttributeView> {
    Seq::new(attributes.len(), |i: int| attributes[i]@)
}

/// Writes the count of the attributes and the attributes.
fn write_attributes(attributes: &Vec<NodeAttribute<'_>>, encoder: &mut Encoder)
    ensures
        final(encoder)@ == old(encoder)@.with(
            count_encoding(attributes@.len() as usize) + attributes_encoding(
                attributes_view(attributes@),
                old(encoder)@.source_header,
            ),
        ),
{
    let ghost header = encoder@.source_header;
    let ghost all = attributes_view(attributes@);
    let _ = attributes.len().write(encoder);
    let mut i: usize = 0;
    while i < attributes.len()
        invariant
            i <= attributes@.len(),
            all == attributes_view(attributes@),
            encoder@.source_header == header,
            encoder@.bytes == old(encoder)@.bytes + count_encoding(attributes@.len() as usize)
                + attributes_encoding(all.take(i as int), header),
        decreases attributes@.len() - i,
    {
        let _ = attributes[i].write(encoder);
        proof {
            assert(all.take(i + 1).drop_last() =~= all.take(i as int));
            assert(all.take(i + 1).last() == attributes@[i as int]@);
        }
        i += 1;
    }
    proof {
        assert(all.take(attributes@.len() as int) =~= all);
        assert(encoder@.bytes =~= old(encoder)@.bytes + (count_encoding(
            attributes@.len() as usize,
        ) + attributes_encoding(all, header)));
    }
}

/// Reads a count and that many attributes.
#[verifier::rlimit(100)]
fn read_attributes<'src>(decoder: &mut Decoder<'src>) -> (r: Result<
    Vec<NodeAttribute<'src>>,
    BinDecodeError,
>)
    ensures
        final(decoder)@.bytes == old(decoder)@.bytes,
        final(decoder)@.source == old(decoder)@.source,
        read_agrees(
            counted_attributes_decoding(
                old(decoder)@.bytes,
                old(decoder)@.cursor as int,
                old(decoder)@.source,
            ),
            match r {
                Ok(v) => Ok(attributes_view(v@)),
                Err(e) => Err(e),
            },
            final(decoder)@.cursor - old(decoder)@.cursor,
            count_reserves(old(decoder)@.bytes, old(decoder)@.cursor as int),
        ),
        count_decoding(old(decoder)@.bytes, old(decoder)@.cursor as int) is Err ==> r matches Err(
            BinDecodeError::UnexpectedEof,
        ),
{
    proof {
        reveal(counted_attributes_decoding);
    }
    let ghost buf = decoder@.bytes;
    let ghost src = decoder@.source;
    let ghost start = decoder@.cursor as int;
    let len = usize::read(decoder)?;
    let mut vec: Vec<NodeAttribute<'src>> = Vec::new();
    if len > 0 {
        match vec.try_reserve(len) {
            Ok(()) => {},
            Err(e) => {
                return Err(BinDecodeError::TryReserveError(e));
            },
        }
    }
    let mut i: usize = 0;
    proof {
        assert(attributes_view(vec@) =~= Seq::empty());
    }
    while i < len
        invariant
            i <= len,
            buf == old(decoder)@.bytes,
            src == old(decoder)@.source,
            start == old(decoder)@.cursor,
            decoder@.bytes == buf,
            decoder@.source == src,
            count_decoding(buf, start) == Ok::<(usize, nat), DecodeFailure>((len, 8)),
            vec@.len() == i,
            attributes_decoding(buf, start + 8, i as nat, src) == Ok::<
                (Seq<AttributeView>, nat),
                DecodeFailure,
            >((attributes_view(vec@), (decoder@.cursor - start - 8) as nat)),
            decoder@.cursor >= start + 8,
        decreases len - i,
    {
        let ghost before = attributes_view(vec@);
        match NodeAttribute::read(decoder) {
            Ok(item) => {
                vec.push(item);
                proof {
                    assert(attributes_view(vec@) =~= before.push(item@));
                }
            },
            Err(e) => {
                proof {
                    reveal(counted_attributes_decoding);
                    if e.failure() is Some {
                        lemma_attributes_failure_stays(
                            buf,
                            start + 8,
                            (i + 1) as nat,
                            len as nat,
                            src,
                        );
                    }
                }
                return Err(e);
            },
        }
        i += 1;
    }
    Ok(vec)
}

/// What a tag stands for.
pub struct TagView {
    /// The tag from its opening to its closing as it stands in the source.
    pub span: SpanView,
    /// The name of the tag.
    pub name: NameView,
    /// The attributes in the order of the source, duplicates included.
    pub attributes: Seq<AttributeView>,
    /// The children in the order of the source.
    pub children: Seq<NodeView>,
}

impl TagView {
    /// The tag with every offset in it set to zero.
    pub open spec fn stripped(self) -> TagView
        decreases self,
    {
        TagView {
            span: self.span.unplaced(),
            name: self.name.stripped(),
            attributes: Seq::new(self.attributes.len(), |i: int| self.attributes[i].stripped()),
            children: Seq::new(
                self.children.len(),
                |i: int|
                    if 0 <= i < self.children.len() {
                        self.children[i].stripped()
                    } else {
                        arbitrary()
                    },
            ),
        }
    }

    /// The tag as an owned copy holds it: without the spans that nodes
    /// cover and without offsets.
    pub open spec fn detached(self) -> TagView
        decreases self,
    {
        TagView {
            span: SpanView::empty(),
            name: self.name.detached(),
            attributes: Seq::new(self.attributes.len(), |i: int| self.attributes[i].detached()),
            children: Seq::new(
                self.children.len(),
                |i: int|
                    if 0 <= i < self.children.len() {
                        self.children[i].detached()
                    } else {
                        arbitrary()
                    },
            ),
        }
    }

    /// The bytes that stand for the tag: its span, its name, the count of
    /// its attributes and the attributes, the count of its children and the
    /// children.
    pub open spec fn encoding(self, header: bool) -> Seq<u8>
        decreases self, 0nat,
    {
        self.head_encoding(header) + nodes_encoding(self.children, self.children.len(), header)
    }

    /// The bytes that stand for what stands before the children of the
    /// tag: its span, its name, the count of its attributes and the
    /// attributes, and the count of its children.
    pub open spec fn head_encoding(self, header: bool) -> Seq<u8> {
        self.span.encoding(header) + self.name.encoding(header) + count_encoding(
            self.attributes.len() as usize,
        ) + attributes_encoding(self.attributes, header) + count_encoding(
            self.children.len() as usize,
        )
    }

    /// True when a read of the tag that `buf` holds at `pos` comes to
    /// reserve memory: its span and its name decode, and the count of its
    /// attributes is not zero; or the attributes decode too, and the count
    /// of its children is not zero.
    pub open spec fn reserving(buf: Seq<u8>, pos: int, src: Option<Seq<u8>>) -> bool {
        match SpanView::decoding(buf, pos, src) {
            Err(_) => false,
            Ok((_, n1)) => match NameView::decoding(buf, pos + n1, src) {
                Err(_) => false,
                Ok((_, n2)) => count_reserves(buf, pos + n1 + n2) || (counted_attributes_decoding(
                    buf,
                    pos + n1 + n2,
                    src,
                ) matches Ok((_, n3)) && count_reserves(buf, pos + n1 + n2 + n3)),
            },
        }
    }

    /// The tag that `buf` holds at `pos`.
    pub open spec fn decoding(buf: Seq<u8>, pos: int, src: Option<Seq<u8>>) -> Decoded<TagView>
        decreases bytes_left(buf, pos), 0nat,
    {
        match SpanView::decoding(buf, pos, src) {
            Err(e) => Err(e),
            Ok((span, n1)) => match NameView::decoding(buf, pos + n1, src) {
                Err(e) => Err(e),
                Ok((name, n2)) => match counted_attributes_decoding(buf, pos + n1 + n2, src) {
                    Err(e) => Err(e),
                    Ok((attributes, n3)) => match count_decoding(buf, pos + n1 + n2 + n3) {
                        Err(e) => Err(e),
                        Ok((count, n4)) => match nodes_decoding(
                            buf,
                            pos + n1 + n2 + n3 + 8,
                            count as nat,
                            src,
                        ) {
                            Err(e) => Err(e),
                            Ok((children, n5)) => Ok(
                                (
                                    TagView { span, name, attributes, children },
                                    n1 + n2 + n3 + 8 + n5,
                                ),
                            ),
                        },
                    },
                },
            },
        }
    }

    /// True when the binary form can hold the tag in this mode: with a
    /// source, every span lies in it; without one, every text has a length
    /// that a count can hold; and so has every sequence.
    pub open spec fn storable(self, mode: Option<Seq<u8>>) -> bool
        decreases self,
    {
        &&& self.span.storable(mode)
        &&& self.name.storable(mode)
        &&& self.attributes.len() <= usize::MAX
        &&& self.children.len() <= usize::MAX
        &&& forall|i: int|
            0 <= i < self.attributes.len() ==> (#[trigger] self.attributes[i]).storable(mode)
        &&& forall|i: int|
            0 <= i < self.children.len() ==> (#[trigger] self.children[i]).storable(mode)
    }

    /// True when the attribute at index `i` has this prefix and this local
    /// name and no later attribute has them.
    pub open spec fn is_last_named(self, i: int, prefix: Option<Seq<char>>, local: Seq<char>) -> bool {
        &&& 0 <= i < self.attributes.len()
        &&& self.attributes[i].name.is(prefix, local)
        &&& forall|j: int|
            i < j < self.attributes.len() ==> !(#[trigger] self.attributes[j]).name.is(
                prefix,
                local,
            )
    }

    /// True when no attribute has this prefix and this local name.
    pub open spec fn none_named(self, prefix: Option<Seq<char>>, local: Seq<char>) -> bool {
        forall|j: int|
            0 <= j < self.attributes.len() ==> !(#[trigger] self.attributes[j]).name.is(
                prefix,
                local,
            )
    }
}

/// What a borrowed tag stands for.
pub open(crate) spec fn tag_view(tag: &TagNode<'_>) -> TagView
    decreases tag,
{
    TagView {
        span: tag.span@,
        name: tag.name@,
        attributes: Seq::new(tag.attributes@.len(), |i: int| tag.attributes@[i]@),
        children: Seq::new(
            tag.children@.len(),
            |i: int|
                if 0 <= i < tag.children@.len() {
                    node_view(&tag.children@[i])
                } else {
                    arbitrary()
                },
        ),
    }
}

/// What an owned tag stands for.
pub open spec fn owned_tag_view(tag: &OwnedTagNode) -> TagView
    decreases tag,
{
    TagView {
        span: SpanView::empty(),
        name: tag.name@,
        attributes: Seq::new(tag.attributes@.len(), |i: int| tag.attributes@[i]@),
        children: Seq::new(
            tag.children@.len(),
            |i: int|
                if 0 <= i < tag.children@.len() {
                    owned_node_view(&tag.children@[i])
                } else {
                    arbitrary()
                },
        ),
    }
}

/// A tag with its name, attributes and children:
/// `<name attr="value">...</name>`.
///
/// An attribute name may occur more than once; a lookup finds the last.
#[derive(Debug, PartialEq)]
pub struct TagNode<'src> {
    pub(crate) span: StrSpan<'src>,
    pub(crate) name: NodeName<'src>,
    pub(crate) attributes: Vec<NodeAttribute<'src>>,
    pub(crate) children: Vec<Node<'src>>,
}

impl<'src> View for TagNode<'src> {
    type V = TagView;

    open(crate) spec fn view(&self) -> TagView {
        tag_view(self)
    }
}

impl<'src> TagNode<'src> {
    /// A tag of this name without attributes, children or span.
    pub fn new(prefix: Option<StrSpan<'src>>, local: StrSpan<'src>) -> (r: Self)
        ensures
            r@ == (TagView {
                span: SpanView::empty(),
                name: NameView { prefix: opt_view(prefix), local: local@ },
                attributes: Seq::empty(),
                children: Seq::empty(),
            }),
    {
        let r = TagNode {
            span: StrSpan::empty(),
            name: NodeName::new(prefix, local),
            attributes: Vec::new(),
            children: Vec::new(),
        };
        proof {
            assert(r@.attributes =~= Seq::empty());
            assert(r@.children =~= Seq::empty());
        }
        r
    }

    /// The same tag with `span` as its span.
    pub fn with_span(self, span: StrSpan<'src>) -> (r: Self)
        ensures
            r@ == (TagView { span: span@, ..self@ }),
    {
        let r = TagNode {
            span,
            name: self.name,
            attributes: self.attributes,
            children: self.children,
        };
        proof {
            assert(r@.attributes =~= self@.attributes);
            assert(r@.children =~= self@.children);
        }
        r
    }

    /// Adds a child behind those that the tag holds.
    pub fn push_child(&mut self, child: Node<'src>)
        ensures
            final(self)@ == (TagView { children: old(self)@.children.push(child@), ..old(self)@ }),
    {
        self.children.push(child);
        proof {
            assert(self@.attributes =~= old(self)@.attributes);
            assert(self@.children =~= old(self)@.children.push(child@));
        }
    }

    /// Adds an attribute behind those that the tag holds.
    pub fn push_attribute(&mut self, attribute: NodeAttribute<'src>)
        ensures
            final(self)@ == (TagView {
                attributes: old(self)@.attributes.push(attribute@),
                ..old(self)@
            }),
    {
        self.attributes.push(attribute);
        proof {
            assert(self@.attributes =~= old(self)@.attributes.push(attribute@));
            assert(self@.children =~= old(self)@.children);
        }
    }

    /// Widens the span of the tag to reach over `span` too.
    pub fn extend_span(&mut self, span: &StrSpan<'src>, src: &'src str)
        requires
            old(self)@.span.lies_in(src.spec_bytes()),
            span@.lies_in(src.spec_bytes()),
        ensures
            final(self)@ == (TagView {
                span: old(self)@.span.cover(span@, src.spec_bytes()),
                ..old(self)@
            }),
            final(self)@.span.lies_in(src.spec_bytes()),
    {
        self.span.extend(span, src);
        proof {
            assert(self@.attributes =~= old(self)@.attributes);
            assert(self@.children =~= old(self)@.children);
        }
    }

    /// The index of the last attribute with this prefix and this local
    /// name, if there is one.
    pub fn attribute_index(&self, prefix: Option<&str>, name: &str) -> (r: Option<usize>)
        ensures
            match r {
                Some(i) => self@.is_last_named(i as int, opt_str_view(prefix), name@),
                None => self@.none_named(opt_str_view(prefix), name@),
            },
    {
        let mut i: usize = self.attributes.len();
        while i > 0
            invariant
                i <= self.attributes@.len(),
                forall|j: int|
                    i <= j < self.attributes@.len() ==> !(#[trigger] self@.attributes[j]).name.is(
                        opt_str_view(prefix),
                        name@,
                    ),
            decreases i,
        {
            i -= 1;
            if self.attributes[i].name.equals(prefix, name) {
                return Some(i);
            }
        }
        None
    }

    /// The last attribute with this prefix and this local name, if there
    /// is one.
    #[must_use]
    pub fn get_attribute(&self, prefix: Option<&str>, name: &str) -> (r: Option<
        &NodeAttribute<'src>,
    >)
        ensures
            match r {
                Some(a) => exists|i: int|
                    self@.is_last_named(i, opt_str_view(prefix), name@) && self@.attributes[i]
                        == a@,
                None => self@.none_named(opt_str_view(prefix), name@),
            },
    {
        match self.attribute_index(prefix, name) {
            Some(i) => {
                proof {
                    assert(self@.is_last_named(i as int, opt_str_view(prefix), name@));
                }
                Some(&self.attributes[i])
            },
            None => None,
        }
    }

    /// The span of the tag in the source.
    #[must_use]
    pub fn span(&self) -> (r: &StrSpan<'src>)
        ensures
            r@ == self@.span,
    {
        &self.span
    }

    /// The name of the tag.
    #[must_use]
    pub fn name(&self) -> (r: &NodeName<'src>)
        ensures
            r@ == self@.name,
    {
        &self.name
    }

    /// The attributes in the order of the source, duplicates included.
    #[must_use]
    pub fn attributes(&self) -> (r: &[NodeAttribute<'src>])
        ensures
            r@.len() == self@.attributes.len(),
            forall|i: int| 0 <= i < r@.len() ==> (#[trigger] r@[i])@ == self@.attributes[i],
    {
        self.attributes.as_slice()
    }

    /// The children in the order of the source.
    #[must_use]
    pub fn children(&self) -> (r: &[Node<'src>])
        ensures
            r@.len() == self@.children.len(),
            forall|i: int| 0 <= i < r@.len() ==> (#[trigger] r@[i])@ == self@.children[i],
    {
        self.children.as_slice()
    }

    /// An owned copy of the tag and all below it, without offsets.
    #[must_use]
    pub fn to_owned(&self) -> (r: OwnedTagNode)
        ensures
            r@ == self@.detached(),
        decreases self,
    {
        let mut attributes: Vec<OwnedNodeAttribute> = Vec::new();
        let mut i: usize = 0;
        while i < self.attributes.len()
            invariant
                i <= self.attributes@.len(),
                attributes@.len() == i,
                forall|j: int|
                    0 <= j < i ==> (#[trigger] attributes@[j])@ == self.attributes@[j]@.detached(),
            decreases self.attributes@.len() - i,
        {
            attributes.push(self.attributes[i].to_owned());
            i += 1;
        }
        let mut children: Vec<OwnedNode> = Vec::new();
        let mut k: usize = 0;
        while k < self.children.len()
            invariant
                k <= self.children@.len(),
                children@.len() == k,
                forall|j: int|
                    0 <= j < k ==> (#[trigger] children@[j])@ == self.children@[j]@.detached(),
            decreases self.children@.len() - k,
        {
            children.push(self.children[k].to_owned());
            k += 1;
        }
        let r = OwnedTagNode { name: self.name.to_owned(), attributes, children };
        proof {
            assert(r@.attributes =~= self@.detached().attributes);
            assert(r@.children =~= self@.detached().children);
        }
        r
    }

    /// Writes the tag and all below it to the encoder.
    #[verifier::rlimit(100)]
    pub fn encode(&self, encoder: &mut Encoder)
        ensures
            final(encoder)@ == old(encoder)@.with(self@.encoding(old(encoder)@.source_header)),
        decreases self,
    {
        let ghost header = encoder@.source_header;
        let ghost all = self@.children;
        let ghost start = encoder@.bytes;
        self.write_head(encoder);
        let ghost head = encoder@.bytes;
        let mut i: usize = 0;
        while i < self.children.len()
            invariant
                i <= self.children@.len(),
                all == self@.children,
                all.len() == self.children@.len(),
                encoder@.source_header == header,
                encoder@.bytes == head + nodes_encoding(all, i as nat, header),
            decreases self.children@.len() - i,
        {
            self.children[i].encode(encoder);
            proof {
                assert(all[i as int] == self.children@[i as int]@);
            }
            i += 1;
        }
        proof {
            assert(encoder@.bytes =~= start + (self@.head_encoding(header) + nodes_encoding(
                all,
                all.len(),
                header,
            )));
        }
    }

    /// Writes what stands before the children of the tag: its span, its
    /// name, its attributes and the count of its children.
    fn write_head(&self, encoder: &mut Encoder)
        ensures
            final(encoder)@ == old(encoder)@.with(
                self@.head_encoding(old(encoder)@.source_header),
            ),
    {
        let ghost header = encoder@.source_header;
        let ghost start = encoder@.bytes;
        let _ = self.span.write(encoder);
        let _ = self.name.write(encoder);
        write_attributes(&self.attributes, encoder);
        let _ = self.children.len().write(encoder);
        proof {
            assert(attributes_view(self.attributes@) =~= self@.attributes);
            assert(encoder@.bytes =~= start + self@.head_encoding(header));
        }
    }

    /// Reads a tag and all below it from the decoder.
    ///
    /// # Errors
    /// The failure that `TagView::decoding` names. Only where
    /// `TagView::reserving` holds, the read can also end in the error of a
    /// reservation that was refused.
    #[verifier::rlimit(100)]
    pub fn decode(decoder: &mut Decoder<'src>) -> (r: Result<Self, BinDecodeError>)
        ensures
            final(decoder)@.bytes == old(decoder)@.bytes,
            final(decoder)@.source == old(decoder)@.source,
            read_agrees(
                TagView::decoding(
                    old(decoder)@.bytes,
                    old(decoder)@.cursor as int,
                    old(decoder)@.source,
                ),
                match r {
                    Ok(v) => Ok(v@),
                    Err(e) => Err(e),
                },
                final(decoder)@.cursor - old(decoder)@.cursor,
                TagView::reserving(
                    old(decoder)@.bytes,
                    old(decoder)@.cursor as int,
                    old(decoder)@.source,
                ),
            ),
        decreases old(decoder)@.remaining(), 0nat,
    {
        let ghost buf = decoder@.bytes;
        let ghost src = decoder@.source;
        let ghost start = decoder@.cursor as int;
        let first = decoder.cursor();
        let span = StrSpan::read(decoder)?;
        let name = NodeName::read(decoder)?;
        let attributes = read_attributes(decoder)?;
        let ghost at = decoder@.cursor as int;
        let len = usize::read(decoder)?;
        let mut children: Vec<Node<'src>> = Vec::new();
        if len > 0 {
            match children.try_reserve(len) {
                Ok(()) => {},
                Err(e) => {
                    return Err(BinDecodeError::TryReserveError(e));
                },
            }
        }
        let mut i: usize = 0;
        proof {
            assert(nodes_view(children@) =~= Seq::empty());
        }
        while i < len
            invariant
                i <= len,
                buf == old(decoder)@.bytes,
                src == old(decoder)@.source,
                start == old(decoder)@.cursor,
                start <= at,
                at + 8 <= buf.len(),
                len > 0 ==> TagView::reserving(buf, start, src),
                decoder@.bytes == buf,
                decoder@.source == src,
                children@.len() == i,
                nodes_decoding(buf, at + 8, i as nat, src) == Ok::<
                    (Seq<NodeView>, nat),
                    DecodeFailure,
                >((nodes_view(children@), (decoder@.cursor - at - 8) as nat)),
                decoder@.cursor >= at + 8,
                decoder@.cursor <= buf.len(),
                TagView::decoding(buf, start, src) == match nodes_decoding(
                    buf,
                    at + 8,
                    len as nat,
                    src,
                ) {
                    Err(e) => Err::<(TagView, nat), DecodeFailure>(e),
                    Ok((nodes, n5)) => Ok(
                        (
                            TagView {
                                span: span@,
                                name: name@,
                                attributes: attributes_view(attributes@),
                                children: nodes,
                            },
                            (at + 8 - start + n5) as nat,
                        ),
                    ),
                },
            decreases len - i,
        {
            let ghost before = nodes_view(children@);
            // The cursor is read so that the verifier knows it to lie within the
            // bytes.
            let _ = decoder.cursor();
            match Node::decode(decoder) {
                Ok(item) => {
                    // The cursor is read so that the verifier knows it to lie within the
                    // bytes.
                    let _ = decoder.cursor();
                    children.push(item);
                    proof {
                        assert(nodes_view(children@) =~= before.push(item@));
                    }
                },
                Err(e) => {
                    proof {
                        if e.failure() is Some {
                            crate::node::lemma_nodes_failure_stays(
                                buf,
                                at + 8,
                                (i + 1) as nat,
                                len as nat,
                                src,
                            );
                        }
                    }
                    return Err(e);
                },
            }
            i += 1;
        }
        let r = TagNode { span, name, attributes, children };
        proof {
            assert(r@.attributes =~= attributes_view(attributes@));
            assert(r@.children =~= nodes_view(children@));
        }
        Ok(r)
    }

    /// A copy of the tag and all below it.
    pub fn duplicate(&self) -> (r: Self)
        ensures
            r@ == self@,
        decreases self,
    {
        let mut attributes: Vec<NodeAttribute<'src>> = Vec::new();
        let mut i: usize = 0;
        while i < self.attributes.len()
            invariant
                i <= self.attributes@.len(),
                attributes@.len() == i,
                forall|j: int| 0 <= j < i ==> (#[trigger] attributes@[j])@ == self.attributes@[j]@,
            decreases self.attributes@.len() - i,
        {
            attributes.push(self.attributes[i].duplicate());
            i += 1;
        }
        let mut children: Vec<Node<'src>> = Vec::new();
        let mut k: usize = 0;
        while k < self.children.len()
            invariant
                k <= self.children@.len(),
                children@.len() == k,
                forall|j: int| 0 <= j < k ==> (#[trigger] children@[j])@ == self.children@[j]@,
            decreases self.children@.len() - k,
        {
            children.push(self.children[k].duplicate());
            k += 1;
        }
        let r = TagNode { span: self.span, name: self.name.duplicate(), attributes, children };
        proof {
            assert(r@.attributes =~= self@.attributes);
            assert(r@.children =~= self@.children);
        }
        r
    }

    /// The tag with every offset in it set to zero.
    pub fn stripped(&self) -> (r: Self)
        ensures
            r@ == self@.stripped(),
        decreases self,
    {
        let mut attributes: Vec<NodeAttribute<'src>> = Vec::new();
        let mut i: usize = 0;
        while i < self.attributes.len()
            invariant
                i <= self.attributes@.len(),
                attributes@.len() == i,
                forall|j: int|
                    0 <= j < i ==> (#[trigger] attributes@[j])@ == self.attributes@[j]@.stripped(),
            decreases self.attributes@.len() - i,
        {
            attributes.push(self.attributes[i].stripped());
            i += 1;
        }
        let mut children: Vec<Node<'src>> = Vec::new();
        let mut k: usize = 0;
        while k < self.children.len()
            invariant
                k <= self.children@.len(),
                children@.len() == k,
                forall|j: int|
                    0 <= j < k ==> (#[trigger] children@[j])@ == self.children@[j]@.stripped(),
            decreases self.children@.len() - k,
        {
            children.push(self.children[k].stripped());
            k += 1;
        }
        let r = TagNode {
            span: self.span.unplaced(),
            name: self.name.stripped(),
            attributes,
            children,
        };
        proof {
            assert(r@.attributes =~= self@.stripped().attributes);
            assert(r@.children =~= self@.stripped().children);
        }
        r
    }

    /// Sets every offset in the tag to zero and keeps the text.
    pub fn strip_metadata(&mut self)
        ensures
            final(self)@ == old(self)@.stripped(),
    {
        *self = self.stripped();
    }
}

impl<'src> ToBinHandler<'src> for TagNode<'src> {
    type Model = TagView;

    open spec fn reserving(buf: Seq<u8>, pos: int, src: Option<Seq<u8>>) -> bool {
        TagView::reserving(buf, pos, src)
    }

    open spec fn model(&self) -> TagView {
        self@
    }

    open spec fn encoding(m: TagView, header: bool) -> Seq<u8> {
        m.encoding(header)
    }

    open spec fn decoding(buf: Seq<u8>, pos: int, src: Option<Seq<u8>>) -> Decoded<TagView> {
        TagView::decoding(buf, pos, src)
    }

    fn write(&self, encoder: &mut Encoder) -> (r: std::io::Result<()>) {
        self.encode(encoder);
        Ok(())
    }

    fn read(decoder: &mut Decoder<'src>) -> (r: Result<Self, BinDecodeError>) {
        TagNode::decode(decoder)
    }
}

impl<'src> Clone for TagNode<'src> {
    fn clone(&self) -> (r: Self)
        ensures
            r@ == self@,
    {
        self.duplicate()
    }
}

/// An owned tag, without offsets.
#[derive(Debug, PartialEq)]
pub struct OwnedTagNode {
    /// The name of the tag.
    pub name: OwnedNodeName,
    /// The attributes in order, duplicates included.
    pub attributes: Vec<OwnedNodeAttribute>,
    /// The children in order.
    pub children: Vec<OwnedNode>,
}

impl View for OwnedTagNode {
    type V = TagView;

    open spec fn view(&self) -> TagView {
        owned_tag_view(self)
    }
}

impl OwnedTagNode {
    /// A tag of this name without attributes or children.
    #[must_use]
    pub fn new(name: OwnedNodeName) -> (r: Self)
        ensures
            r@ == (TagView {
                span: SpanView::empty(),
                name: name@,
                attributes: Seq::empty(),
                children: Seq::empty(),
            }),
            r.name == name,
            r.attributes@ == Seq::<OwnedNodeAttribute>::empty(),
            r.children@ == Seq::<OwnedNode>::empty(),
    {
        let r = OwnedTagNode { name, attributes: Vec::new(), children: Vec::new() };
        proof {
            assert(r@.attributes =~= Seq::empty());
            assert(r@.children =~= Seq::empty());
        }
        r
    }

    /// The index of the last attribute with this prefix and this local
    /// name, if there is one.
    pub fn attribute_index(&self, prefix: Option<&str>, name: &str) -> (r: Option<usize>)
        ensures
            match r {
                Some(i) => self@.is_last_named(i as int, opt_str_view(prefix), name@),
                None => self@.none_named(opt_str_view(prefix), name@),
            },
    {
        let mut i: usize = self.attributes.len();
        while i > 0
            invariant
                i <= self.attributes@.len(),
                forall|j: int|
                    i <= j < self.attributes@.len() ==> !(#[trigger] self@.attributes[j]).name.is(
                        opt_str_view(prefix),
                        name@,
                    ),
            decreases i,
        {
            i -= 1;
            if self.attributes[i].name.equals(prefix, name) {
                return Some(i);
            }
        }
        None
    }

    /// The last attribute with this prefix and this local name, if there
    /// is one.
    #[must_use]
    pub fn get_attribute(&self, prefix: Option<&str>, name: &str) -> (r: Option<
        &OwnedNodeAttribute,
    >)
        ensures
            match r {
                Some(a) => exists|i: int|
                    self@.is_last_named(i, opt_str_view(prefix), name@) && self@.attributes[i]
                        == a@,
                None => self@.none_named(opt_str_view(prefix), name@),
            },
    {
        match self.attribute_index(prefix, name) {
            Some(i) => {
                proof {
                    assert(self@.is_last_named(i as int, opt_str_view(prefix), name@));
                }
                Some(&self.attributes[i])
            },
            None => None,
        }
    }

    /// The last attribute with this prefix and this local name, if there
    /// is one, to be changed in place.
    #[must_use]
    pub fn get_attribute_mut(&mut self, prefix: Option<&str>, name: &str) -> (r: Option<
        &mut OwnedNodeAttribute,
    >)
        ensures
            match r {
                Some(a) => exists|i: int|
                    {
                        &&& old(self)@.is_last_named(i, opt_str_view(prefix), name@)
                        &&& *a == old(self).attributes@[i]
                        &&& final(self).attributes@ == old(self).attributes@.update(
                            i,
                            *final(a),
                        )
                        &&& final(self).name == old(self).name
                        &&& final(self).children == old(self).children
                    },
                None => old(self)@.none_named(opt_str_view(prefix), name@) && *final(self)
                    == *old(self),
            },
    {
        match self.attribute_index(prefix, name) {
            Some(i) => {
                proof {
                    assert(self@.is_last_named(i as int, opt_str_view(prefix), name@));
                }
                Some(&mut self.attributes[i])
            },
            None => None,
        }
    }

    /// A copy of the tag and all below it.
    pub fn duplicate(&self) -> (r: Self)
        ensures
            r@ == self@,
        decreases self,
    {
        let mut attributes: Vec<OwnedNodeAttribute> = Vec::new();
        let mut i: usize = 0;
        while i < self.attributes.len()
            invariant
                i <= self.attributes@.len(),
                attributes@.len() == i,
                forall|j: int| 0 <= j < i ==> (#[trigger] attributes@[j])@ == self.attributes@[j]@,
            decreases self.attributes@.len() - i,
        {
            attributes.push(self.attributes[i].duplicate());
            i += 1;
        }
        let mut children: Vec<OwnedNode> = Vec::new();
        let mut k: usize = 0;
        while k < self.children.len()
            invariant
                k <= self.children@.len(),
                children@.len() == k,
                forall|j: int| 0 <= j < k ==> (#[trigger] children@[j])@ == self.children@[j]@,
            decreases self.children@.len() - k,
        {
            children.push(self.children[k].duplicate());
            k += 1;
        }
        let r = OwnedTagNode { name: self.name.duplicate(), attributes, children };
        proof {
            assert(r@.attributes =~= self@.attributes);
            assert(r@.children =~= self@.children);
        }
        r
    }

    /// The tag as spans over the owned strings, at offset zero.
    pub fn borrowed(&self) -> (r: TagNode<'_>)
        ensures
            r@ == self@,
        decreases self,
    {
        let mut attributes: Vec<NodeAttribute<'_>> = Vec::new();
        let mut i: usize = 0;
        while i < self.attributes.len()
            invariant
                i <= self.attributes@.len(),
                attributes@.len() == i,
                forall|j: int| 0 <= j < i ==> (#[trigger] attributes@[j])@ == self.attributes@[j]@,
            decreases self.attributes@.len() - i,
        {
            attributes.push(self.attributes[i].borrowed());
            i += 1;
        }
        let mut children: Vec<Node<'_>> = Vec::new();
        let mut k: usize = 0;
        while k < self.children.len()
            invariant
                k <= self.children@.len(),
                children@.len() == k,
                forall|j: int| 0 <= j < k ==> (#[trigger] children@[j])@ == self.children@[j]@,
            decreases self.children@.len() - k,
        {
            children.push(self.children[k].borrowed());
            k += 1;
        }
        let r = TagNode {
            span: StrSpan::empty(),
            name: self.name.borrowed(),
            attributes,
            children,
        };
        proof {
            assert(r@.attributes =~= self@.attributes);
            assert(r@.children =~= self@.children);
        }
        r
    }
}

impl Clone for OwnedTagNode {
    fn clone(&self) -> (r: Self)
        ensures
            r@ == self@,
    {
        self.duplicate()
    }
}

/// An attribute of a tag: `name="value"`.
#[derive(Debug, Clone, PartialEq)]
pub struct NodeAttribute<'src> {
    pub(crate) span: StrSpan<'src>,
    pub(crate) name: NodeName<'src>,
    pub(crate) value: StrSpan<'src>,
}

impl<'src> View for NodeAttribute<'src> {
    type V = AttributeView;

    open(crate) spec fn view(&self) -> AttributeView {
        AttributeView { span: self.span@, name: self.name@, value: self.value@ }
    }
}

impl<'src> NodeAttribute<'src> {
    /// An attribute of this name and value, without span.
    pub fn new(prefix: Option<StrSpan<'src>>, local: StrSpan<'src>, value: StrSpan<'src>) -> (r:
        Self)
        ensures
            r@ == (AttributeView {
                span: SpanView::empty(),
                name: NameView { prefix: opt_view(prefix), local: local@ },
                value: value@,
            }),
    {
        NodeAttribute { span: StrSpan::empty(), name: NodeName::new(prefix, local), value }
    }

    /// The same attribute with `span` as its span.
    pub fn with_span(self, span: StrSpan<'src>) -> (r: Self)
        ensures
            r@ == (AttributeView { span: span@, ..self@ }),
    {
        NodeAttribute { span, name: self.name, value: self.value }
    }

    /// The name of the attribute.
    #[must_use]
    pub fn name(&self) -> (r: &NodeName<'src>)
        ensures
            r@ == self@.name,
    {
        &self.name
    }

    /// The value of the attribute.
    #[must_use]
    pub fn value(&self) -> (r: &StrSpan<'src>)
        ensures
            r@ == self@.value,
    {
        &self.value
    }

    /// The span of the attribute in the source.
    #[must_use]
    pub fn span(&self) -> (r: &StrSpan<'src>)
        ensures
            r@ == self@.span,
    {
        &self.span
    }

    /// An owned copy of the attribute, without offsets.
    #[must_use]
    pub fn to_owned(&self) -> (r: OwnedNodeAttribute)
        ensures
            r@ == self@.detached(),
    {
        OwnedNodeAttribute { name: self.name.to_owned(), value: self.value.text().to_owned() }
    }

    /// A copy of the attribute.
    pub fn duplicate(&self) -> (r: Self)
        ensures
            r@ == self@,
    {
        NodeAttribute { span: self.span, name: self.name.duplicate(), value: self.value }
    }

    /// The attribute with every offset set to zero.
    pub fn stripped(&self) -> (r: Self)
        ensures
            r@ == self@.stripped(),
    {
        NodeAttribute {
            span: self.span.unplaced(),
            name: self.name.stripped(),
            value: self.value.unplaced(),
        }
    }

    /// Sets every offset of the attribute to zero and keeps the text.
    pub fn strip_metadata(&mut self)
        ensures
            final(self)@ == old(self)@.stripped(),
    {
        *self = self.stripped();
    }
}

impl<'src> ToBinHandler<'src> for NodeAttribute<'src> {
    type Model = AttributeView;

    open spec fn reserving(buf: Seq<u8>, pos: int, src: Option<Seq<u8>>) -> bool {
        false
    }

    open spec fn model(&self) -> AttributeView {
        self@
    }

    open spec fn encoding(m: AttributeView, header: bool) -> Seq<u8> {
        m.encoding(header)
    }

    open spec fn decoding(buf: Seq<u8>, pos: int, src: Option<Seq<u8>>) -> Decoded<
        AttributeView,
    > {
        AttributeView::decoding(buf, pos, src)
    }

    fn write(&self, encoder: &mut Encoder) -> (r: std::io::Result<()>) {
        let _ = self.span.write(encoder);
        let _ = self.name.write(encoder);
        let _ = self.value.write(encoder);
        proof {
            assert(encoder@.bytes =~= old(encoder)@.bytes + self@.encoding(
                old(encoder)@.source_header,
            ));
        }
        Ok(())
    }

    fn read(decoder: &mut Decoder<'src>) -> (r: Result<Self, BinDecodeError>) {
        proof {
            reveal(AttributeView::decoding);
        }
        let span = StrSpan::read(decoder)?;
        let name = NodeName::read(decoder)?;
        let value = StrSpan::read(decoder)?;
        Ok(NodeAttribute { span, name, value })
    }
}

/// An owned attribute, without offsets.
#[derive(Debug, Clone, PartialEq)]
pub struct OwnedNodeAttribute {
    /// The name of the attribute.
    pub name: OwnedNodeName,
    /// The value of the attribute.
    pub value: String,
}

impl View for OwnedNodeAttribute {
    type V = AttributeView;

    open spec fn view(&self) -> AttributeView {
        AttributeView { span: SpanView::empty(), name: self.name@, value: owned_span(self.value@) }
    }
}

impl OwnedNodeAttribute {
    /// An attribute of this name and value.
    pub fn new(name: OwnedNodeName, value: &str) -> (r: Self)
        ensures
            r@ == (AttributeView {
                span: SpanView::empty(),
                name: name@,
                value: owned_span(value@),
            }),
    {
        OwnedNodeAttribute { name, value: value.to_owned() }
    }

    /// A copy of the attribute.
    pub fn duplicate(&self) -> (r: Self)
        ensures
            r@ == self@,
    {
        OwnedNodeAttribute { name: self.name.duplicate(), value: self.value.clone() }
    }

    /// The attribute as spans over the owned strings, at offset zero.
    pub fn borrowed(&self) -> (r: NodeAttribute<'_>)
        ensures
            r@ == self@,
    {
        NodeAttribute {
            span: StrSpan::empty(),
            name: self.name.borrowed(),
            value: StrSpan::from_str(self.value.as_str()),
        }
    }
}

/// An owned value is written as the spans over its strings are, and read
/// as an owned copy of what the stream holds.
impl<'src> ToBinHandler<'src> for OwnedNodeAttribute {
    type Model = AttributeView;

    open spec fn reserving(buf: Seq<u8>, pos: int, src: Option<Seq<u8>>) -> bool {
        false
    }

    open spec fn model(&self) -> AttributeView {
        self@
    }

    open spec fn encoding(m: AttributeView, header: bool) -> Seq<u8> {
        m.encoding(header)
    }

    open spec fn decoding(buf: Seq<u8>, pos: int, src: Option<Seq<u8>>) -> Decoded<AttributeView> {
        match AttributeView::decoding(buf, pos, src) {
            Ok((m, used)) => Ok((m.detached(), used)),
            Err(e) => Err(e),
        }
    }

    fn write(&self, encoder: &mut Encoder) -> (r: std::io::Result<()>) {
        self.borrowed().write(encoder)
    }

    fn read(decoder: &mut Decoder<'src>) -> (r: Result<Self, BinDecodeError>) {
        match NodeAttribute::read(decoder) {
            Ok(node) => Ok(node.to_owned()),
            Err(e) => Err(e),
        }
    }
}

/// An owned value is written as the spans over its strings are, and read
/// as an owned copy of what the stream holds.
impl<'src> ToBinHandler<'src> for OwnedTagNode {
    type Model = TagView;

    open spec fn reserving(buf: Seq<u8>, pos: int, src: Option<Seq<u8>>) -> bool {
        TagView::reserving(buf, pos, src)
    }

    open spec fn model(&self) -> TagView {
        self@
    }

    open spec fn encoding(m: TagView, header: bool) -> Seq<u8> {
        m.encoding(header)
    }

    open spec fn decoding(buf: Seq<u8>, pos: int, src: Option<Seq<u8>>) -> Decoded<TagView> {
        match TagView::decoding(buf, pos, src) {
            Ok((m, used)) => Ok((m.detached(), used)),
            Err(e) => Err(e),
        }
    }

    fn write(&self, encoder: &mut Encoder) -> (r: std::io::Result<()>) {
        self.borrowed().encode(encoder);
        Ok(())
    }

    fn read(decoder: &mut Decoder<'src>) -> (r: Result<Self, BinDecodeError>) {
        match TagNode::decode(decoder) {
            Ok(node) => Ok(node.to_owned()),
            Err(e) => Err(e),
        }
    }
}

} // verus!
