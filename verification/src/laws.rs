//! What holds of the library as a whole, proved from the contracts of its
//! functions.
use vstd::prelude::*;
use vstd::bytes::*;
use vstd::utf8::*;
use crate::document::{
    counted_nodes_decoding, counted_nodes_encoding, header_sourced, header_unsourced,
    nodes_detached, nodes_storable, opt_declaration_decoding, opt_declaration_detached,
    nodes_stripped, opt_declaration_encoding, opt_declaration_storable, opt_flag_decoding,
    opt_flag_encoding, opt_utf8, DeclarationView, DocumentView, OwnedDocument,
};
use crate::node::dtd::{
    counted_entities_decoding, entities_decoding, entities_encoding, opt_id_decoding,
    opt_id_encoding, opt_id_storable, opt_id_stripped,
};
use crate::node::tag::{
    attributes_decoding, attributes_encoding, counted_attributes_decoding, OwnedTagNode,
};
use crate::node::{nodes_decoding, nodes_encoding, OwnedNode};
use crate::to_xml::{
    attributes_escapable, attributes_rendered, children_escapable, children_rendered, deeper,
    document_escapable, document_rendered, entities_escapable, entities_rendered,
    leaf_escapable, leaf_rendered, leaves_escapable, leaves_rendered, node_escapable,
    node_rendered, tag_escapable, tag_rendered,
};
use crate::strspan::{
    opt_span_decoding, opt_span_encoding, opt_storable, opt_unplaced,
};
use crate::to_bin::{
    byte_decoding, bytes_left, count_decoding, count_encoding, text_decoding, text_encoding,
    DecodeFailure, Decoded,
};
use crate::node::cdata::CdataView;
use crate::node::dtd::{DtdEntityView, DtdView, EntityDefinitionView, ExternalIdView};
use crate::node::name::NameView;
use crate::node::pi::PiView;
use crate::node::tag::{AttributeView, TagView};
use crate::node::text::TextView;
use crate::node::NodeView;
use crate::strspan::SpanView;

verus! {

/// Stripping the metadata of an entity declaration a second time changes
/// nothing.
pub proof fn law_entity_strip_idempotent(entity: DtdEntityView)
    ensures
        entity.stripped().stripped() == entity.stripped(),
{
}

/// Stripping the metadata of a document type declaration a second time
/// changes nothing.
pub proof fn law_dtd_strip_idempotent(dtd: DtdView)
    ensures
        dtd.stripped().stripped() == dtd.stripped(),
{
    assert(dtd.stripped().stripped().entities =~= dtd.stripped().entities);
}

/// Stripping the metadata of a tag and of all below it a second time
/// changes nothing.
pub proof fn law_tag_strip_idempotent(tag: TagView)
    ensures
        tag.stripped().stripped() == tag.stripped(),
    decreases tag,
{
    let once = tag.stripped();
    let twice = once.stripped();
    assert(twice.attributes =~= once.attributes);
    assert forall|i: int| 0 <= i < once.children.len() implies twice.children[i]
        == once.children[i] by {
        law_node_strip_idempotent(tag.children[i]);
    }
    assert(twice.children =~= once.children);
}

/// Stripping the metadata of a node and of all below it a second time
/// changes nothing.
pub proof fn law_node_strip_idempotent(node: NodeView)
    ensures
        node.stripped().stripped() == node.stripped(),
    decreases node,
{
    match node {
        NodeView::Child(t) => law_tag_strip_idempotent(t),
        NodeView::DocumentType(d) => law_dtd_strip_idempotent(d),
        _ => {},
    }
}

/// Stripping the metadata of a document a second time changes nothing.
pub proof fn law_strip_idempotent(doc: DocumentView)
    ensures
        doc.stripped().stripped() == doc.stripped(),
{
    let once = doc.stripped();
    let twice = once.stripped();
    law_tag_strip_idempotent(doc.root);
    assert forall|i: int| 0 <= i < once.prolog.len() implies twice.prolog[i] == once.prolog[i] by {
        law_node_strip_idempotent(doc.prolog[i]);
    }
    assert forall|i: int| 0 <= i < once.epilog.len() implies twice.epilog[i] == once.epilog[i] by {
        law_node_strip_idempotent(doc.epilog[i]);
    }
    assert(twice.prolog =~= once.prolog);
    assert(twice.epilog =~= once.epilog);
}

/// An owned copy of an owned copy of a tag stands for what the first copy
/// stands for.
proof fn lemma_tag_detached_idempotent(tag: TagView)
    ensures
        tag.detached().detached() == tag.detached(),
    decreases tag,
{
    let once = tag.detached();
    let twice = once.detached();
    assert(twice.attributes =~= once.attributes);
    assert forall|i: int| 0 <= i < once.children.len() implies twice.children[i]
        == once.children[i] by {
        lemma_node_detached_idempotent(tag.children[i]);
    }
    assert(twice.children =~= once.children);
}

/// An owned copy of an owned copy of a node stands for what the first copy
/// stands for.
proof fn lemma_node_detached_idempotent(node: NodeView)
    ensures
        node.detached().detached() == node.detached(),
    decreases node,
{
    match node {
        NodeView::Child(t) => lemma_tag_detached_idempotent(t),
        NodeView::DocumentType(d) => {
            assert(d.detached().detached().entities =~= d.detached().entities);
        },
        _ => {},
    }
}

/// Converting between the borrowed and the owned form loses nothing but
/// the source and the offsets: an owned copy of an owned copy of a
/// document stands for what the first copy stands for.
pub proof fn law_detached_idempotent(doc: DocumentView)
    ensures
        doc.detached().detached() == doc.detached(),
{
    let once = doc.detached();
    let twice = once.detached();
    lemma_tag_detached_idempotent(doc.root);
    assert forall|i: int| 0 <= i < once.prolog.len() implies twice.prolog[i] == once.prolog[i] by {
        lemma_node_detached_idempotent(doc.prolog[i]);
    }
    assert forall|i: int| 0 <= i < once.epilog.len() implies twice.epilog[i] == once.epilog[i] by {
        lemma_node_detached_idempotent(doc.epilog[i]);
    }
    assert(twice.prolog =~= once.prolog);
    assert(twice.epilog =~= once.epilog);
}

/// True when `buf` holds `bytes` at `pos`.
pub open spec fn holds_at(buf: Seq<u8>, pos: int, bytes: Seq<u8>) -> bool {
    &&& 0 <= pos
    &&& pos + bytes.len() <= buf.len()
    &&& buf.subrange(pos, pos + bytes.len()) == bytes
}

/// Where a buffer holds two runs of bytes one behind the other, it holds
/// each of them at its place.
proof fn lemma_holds_split(buf: Seq<u8>, pos: int, a: Seq<u8>, b: Seq<u8>)
    requires
        holds_at(buf, pos, a + b),
    ensures
        holds_at(buf, pos, a),
        holds_at(buf, pos + a.len(), b),
{
    let whole = buf.subrange(pos, pos + (a + b).len());
    assert(buf.subrange(pos, pos + a.len()) =~= whole.subrange(0, a.len() as int));
    assert(whole.subrange(0, a.len() as int) =~= a);
    assert(buf.subrange(pos + a.len(), pos + a.len() + b.len()) =~= whole.subrange(
        a.len() as int,
        (a + b).len() as int,
    ));
    assert(whole.subrange(a.len() as int, (a + b).len() as int) =~= b);
}

/// A byte at the start of a run of bytes is read back.
proof fn lemma_byte_round_trip(b: u8, rest: Seq<u8>, buf: Seq<u8>, pos: int)
    requires
        holds_at(buf, pos, seq![b] + rest),
    ensures
        byte_decoding(buf, pos) == Ok::<(u8, nat), DecodeFailure>((b, 1)),
        holds_at(buf, pos + 1, rest),
{
    lemma_holds_split(buf, pos, seq![b], rest);
    assert(buf.subrange(pos, pos + 1)[0] == b);
}

/// A count that was written is read back.
proof fn lemma_count_round_trip(n: usize, buf: Seq<u8>, pos: int)
    requires
        holds_at(buf, pos, count_encoding(n)),
    ensures
        count_decoding(buf, pos) == Ok::<(usize, nat), DecodeFailure>((n, 8)),
        count_encoding(n).len() == 8,
{
    lemma_auto_spec_u64_to_from_le_bytes();
}

/// A count has eight bytes.
proof fn lemma_count_len(n: usize)
    ensures
        count_encoding(n).len() == 8,
{
    lemma_auto_spec_u64_to_from_le_bytes();
}

/// A text that was written is read back.
proof fn lemma_text_round_trip(text: Seq<char>, buf: Seq<u8>, pos: int)
    requires
        encode_utf8(text).len() <= usize::MAX,
        holds_at(buf, pos, text_encoding(text)),
    ensures
        text_decoding(buf, pos) == Ok::<(Seq<char>, nat), DecodeFailure>(
            (text, text_encoding(text).len()),
        ),
{
    let bytes = encode_utf8(text);
    lemma_count_len(bytes.len() as usize);
    lemma_holds_split(buf, pos, count_encoding(bytes.len() as usize), bytes);
    lemma_count_round_trip(bytes.len() as usize, buf, pos);
    encode_utf8_valid_utf8(text);
    encode_utf8_decode_utf8(text);
}

/// A span that was written is read back: as it was, where the stream
/// brings its source; with the same text, where it does not.
proof fn lemma_span_round_trip(m: SpanView, mode: Option<Seq<u8>>, buf: Seq<u8>, pos: int)
    requires
        m.storable(mode),
        holds_at(buf, pos, m.encoding(mode is Some)),
    ensures
        SpanView::decoding(buf, pos, mode) is Ok,
        SpanView::decoding(buf, pos, mode)->Ok_0.1 == m.encoding(mode is Some).len(),
        mode is Some ==> SpanView::decoding(buf, pos, mode)->Ok_0.0 == m,
        mode is None ==> SpanView::decoding(buf, pos, mode)->Ok_0.0.text == m.text,
{
    reveal(SpanView::decoding);
    match mode {
        Some(src) => {
            let a = count_encoding(m.start as usize);
            let b = count_encoding(m.len() as usize);
            lemma_count_len(m.start as usize);
            lemma_count_len(m.len() as usize);
            lemma_holds_split(buf, pos, a, b);
            lemma_count_round_trip(m.start as usize, buf, pos);
            lemma_count_round_trip(m.len() as usize, buf, pos + 8);
            encode_utf8_decode_utf8(m.text);
        },
        None => {
            lemma_text_round_trip(m.text, buf, pos);
        },
    }
}

/// An optional span that was written is read back.
proof fn lemma_opt_span_round_trip(
    m: Option<SpanView>,
    mode: Option<Seq<u8>>,
    buf: Seq<u8>,
    pos: int,
)
    requires
        opt_storable(m, mode),
        holds_at(buf, pos, opt_span_encoding(m, mode is Some)),
    ensures
        opt_span_decoding(buf, pos, mode) is Ok,
        opt_span_decoding(buf, pos, mode)->Ok_0.1 == opt_span_encoding(m, mode is Some).len(),
        mode is Some ==> opt_span_decoding(buf, pos, mode)->Ok_0.0 == m,
        mode is None ==> opt_unplaced(opt_span_decoding(buf, pos, mode)->Ok_0.0) == opt_unplaced(
            m,
        ),
{
    reveal(opt_span_decoding);
    match m {
        Some(v) => {
            lemma_byte_round_trip(1, v.encoding(mode is Some), buf, pos);
            lemma_span_round_trip(v, mode, buf, pos + 1);
        },
        None => {
            lemma_byte_round_trip(0, Seq::empty(), buf, pos);
        },
    }
}

/// A name that was written is read back.
proof fn lemma_name_round_trip(m: NameView, mode: Option<Seq<u8>>, buf: Seq<u8>, pos: int)
    requires
        m.storable(mode),
        holds_at(buf, pos, m.encoding(mode is Some)),
    ensures
        NameView::decoding(buf, pos, mode) is Ok,
        NameView::decoding(buf, pos, mode)->Ok_0.1 == m.encoding(mode is Some).len(),
        mode is Some ==> NameView::decoding(buf, pos, mode)->Ok_0.0 == m,
        mode is None ==> NameView::decoding(buf, pos, mode)->Ok_0.0.detached() == m.detached(),
{
    reveal(NameView::decoding);
    let h = mode is Some;
    let a = opt_span_encoding(m.prefix, h);
    lemma_holds_split(buf, pos, a, m.local.encoding(h));
    lemma_opt_span_round_trip(m.prefix, mode, buf, pos);
    lemma_span_round_trip(m.local, mode, buf, pos + a.len());
}

/// A text node that was written is read back.
proof fn lemma_text_node_round_trip(m: TextView, mode: Option<Seq<u8>>, buf: Seq<u8>, pos: int)
    requires
        m.storable(mode),
        holds_at(buf, pos, m.encoding(mode is Some)),
    ensures
        TextView::decoding(buf, pos, mode) is Ok,
        TextView::decoding(buf, pos, mode)->Ok_0.1 == m.encoding(mode is Some).len(),
        mode is Some ==> TextView::decoding(buf, pos, mode)->Ok_0.0 == m,
        mode is None ==> TextView::decoding(buf, pos, mode)->Ok_0.0.detached() == m.detached(),
{
    reveal(TextView::decoding);
    let h = mode is Some;
    let a = m.span.encoding(h);
    lemma_holds_split(buf, pos, a, m.text.encoding(h));
    lemma_span_round_trip(m.span, mode, buf, pos);
    lemma_span_round_trip(m.text, mode, buf, pos + a.len());
}

/// A CDATA section that was written is read back.
proof fn lemma_cdata_round_trip(m: CdataView, mode: Option<Seq<u8>>, buf: Seq<u8>, pos: int)
    requires
        m.storable(mode),
        holds_at(buf, pos, m.encoding(mode is Some)),
    ensures
        CdataView::decoding(buf, pos, mode) is Ok,
        CdataView::decoding(buf, pos, mode)->Ok_0.1 == m.encoding(mode is Some).len(),
        mode is Some ==> CdataView::decoding(buf, pos, mode)->Ok_0.0 == m,
        mode is None ==> CdataView::decoding(buf, pos, mode)->Ok_0.0.detached() == m.detached(),
{
    reveal(CdataView::decoding);
    let h = mode is Some;
    let a = m.span.encoding(h);
    lemma_holds_split(buf, pos, a, m.content.encoding(h));
    lemma_span_round_trip(m.span, mode, buf, pos);
    lemma_span_round_trip(m.content, mode, buf, pos + a.len());
}

/// A processing instruction that was written is read back.
proof fn lemma_pi_round_trip(m: PiView, mode: Option<Seq<u8>>, buf: Seq<u8>, pos: int)
    requires
        m.storable(mode),
        holds_at(buf, pos, m.encoding(mode is Some)),
    ensures
        PiView::decoding(buf, pos, mode) is Ok,
        PiView::decoding(buf, pos, mode)->Ok_0.1 == m.encoding(mode is Some).len(),
        mode is Some ==> PiView::decoding(buf, pos, mode)->Ok_0.0 == m,
        mode is None ==> PiView::decoding(buf, pos, mode)->Ok_0.0.detached() == m.detached(),
{
    reveal(PiView::decoding);
    let h = mode is Some;
    let a = m.span.encoding(h);
    let b = m.target.encoding(h);
    let c = opt_span_encoding(m.content, h);
    lemma_holds_split(buf, pos, a + b, c);
    lemma_holds_split(buf, pos, a, b);
    lemma_span_round_trip(m.span, mode, buf, pos);
    lemma_span_round_trip(m.target, mode, buf, pos + a.len());
    lemma_opt_span_round_trip(m.content, mode, buf, pos + a.len() + b.len());
}

/// An external identifier that was written is read back.
proof fn lemma_id_round_trip(m: ExternalIdView, mode: Option<Seq<u8>>, buf: Seq<u8>, pos: int)
    requires
        m.storable(mode),
        holds_at(buf, pos, m.encoding(mode is Some)),
    ensures
        ExternalIdView::decoding(buf, pos, mode) is Ok,
        ExternalIdView::decoding(buf, pos, mode)->Ok_0.1 == m.encoding(mode is Some).len(),
        mode is Some ==> ExternalIdView::decoding(buf, pos, mode)->Ok_0.0 == m,
        mode is None ==> ExternalIdView::decoding(buf, pos, mode)->Ok_0.0.detached()
            == m.detached(),
{
    reveal(ExternalIdView::decoding);
    let h = mode is Some;
    match m {
        ExternalIdView::System(s) => {
            lemma_byte_round_trip(0, s.encoding(h), buf, pos);
            lemma_span_round_trip(s, mode, buf, pos + 1);
        },
        ExternalIdView::Public(p, s) => {
            assert(seq![1u8] + p.encoding(h) + s.encoding(h) =~= seq![1u8] + (p.encoding(h)
                + s.encoding(h)));
            lemma_byte_round_trip(1, p.encoding(h) + s.encoding(h), buf, pos);
            lemma_holds_split(buf, pos + 1, p.encoding(h), s.encoding(h));
            lemma_span_round_trip(p, mode, buf, pos + 1);
            lemma_span_round_trip(s, mode, buf, pos + 1 + p.encoding(h).len());
        },
    }
}

/// An optional external identifier that was written is read back.
proof fn lemma_opt_id_round_trip(
    m: Option<ExternalIdView>,
    mode: Option<Seq<u8>>,
    buf: Seq<u8>,
    pos: int,
)
    requires
        opt_id_storable(m, mode),
        holds_at(buf, pos, opt_id_encoding(m, mode is Some)),
    ensures
        opt_id_decoding(buf, pos, mode) is Ok,
        opt_id_decoding(buf, pos, mode)->Ok_0.1 == opt_id_encoding(m, mode is Some).len(),
        mode is Some ==> opt_id_decoding(buf, pos, mode)->Ok_0.0 == m,
        mode is None ==> opt_id_stripped(opt_id_decoding(buf, pos, mode)->Ok_0.0)
            == opt_id_stripped(m),
{
    reveal(opt_id_decoding);
    match m {
        Some(v) => {
            lemma_byte_round_trip(1, v.encoding(mode is Some), buf, pos);
            lemma_id_round_trip(v, mode, buf, pos + 1);
        },
        None => {
            lemma_byte_round_trip(0, Seq::empty(), buf, pos);
        },
    }
}

/// An entity definition that was written is read back.
proof fn lemma_definition_round_trip(
    m: EntityDefinitionView,
    mode: Option<Seq<u8>>,
    buf: Seq<u8>,
    pos: int,
)
    requires
        m.storable(mode),
        holds_at(buf, pos, m.encoding(mode is Some)),
    ensures
        EntityDefinitionView::decoding(buf, pos, mode) is Ok,
        EntityDefinitionView::decoding(buf, pos, mode)->Ok_0.1 == m.encoding(
            mode is Some,
        ).len(),
        mode is Some ==> EntityDefinitionView::decoding(buf, pos, mode)->Ok_0.0 == m,
        mode is None ==> EntityDefinitionView::decoding(buf, pos, mode)->Ok_0.0.detached()
            == m.detached(),
{
    reveal(EntityDefinitionView::decoding);
    let h = mode is Some;
    match m {
        EntityDefinitionView::EntityValue(v) => {
            lemma_byte_round_trip(0, v.encoding(h), buf, pos);
            lemma_span_round_trip(v, mode, buf, pos + 1);
        },
        EntityDefinitionView::ExternalId(id) => {
            lemma_byte_round_trip(1, id.encoding(h), buf, pos);
            lemma_id_round_trip(id, mode, buf, pos + 1);
        },
    }
}

/// An entity declaration that was written is read back.
proof fn lemma_entity_round_trip(m: DtdEntityView, mode: Option<Seq<u8>>, buf: Seq<u8>, pos: int)
    requires
        m.storable(mode),
        holds_at(buf, pos, m.encoding(mode is Some)),
    ensures
        DtdEntityView::decoding(buf, pos, mode) is Ok,
        DtdEntityView::decoding(buf, pos, mode)->Ok_0.1 == m.encoding(mode is Some).len(),
        mode is Some ==> DtdEntityView::decoding(buf, pos, mode)->Ok_0.0 == m,
        mode is None ==> DtdEntityView::decoding(buf, pos, mode)->Ok_0.0.detached()
            == m.detached(),
{
    reveal(DtdEntityView::decoding);
    let h = mode is Some;
    let a = m.span.encoding(h);
    let b = m.name.encoding(h);
    let c = m.definition.encoding(h);
    lemma_holds_split(buf, pos, a + b, c);
    lemma_holds_split(buf, pos, a, b);
    lemma_span_round_trip(m.span, mode, buf, pos);
    lemma_span_round_trip(m.name, mode, buf, pos + a.len());
    lemma_definition_round_trip(m.definition, mode, buf, pos + a.len() + b.len());
}

/// Entity declarations that were written one behind the other are read
/// back.
proof fn lemma_entities_round_trip(
    items: Seq<DtdEntityView>,
    mode: Option<Seq<u8>>,
    buf: Seq<u8>,
    pos: int,
)
    requires
        forall|i: int| 0 <= i < items.len() ==> (#[trigger] items[i]).storable(mode),
        holds_at(buf, pos, entities_encoding(items, mode is Some)),
    ensures
        entities_decoding(buf, pos, items.len(), mode) is Ok,
        entities_decoding(buf, pos, items.len(), mode)->Ok_0.1 == entities_encoding(
            items,
            mode is Some,
        ).len(),
        entities_decoding(buf, pos, items.len(), mode)->Ok_0.0.len() == items.len(),
        mode is Some ==> entities_decoding(buf, pos, items.len(), mode)->Ok_0.0 == items,
        mode is None ==> forall|i: int|
            0 <= i < items.len() ==> (#[trigger] entities_decoding(
                buf,
                pos,
                items.len(),
                mode,
            )->Ok_0.0[i]).detached() == items[i].detached(),
    decreases items.len(),
{
    let h = mode is Some;
    if items.len() > 0 {
        let front = items.drop_last();
        let a = entities_encoding(front, h);
        lemma_holds_split(buf, pos, a, items.last().encoding(h));
        lemma_entities_round_trip(front, mode, buf, pos);
        lemma_entity_round_trip(items.last(), mode, buf, pos + a.len());
        let got = entities_decoding(buf, pos, items.len(), mode)->Ok_0.0;
        if mode is Some {
            assert(got =~= items);
        }
    }
}

/// A document type declaration that was written is read back.
#[verifier::rlimit(100)]
proof fn lemma_dtd_round_trip(m: DtdView, mode: Option<Seq<u8>>, buf: Seq<u8>, pos: int)
    requires
        m.storable(mode),
        holds_at(buf, pos, m.encoding(mode is Some)),
    ensures
        DtdView::decoding(buf, pos, mode) is Ok,
        DtdView::decoding(buf, pos, mode)->Ok_0.1 == m.encoding(mode is Some).len(),
        mode is Some ==> DtdView::decoding(buf, pos, mode)->Ok_0.0 == m,
        mode is None ==> DtdView::decoding(buf, pos, mode)->Ok_0.0.detached() == m.detached(),
{
    reveal(DtdView::decoding);
    reveal(counted_entities_decoding);
    let h = mode is Some;
    let a = m.span.encoding(h);
    let b = m.name.encoding(h);
    let c = opt_id_encoding(m.external_id, h);
    let d = count_encoding(m.entities.len() as usize);
    let e = entities_encoding(m.entities, h);
    lemma_count_len(m.entities.len() as usize);
    lemma_holds_split(buf, pos, a + b + c + d, e);
    lemma_holds_split(buf, pos, a + b + c, d);
    lemma_holds_split(buf, pos, a + b, c);
    lemma_holds_split(buf, pos, a, b);
    lemma_span_round_trip(m.span, mode, buf, pos);
    lemma_span_round_trip(m.name, mode, buf, pos + a.len());
    lemma_opt_id_round_trip(m.external_id, mode, buf, pos + a.len() + b.len());
    let p = pos + a.len() + b.len() + c.len();
    lemma_count_round_trip(m.entities.len() as usize, buf, p);
    lemma_entities_round_trip(m.entities, mode, buf, p + 8);
    let got = DtdView::decoding(buf, pos, mode)->Ok_0.0;
    if mode is None {
        assert(got.detached().entities =~= m.detached().entities);
    }
}

/// An attribute that was written is read back.
proof fn lemma_attribute_round_trip(
    m: AttributeView,
    mode: Option<Seq<u8>>,
    buf: Seq<u8>,
    pos: int,
)
    requires
        m.storable(mode),
        holds_at(buf, pos, m.encoding(mode is Some)),
    ensures
        AttributeView::decoding(buf, pos, mode) is Ok,
        AttributeView::decoding(buf, pos, mode)->Ok_0.1 == m.encoding(mode is Some).len(),
        mode is Some ==> AttributeView::decoding(buf, pos, mode)->Ok_0.0 == m,
        mode is None ==> AttributeView::decoding(buf, pos, mode)->Ok_0.0.detached()
            == m.detached(),
{
    reveal(AttributeView::decoding);
    let h = mode is Some;
    let a = m.span.encoding(h);
    let b = m.name.encoding(h);
    let c = m.value.encoding(h);
    lemma_holds_split(buf, pos, a + b, c);
    lemma_holds_split(buf, pos, a, b);
    lemma_span_round_trip(m.span, mode, buf, pos);
    lemma_name_round_trip(m.name, mode, buf, pos + a.len());
    lemma_span_round_trip(m.value, mode, buf, pos + a.len() + b.len());
}

/// Attributes that were written one behind the other are read back.
proof fn lemma_attributes_round_trip(
    items: Seq<AttributeView>,
    mode: Option<Seq<u8>>,
    buf: Seq<u8>,
    pos: int,
)
    requires
        forall|i: int| 0 <= i < items.len() ==> (#[trigger] items[i]).storable(mode),
        holds_at(buf, pos, attributes_encoding(items, mode is Some)),
    ensures
        attributes_decoding(buf, pos, items.len(), mode) is Ok,
        attributes_decoding(buf, pos, items.len(), mode)->Ok_0.1 == attributes_encoding(
            items,
            mode is Some,
        ).len(),
        attributes_decoding(buf, pos, items.len(), mode)->Ok_0.0.len() == items.len(),
        mode is Some ==> attributes_decoding(buf, pos, items.len(), mode)->Ok_0.0 == items,
        mode is None ==> forall|i: int|
            0 <= i < items.len() ==> (#[trigger] attributes_decoding(
                buf,
                pos,
                items.len(),
                mode,
            )->Ok_0.0[i]).detached() == items[i].detached(),
    decreases items.len(),
{
    let h = mode is Some;
    if items.len() > 0 {
        let front = items.drop_last();
        let a = attributes_encoding(front, h);
        lemma_holds_split(buf, pos, a, items.last().encoding(h));
        lemma_attributes_round_trip(front, mode, buf, pos);
        lemma_attribute_round_trip(items.last(), mode, buf, pos + a.len());
        let got = attributes_decoding(buf, pos, items.len(), mode)->Ok_0.0;
        if mode is Some {
            assert(got =~= items);
        }
    }
}

/// The first nodes of a sequence that were written one behind the other
/// are read back.
#[verifier::rlimit(100)]
proof fn lemma_nodes_round_trip(
    nodes: Seq<NodeView>,
    n: nat,
    mode: Option<Seq<u8>>,
    buf: Seq<u8>,
    pos: int,
)
    requires
        n <= nodes.len(),
        forall|i: int| 0 <= i < n ==> (#[trigger] nodes[i]).storable(mode),
        holds_at(buf, pos, nodes_encoding(nodes, n, mode is Some)),
    ensures
        nodes_decoding(buf, pos, n, mode) is Ok,
        nodes_decoding(buf, pos, n, mode)->Ok_0.1 == nodes_encoding(nodes, n, mode is Some).len(),
        nodes_decoding(buf, pos, n, mode)->Ok_0.0.len() == n,
        mode is Some ==> nodes_decoding(buf, pos, n, mode)->Ok_0.0 == nodes.take(n as int),
        mode is None ==> forall|i: int|
            0 <= i < n ==> (#[trigger] nodes_decoding(buf, pos, n, mode)->Ok_0.0[i]).detached()
                == nodes[i].detached(),
    decreases nodes, n,
{
    let h = mode is Some;
    if n > 0 {
        let k = (n - 1) as nat;
        let a = nodes_encoding(nodes, k, h);
        lemma_holds_split(buf, pos, a, nodes[n - 1].encoding(h));
        lemma_nodes_round_trip(nodes, k, mode, buf, pos);
        lemma_node_round_trip(nodes[n - 1], mode, buf, pos + a.len());
        let got = nodes_decoding(buf, pos, n, mode)->Ok_0.0;
        if mode is Some {
            assert(got =~= nodes.take(n as int));
        }
    } else {
        assert(nodes.take(0) =~= Seq::<NodeView>::empty());
    }
}

/// A node that was written with all below it is read back.
proof fn lemma_node_round_trip(m: NodeView, mode: Option<Seq<u8>>, buf: Seq<u8>, pos: int)
    requires
        m.storable(mode),
        holds_at(buf, pos, m.encoding(mode is Some)),
    ensures
        NodeView::decoding(buf, pos, mode) is Ok,
        NodeView::decoding(buf, pos, mode)->Ok_0.1 == m.encoding(mode is Some).len(),
        mode is Some ==> NodeView::decoding(buf, pos, mode)->Ok_0.0 == m,
        mode is None ==> NodeView::decoding(buf, pos, mode)->Ok_0.0.detached() == m.detached(),
    decreases m, 0nat,
{
    let h = mode is Some;
    match m {
        NodeView::Child(t) => {
            lemma_byte_round_trip(0, t.encoding(h), buf, pos);
            lemma_tag_round_trip(t, mode, buf, pos + 1);
        },
        NodeView::Text(t) => {
            lemma_byte_round_trip(1, t.encoding(h), buf, pos);
            lemma_text_node_round_trip(t, mode, buf, pos + 1);
        },
        NodeView::Comment(s) => {
            lemma_byte_round_trip(2, s.encoding(h), buf, pos);
            lemma_span_round_trip(s, mode, buf, pos + 1);
        },
        NodeView::ProcessingInstruction(p) => {
            lemma_byte_round_trip(3, p.encoding(h), buf, pos);
            lemma_pi_round_trip(p, mode, buf, pos + 1);
        },
        NodeView::DocumentType(d) => {
            lemma_byte_round_trip(4, d.encoding(h), buf, pos);
            lemma_dtd_round_trip(d, mode, buf, pos + 1);
        },
        NodeView::Cdata(c) => {
            lemma_byte_round_trip(5, c.encoding(h), buf, pos);
            lemma_cdata_round_trip(c, mode, buf, pos + 1);
        },
    }
}

/// A tag that was written with all below it is read back.
#[verifier::rlimit(100)]
proof fn lemma_tag_round_trip(m: TagView, mode: Option<Seq<u8>>, buf: Seq<u8>, pos: int)
    requires
        m.storable(mode),
        holds_at(buf, pos, m.encoding(mode is Some)),
    ensures
        TagView::decoding(buf, pos, mode) is Ok,
        TagView::decoding(buf, pos, mode)->Ok_0.1 == m.encoding(mode is Some).len(),
        mode is Some ==> TagView::decoding(buf, pos, mode)->Ok_0.0 == m,
        mode is None ==> TagView::decoding(buf, pos, mode)->Ok_0.0.detached() == m.detached(),
    decreases m, 0nat,
{
    reveal(counted_attributes_decoding);
    let h = mode is Some;
    let a = m.span.encoding(h);
    let b = m.name.encoding(h);
    let c = count_encoding(m.attributes.len() as usize);
    let d = attributes_encoding(m.attributes, h);
    let e = count_encoding(m.children.len() as usize);
    let f = nodes_encoding(m.children, m.children.len(), h);
    lemma_count_len(m.attributes.len() as usize);
    lemma_count_len(m.children.len() as usize);
    lemma_holds_split(buf, pos, a + b + c + d + e, f);
    lemma_holds_split(buf, pos, a + b + c + d, e);
    lemma_holds_split(buf, pos, a + b + c, d);
    lemma_holds_split(buf, pos, a + b, c);
    lemma_holds_split(buf, pos, a, b);
    lemma_span_round_trip(m.span, mode, buf, pos);
    lemma_name_round_trip(m.name, mode, buf, pos + a.len());
    let p = pos + a.len() + b.len();
    lemma_count_round_trip(m.attributes.len() as usize, buf, p);
    lemma_attributes_round_trip(m.attributes, mode, buf, p + 8);
    let q = p + 8 + d.len();
    lemma_count_round_trip(m.children.len() as usize, buf, q);
    lemma_nodes_round_trip(m.children, m.children.len(), mode, buf, q + 8);
    let got = TagView::decoding(buf, pos, mode)->Ok_0.0;
    assert(m.children.take(m.children.len() as int) =~= m.children);
    if mode is None {
        assert(got.detached().attributes =~= m.detached().attributes);
        assert(got.detached().children =~= m.detached().children);
    }
}

/// Nodes that were written behind their count are read back.
proof fn lemma_counted_nodes_round_trip(
    nodes: Seq<NodeView>,
    mode: Option<Seq<u8>>,
    buf: Seq<u8>,
    pos: int,
)
    requires
        nodes_storable(nodes, mode),
        holds_at(buf, pos, counted_nodes_encoding(nodes, mode is Some)),
    ensures
        counted_nodes_decoding(buf, pos, mode) is Ok,
        counted_nodes_decoding(buf, pos, mode)->Ok_0.1 == counted_nodes_encoding(
            nodes,
            mode is Some,
        ).len(),
        mode is Some ==> counted_nodes_decoding(buf, pos, mode)->Ok_0.0 == nodes,
        mode is None ==> nodes_detached(counted_nodes_decoding(buf, pos, mode)->Ok_0.0)
            == nodes_detached(nodes),
{
    reveal(counted_nodes_decoding);
    let h = mode is Some;
    lemma_count_len(nodes.len() as usize);
    lemma_holds_split(
        buf,
        pos,
        count_encoding(nodes.len() as usize),
        nodes_encoding(nodes, nodes.len(), h),
    );
    lemma_count_round_trip(nodes.len() as usize, buf, pos);
    lemma_nodes_round_trip(nodes, nodes.len(), mode, buf, pos + 8);
    assert(nodes.take(nodes.len() as int) =~= nodes);
    if mode is None {
        assert(nodes_detached(counted_nodes_decoding(buf, pos, mode)->Ok_0.0) =~= nodes_detached(
            nodes,
        ));
    }
}

/// An optional flag that was written is read back.
proof fn lemma_opt_flag_round_trip(m: Option<bool>, rest: Seq<u8>, buf: Seq<u8>, pos: int)
    requires
        holds_at(buf, pos, opt_flag_encoding(m)),
    ensures
        opt_flag_decoding(buf, pos) == Ok::<(Option<bool>, nat), DecodeFailure>(
            (m, opt_flag_encoding(m).len()),
        ),
{
    reveal(opt_flag_decoding);
    match m {
        Some(b) => {
            let v = if b {
                1u8
            } else {
                0u8
            };
            assert(opt_flag_encoding(m) =~= seq![1u8] + seq![v]);
            lemma_byte_round_trip(1, seq![v], buf, pos);
            assert(seq![v] =~= seq![v] + Seq::<u8>::empty());
            lemma_byte_round_trip(v, Seq::empty(), buf, pos + 1);
        },
        None => {
            assert(opt_flag_encoding(m) =~= seq![0u8] + Seq::<u8>::empty());
            lemma_byte_round_trip(0, Seq::empty(), buf, pos);
        },
    }
}

/// A declaration that was written is read back.
#[verifier::rlimit(100)]
proof fn lemma_declaration_round_trip(
    m: DeclarationView,
    mode: Option<Seq<u8>>,
    buf: Seq<u8>,
    pos: int,
)
    requires
        m.storable(mode),
        holds_at(buf, pos, m.encoding(mode is Some)),
    ensures
        DeclarationView::decoding(buf, pos, mode) is Ok,
        DeclarationView::decoding(buf, pos, mode)->Ok_0.1 == m.encoding(mode is Some).len(),
        mode is Some ==> DeclarationView::decoding(buf, pos, mode)->Ok_0.0 == m,
        mode is None ==> DeclarationView::decoding(buf, pos, mode)->Ok_0.0.detached()
            == m.detached(),
{
    reveal(DeclarationView::decoding);
    let h = mode is Some;
    let a = m.span.encoding(h);
    let b = m.version.encoding(h);
    let c = opt_span_encoding(m.encoding, h);
    let d = opt_flag_encoding(m.standalone);
    lemma_holds_split(buf, pos, a + b + c, d);
    lemma_holds_split(buf, pos, a + b, c);
    lemma_holds_split(buf, pos, a, b);
    lemma_span_round_trip(m.span, mode, buf, pos);
    lemma_span_round_trip(m.version, mode, buf, pos + a.len());
    lemma_opt_span_round_trip(m.encoding, mode, buf, pos + a.len() + b.len());
    lemma_opt_flag_round_trip(m.standalone, Seq::empty(), buf, pos + a.len() + b.len() + c.len());
}

/// An optional declaration that was written is read back.
proof fn lemma_opt_declaration_round_trip(
    m: Option<DeclarationView>,
    mode: Option<Seq<u8>>,
    buf: Seq<u8>,
    pos: int,
)
    requires
        opt_declaration_storable(m, mode),
        holds_at(buf, pos, opt_declaration_encoding(m, mode is Some)),
    ensures
        opt_declaration_decoding(buf, pos, mode) is Ok,
        opt_declaration_decoding(buf, pos, mode)->Ok_0.1 == opt_declaration_encoding(
            m,
            mode is Some,
        ).len(),
        mode is Some ==> opt_declaration_decoding(buf, pos, mode)->Ok_0.0 == m,
        mode is None ==> opt_declaration_detached(opt_declaration_decoding(buf, pos, mode)->Ok_0.0)
            == opt_declaration_detached(m),
{
    reveal(opt_declaration_decoding);
    match m {
        Some(v) => {
            lemma_byte_round_trip(1, v.encoding(mode is Some), buf, pos);
            lemma_declaration_round_trip(v, mode, buf, pos + 1);
        },
        None => {
            assert(opt_declaration_encoding(m, mode is Some) =~= seq![0u8] + Seq::<u8>::empty());
            lemma_byte_round_trip(0, Seq::empty(), buf, pos);
        },
    }
}

/// The parts of a document behind its header that were written are read
/// back.
#[verifier::rlimit(100)]
proof fn lemma_body_round_trip(doc: DocumentView, mode: Option<Seq<u8>>, buf: Seq<u8>, pos: int)
    requires
        opt_declaration_storable(doc.declaration, mode),
        nodes_storable(doc.prolog, mode),
        doc.root.storable(mode),
        nodes_storable(doc.epilog, mode),
        holds_at(buf, pos, doc.body_encoding(mode is Some)),
    ensures
        DocumentView::body_decoding(buf, pos, mode, doc.src) is Ok,
        DocumentView::body_decoding(buf, pos, mode, doc.src)->Ok_0.1 == doc.body_encoding(
            mode is Some,
        ).len(),
        mode is Some ==> DocumentView::body_decoding(buf, pos, mode, doc.src)->Ok_0.0 == doc,
        mode is None ==> DocumentView::body_decoding(buf, pos, mode, doc.src)->Ok_0.0.detached()
            == doc.detached(),
{
    reveal(DocumentView::body_decoding);
    let h = mode is Some;
    let a = opt_declaration_encoding(doc.declaration, h);
    let b = counted_nodes_encoding(doc.prolog, h);
    let c = doc.root.encoding(h);
    let d = counted_nodes_encoding(doc.epilog, h);
    lemma_holds_split(buf, pos, a + b + c, d);
    lemma_holds_split(buf, pos, a + b, c);
    lemma_holds_split(buf, pos, a, b);
    lemma_opt_declaration_round_trip(doc.declaration, mode, buf, pos);
    lemma_counted_nodes_round_trip(doc.prolog, mode, buf, pos + a.len());
    lemma_tag_round_trip(doc.root, mode, buf, pos + a.len() + b.len());
    lemma_counted_nodes_round_trip(doc.epilog, mode, buf, pos + a.len() + b.len() + c.len());
}

/// The binary form of a document with a source decodes to the document:
/// for every document whose spans all lie in its source at their offsets,
/// as they do in one that was parsed and not changed since, decoding what
/// was encoded yields the same document and takes all of the bytes.
#[verifier::rlimit(100)]
pub proof fn law_round_trip_with_source(doc: DocumentView)
    requires
        doc.src is Some,
        doc.storable(),
    ensures
        DocumentView::decoding(doc.encoding(false), 0, None) == Ok::<
            (DocumentView, nat),
            DecodeFailure,
        >((doc, doc.encoding(false).len())),
{
    reveal(DocumentView::decoding);
    let text = doc.src.unwrap();
    let mode = Some(encode_utf8(text));
    let buf = doc.encoding(false);
    let head = header_sourced();
    let source = text_encoding(text);
    let body = doc.body_encoding(true);
    assert(buf.subrange(0, buf.len() as int) =~= buf);
    assert(holds_at(buf, 0, head + source + body));
    lemma_holds_split(buf, 0, head + source, body);
    lemma_holds_split(buf, 0, head, source);
    assert(buf.subrange(0, 4) == header_sourced());
    assert(doc.root.span.storable(mode));
    lemma_text_round_trip(text, buf, 4);
    lemma_body_round_trip(doc, mode, buf, 4 + source.len() as int);
}

/// The binary form of a document without a source decodes to a document
/// with the same content: for every document whose strings a count can
/// measure, decoding what was encoded takes all of the bytes and yields a
/// document that differs from the first at most in the offsets of its
/// spans.
#[verifier::rlimit(100)]
pub proof fn law_round_trip_inline(doc: DocumentView)
    requires
        doc.src is None,
        doc.storable(),
    ensures
        DocumentView::decoding(doc.encoding(false), 0, None) is Ok,
        DocumentView::decoding(doc.encoding(false), 0, None)->Ok_0.1 == doc.encoding(false).len(),
        DocumentView::decoding(doc.encoding(false), 0, None)->Ok_0.0.detached() == doc.detached(),
{
    reveal(DocumentView::decoding);
    let buf = doc.encoding(false);
    let head = header_unsourced();
    let body = doc.body_encoding(false);
    assert(buf.subrange(0, buf.len() as int) =~= buf);
    assert(holds_at(buf, 0, head + body));
    lemma_holds_split(buf, 0, head, body);
    assert(buf.subrange(0, 4) == header_unsourced());
    assert(header_unsourced()[3] != header_sourced()[3]);
    lemma_body_round_trip(doc, None, buf, 4);
}

/// An owned tag stands for what an owned copy of it stands for.
proof fn lemma_owned_tag_is_detached(tag: &OwnedTagNode)
    ensures
        tag@.detached() == tag@,
    decreases tag,
{
    assert(tag@.detached().attributes =~= tag@.attributes);
    assert forall|i: int| 0 <= i < tag@.children.len() implies tag@.detached().children[i]
        == tag@.children[i] by {
        lemma_owned_node_is_detached(&tag.children@[i]);
    }
    assert(tag@.detached().children =~= tag@.children);
}

/// An owned node stands for what an owned copy of it stands for.
proof fn lemma_owned_node_is_detached(node: &OwnedNode)
    ensures
        node@.detached() == node@,
    decreases node,
{
    match node {
        OwnedNode::Tag(t) => lemma_owned_tag_is_detached(t),
        OwnedNode::DocumentType(d) => {
            assert(d@.detached().entities =~= d@.entities);
        },
        _ => {},
    }
}

/// An owned document stands for what an owned copy of it stands for.
pub proof fn law_owned_is_detached(doc: &OwnedDocument)
    ensures
        doc@.detached() == doc@,
{
    lemma_owned_tag_is_detached(&doc.root);
    assert forall|i: int| 0 <= i < doc@.prolog.len() implies nodes_detached(doc@.prolog)[i]
        == doc@.prolog[i] by {
        lemma_owned_node_is_detached(&doc.prolog@[i]);
    }
    assert forall|i: int| 0 <= i < doc@.epilog.len() implies nodes_detached(doc@.epilog)[i]
        == doc@.epilog[i] by {
        lemma_owned_node_is_detached(&doc.epilog@[i]);
    }
    assert(nodes_detached(doc@.prolog) =~= doc@.prolog);
    assert(nodes_detached(doc@.epilog) =~= doc@.epilog);
}

/// The binary form of an owned document decodes to the document: for
/// every owned document whose strings and sequences a count can measure,
/// decoding what was encoded takes all of the bytes, and an owned copy of
/// what was read stands for the same as the document.
pub proof fn law_owned_round_trip(doc: &OwnedDocument)
    requires
        doc@.storable(),
    ensures
        DocumentView::decoding(doc@.encoding(false), 0, None) is Ok,
        DocumentView::decoding(doc@.encoding(false), 0, None)->Ok_0.1 == doc@.encoding(
            false,
        ).len(),
        DocumentView::decoding(doc@.encoding(false), 0, None)->Ok_0.0.detached() == doc@,
{
    law_round_trip_inline(doc@);
    law_owned_is_detached(doc);
}

/// A stripped document type declaration can be written with its strings,
/// and an owned copy of it is an owned copy of the declaration.
proof fn lemma_dtd_strip_safe(dtd: DtdView, mode: Option<Seq<u8>>)
    requires
        dtd.storable(mode),
    ensures
        dtd.stripped().storable(None),
        dtd.stripped().detached() == dtd.detached(),
{
    let once = dtd.stripped();
    assert forall|i: int| 0 <= i < once.entities.len() implies (#[trigger] once.entities[i]).storable(
        None,
    ) by {
        assert(dtd.entities[i].storable(mode));
    }
    assert(once.detached().entities =~= dtd.detached().entities);
}

/// A stripped tag can be written with its strings, and an owned copy of it
/// is an owned copy of the tag.
proof fn lemma_tag_strip_safe(tag: TagView, mode: Option<Seq<u8>>)
    requires
        tag.storable(mode),
    ensures
        tag.stripped().storable(None),
        tag.stripped().detached() == tag.detached(),
    decreases tag,
{
    let once = tag.stripped();
    assert forall|i: int| 0 <= i < once.attributes.len() implies (#[trigger] once.attributes[i]).storable(
        None,
    ) by {
        assert(tag.attributes[i].storable(mode));
    }
    assert forall|i: int| 0 <= i < once.children.len() implies (#[trigger] once.children[i]).storable(
        None,
    ) && once.children[i].detached() == tag.children[i].detached() by {
        assert(tag.children[i].storable(mode));
        lemma_node_strip_safe(tag.children[i], mode);
    }
    assert(once.detached().attributes =~= tag.detached().attributes);
    assert(once.detached().children =~= tag.detached().children);
}

/// A stripped node can be written with its strings, and an owned copy of
/// it is an owned copy of the node.
proof fn lemma_node_strip_safe(node: NodeView, mode: Option<Seq<u8>>)
    requires
        node.storable(mode),
    ensures
        node.stripped().storable(None),
        node.stripped().detached() == node.detached(),
    decreases node,
{
    match node {
        NodeView::Child(t) => lemma_tag_strip_safe(t, mode),
        NodeView::DocumentType(d) => lemma_dtd_strip_safe(d, mode),
        _ => {},
    }
}

/// Stripped nodes can be written with their strings, and owned copies of
/// them are owned copies of the nodes.
proof fn lemma_nodes_strip_safe(nodes: Seq<NodeView>, mode: Option<Seq<u8>>)
    requires
        nodes_storable(nodes, mode),
    ensures
        nodes_storable(nodes_stripped(nodes), None),
        nodes_detached(nodes_stripped(nodes)) == nodes_detached(nodes),
{
    let once = nodes_stripped(nodes);
    assert forall|i: int| 0 <= i < once.len() implies (#[trigger] once[i]).storable(None)
        && once[i].detached() == nodes[i].detached() by {
        assert(nodes[i].storable(mode));
        lemma_node_strip_safe(nodes[i], mode);
    }
    assert(nodes_detached(once) =~= nodes_detached(nodes));
}

/// A document whose metadata was stripped is safe to encode: for every
/// document that its binary form could hold before, the binary form of
/// the stripped document decodes, takes all of the bytes, and yields a
/// document with the content of the first.
pub proof fn law_stripped_round_trip(doc: DocumentView)
    requires
        doc.storable(),
    ensures
        DocumentView::decoding(doc.stripped().encoding(false), 0, None) is Ok,
        DocumentView::decoding(doc.stripped().encoding(false), 0, None)->Ok_0.1
            == doc.stripped().encoding(false).len(),
        DocumentView::decoding(doc.stripped().encoding(false), 0, None)->Ok_0.0.detached()
            == doc.detached(),
{
    let mode = opt_utf8(doc.src);
    let once = doc.stripped();
    lemma_tag_strip_safe(doc.root, mode);
    lemma_nodes_strip_safe(doc.prolog, mode);
    lemma_nodes_strip_safe(doc.epilog, mode);
    law_round_trip_inline(once);
}

/// True when decoding did not end in the failure of a header.
pub open spec fn header_free<M>(d: Decoded<M>) -> bool {
    !(d matches Err(DecodeFailure::InvalidHeader))
}

/// No span, name, attribute or node without a sequence fails to decode as
/// a header does, wherever it stands.
proof fn lemma_leaves_header_free(buf: Seq<u8>)
    ensures
        forall|p: int, s: Option<Seq<u8>>| header_free(#[trigger] SpanView::decoding(buf, p, s)),
        forall|p: int, s: Option<Seq<u8>>| header_free(#[trigger] opt_span_decoding(buf, p, s)),
        forall|p: int, s: Option<Seq<u8>>| header_free(#[trigger] NameView::decoding(buf, p, s)),
        forall|p: int, s: Option<Seq<u8>>| header_free(#[trigger] TextView::decoding(buf, p, s)),
        forall|p: int, s: Option<Seq<u8>>| header_free(#[trigger] CdataView::decoding(buf, p, s)),
        forall|p: int, s: Option<Seq<u8>>| header_free(#[trigger] PiView::decoding(buf, p, s)),
        forall|p: int, s: Option<Seq<u8>>|
            header_free(#[trigger] AttributeView::decoding(buf, p, s)),
{
    reveal(SpanView::decoding);
    assert forall|p: int, s: Option<Seq<u8>>| header_free(
        #[trigger] SpanView::decoding(buf, p, s),
    ) by {}
    reveal(opt_span_decoding);
    assert forall|p: int, s: Option<Seq<u8>>| header_free(
        #[trigger] opt_span_decoding(buf, p, s),
    ) by {}
    reveal(NameView::decoding);
    assert forall|p: int, s: Option<Seq<u8>>| header_free(
        #[trigger] NameView::decoding(buf, p, s),
    ) by {}
    reveal(TextView::decoding);
    reveal(CdataView::decoding);
    reveal(PiView::decoding);
    reveal(AttributeView::decoding);
}

/// No part of a document type declaration fails to decode as a header
/// does, wherever it stands.
proof fn lemma_dtd_parts_header_free(buf: Seq<u8>)
    ensures
        forall|p: int, s: Option<Seq<u8>>|
            header_free(#[trigger] ExternalIdView::decoding(buf, p, s)),
        forall|p: int, s: Option<Seq<u8>>| header_free(#[trigger] opt_id_decoding(buf, p, s)),
        forall|p: int, s: Option<Seq<u8>>|
            header_free(#[trigger] EntityDefinitionView::decoding(buf, p, s)),
        forall|p: int, s: Option<Seq<u8>>|
            header_free(#[trigger] DtdEntityView::decoding(buf, p, s)),
{
    lemma_leaves_header_free(buf);
    reveal(ExternalIdView::decoding);
    assert forall|p: int, s: Option<Seq<u8>>| header_free(
        #[trigger] ExternalIdView::decoding(buf, p, s),
    ) by {}
    reveal(opt_id_decoding);
    reveal(EntityDefinitionView::decoding);
    assert forall|p: int, s: Option<Seq<u8>>| header_free(
        #[trigger] EntityDefinitionView::decoding(buf, p, s),
    ) by {}
    reveal(DtdEntityView::decoding);
}

/// No run of entity declarations fails to decode as a header does.
proof fn lemma_entities_header_free(buf: Seq<u8>, pos: int, count: nat, src: Option<Seq<u8>>)
    ensures
        header_free(entities_decoding(buf, pos, count, src)),
    decreases count,
{
    lemma_dtd_parts_header_free(buf);
    if count > 0 {
        lemma_entities_header_free(buf, pos, (count - 1) as nat, src);
    }
}

/// No run of attributes fails to decode as a header does.
proof fn lemma_attributes_header_free(buf: Seq<u8>, pos: int, count: nat, src: Option<Seq<u8>>)
    ensures
        header_free(attributes_decoding(buf, pos, count, src)),
    decreases count,
{
    lemma_leaves_header_free(buf);
    if count > 0 {
        lemma_attributes_header_free(buf, pos, (count - 1) as nat, src);
    }
}

/// No document type declaration fails to decode as a header does.
proof fn lemma_dtd_header_free(buf: Seq<u8>, pos: int, src: Option<Seq<u8>>)
    ensures
        header_free(DtdView::decoding(buf, pos, src)),
{
    lemma_leaves_header_free(buf);
    lemma_dtd_parts_header_free(buf);
    reveal(DtdView::decoding);
    reveal(counted_entities_decoding);
    assert forall|p: int| header_free(#[trigger] counted_entities_decoding(buf, p, src)) by {
        match count_decoding(buf, p) {
            Ok((count, _)) => lemma_entities_header_free(buf, p + 8, count as nat, src),
            Err(_) => {},
        }
    }
}

/// No run of nodes fails to decode as a header does.
proof fn lemma_nodes_header_free(buf: Seq<u8>, pos: int, count: nat, src: Option<Seq<u8>>)
    ensures
        header_free(nodes_decoding(buf, pos, count, src)),
    decreases bytes_left(buf, pos), count,
{
    if count > 0 {
        lemma_nodes_header_free(buf, pos, (count - 1) as nat, src);
        match nodes_decoding(buf, pos, (count - 1) as nat, src) {
            Ok((_, used)) => lemma_node_header_free(buf, pos + used, src),
            Err(_) => {},
        }
    }
}

/// No node fails to decode as a header does.
proof fn lemma_node_header_free(buf: Seq<u8>, pos: int, src: Option<Seq<u8>>)
    ensures
        header_free(NodeView::decoding(buf, pos, src)),
    decreases bytes_left(buf, pos), 0nat,
{
    lemma_leaves_header_free(buf);
    match byte_decoding(buf, pos) {
        Ok((kind, _)) => {
            if kind == 0 {
                lemma_tag_header_free(buf, pos + 1, src);
            } else if kind == 4 {
                lemma_dtd_header_free(buf, pos + 1, src);
            }
        },
        Err(_) => {},
    }
}

/// No tag fails to decode as a header does.
proof fn lemma_tag_header_free(buf: Seq<u8>, pos: int, src: Option<Seq<u8>>)
    ensures
        header_free(TagView::decoding(buf, pos, src)),
    decreases bytes_left(buf, pos), 0nat,
{
    lemma_leaves_header_free(buf);
    reveal(counted_attributes_decoding);
    match SpanView::decoding(buf, pos, src) {
        Ok((_, n1)) => match NameView::decoding(buf, pos + n1, src) {
            Ok((_, n2)) => {
                match count_decoding(buf, pos + n1 + n2) {
                    Ok((count, _)) => lemma_attributes_header_free(
                        buf,
                        pos + n1 + n2 + 8,
                        count as nat,
                        src,
                    ),
                    Err(_) => {},
                }
                match counted_attributes_decoding(buf, pos + n1 + n2, src) {
                    Ok((_, n3)) => match count_decoding(buf, pos + n1 + n2 + n3) {
                        Ok((count, _)) => lemma_nodes_header_free(
                            buf,
                            pos + n1 + n2 + n3 + 8,
                            count as nat,
                            src,
                        ),
                        Err(_) => {},
                    },
                    Err(_) => {},
                }
            },
            Err(_) => {},
        },
        Err(_) => {},
    }
}

/// Nothing behind the header of a document fails to decode as a header
/// does.
proof fn lemma_body_header_free(
    buf: Seq<u8>,
    pos: int,
    src: Option<Seq<u8>>,
    text: Option<Seq<char>>,
)
    ensures
        header_free(DocumentView::body_decoding(buf, pos, src, text)),
{
    lemma_leaves_header_free(buf);
    reveal(DocumentView::body_decoding);
    reveal(opt_declaration_decoding);
    reveal(DeclarationView::decoding);
    reveal(opt_flag_decoding);
    reveal(counted_nodes_decoding);
    assert forall|p: int| header_free(#[trigger] counted_nodes_decoding(buf, p, src)) by {
        match count_decoding(buf, p) {
            Ok((count, _)) => lemma_nodes_header_free(buf, p + 8, count as nat, src),
            Err(_) => {},
        }
    }
    assert forall|p: int| header_free(#[trigger] TagView::decoding(buf, p, src)) by {
        lemma_tag_header_free(buf, p, src);
    }
}

/// A document fails to decode with `InvalidHeader` if and only if four
/// bytes stand where it starts and they are neither of the two headers.
pub proof fn law_invalid_header(buf: Seq<u8>, pos: int, src: Option<Seq<u8>>)
    ensures
        DocumentView::decoding(buf, pos, src) matches Err(DecodeFailure::InvalidHeader) <==> (0
            <= pos && pos + 4 <= buf.len() && buf.subrange(pos, pos + 4) != header_sourced()
            && buf.subrange(pos, pos + 4) != header_unsourced()),
{
    reveal(DocumentView::decoding);
    if 0 <= pos && pos + 4 <= buf.len() {
        if buf.subrange(pos, pos + 4) == header_sourced() {
            match text_decoding(buf, pos + 4) {
                Ok((text, n1)) => lemma_body_header_free(
                    buf,
                    pos + 4 + n1,
                    Some(encode_utf8(text)),
                    Some(text),
                ),
                Err(_) => {},
            }
        } else if buf.subrange(pos, pos + 4) == header_unsourced() {
            lemma_body_header_free(buf, pos + 4, src, None);
        }
    }
}

/// A node fails to decode with `UnexpectedEof` where no byte stands at its
/// place, and with `InvalidEnumVariant` where the byte there is above
/// five.
pub proof fn law_node_kind(buf: Seq<u8>, pos: int, src: Option<Seq<u8>>)
    ensures
        !(0 <= pos < buf.len()) ==> NodeView::decoding(buf, pos, src) == Err::<
            (NodeView, nat),
            DecodeFailure,
        >(DecodeFailure::UnexpectedEof),
        0 <= pos < buf.len() && buf[pos] > 5 ==> NodeView::decoding(buf, pos, src) == Err::<
            (NodeView, nat),
            DecodeFailure,
        >(DecodeFailure::InvalidEnumVariant),
        0 <= pos < buf.len() && buf[pos] != 0 && buf[pos] != 4 ==> !NodeView::reserving(
            buf,
            pos,
            src,
        ),
{
}

/// Attributes are written, and accepted by the entity encoder, as their
/// owned copies are.
proof fn lemma_attributes_rendered_detached(a: Seq<AttributeView>, b: Seq<AttributeView>, i: int)
    requires
        a.len() == b.len(),
        forall|j: int| 0 <= j < a.len() ==> #[trigger] b[j] == a[j].detached(),
    ensures
        attributes_rendered(b, i) == attributes_rendered(a, i),
        attributes_escapable(b, i) == attributes_escapable(a, i),
    decreases a.len() - i,
{
    if 0 <= i < a.len() {
        lemma_attributes_rendered_detached(a, b, i + 1);
    }
}

/// Entity declarations are written, and accepted by the entity encoder, as
/// their owned copies are.
proof fn lemma_entities_rendered_detached(
    a: Seq<DtdEntityView>,
    b: Seq<DtdEntityView>,
    i: int,
    tab: Seq<char>,
    depth: usize,
)
    requires
        a.len() == b.len(),
        forall|j: int| 0 <= j < a.len() ==> #[trigger] b[j] == a[j].detached(),
    ensures
        entities_rendered(b, i, tab, depth) == entities_rendered(a, i, tab, depth),
        entities_escapable(b, i) == entities_escapable(a, i),
    decreases a.len() - i,
{
    if 0 <= i < a.len() {
        lemma_entities_rendered_detached(a, b, i + 1, tab, depth);
    }
}

/// A node that is no tag is written, and accepted by the entity encoder,
/// as its owned copy is.
proof fn lemma_leaf_rendered_detached(node: NodeView, tab: Seq<char>, depth: usize)
    ensures
        leaf_rendered(node.detached(), tab, depth) == leaf_rendered(node, tab, depth),
        leaf_escapable(node.detached()) == leaf_escapable(node),
{
    match node {
        NodeView::DocumentType(d) => {
            lemma_entities_rendered_detached(d.entities, d.detached().entities, 0, tab, depth);
        },
        _ => {},
    }
}

/// Nodes before or after the root are written, and accepted by the entity
/// encoder, as their owned copies are.
proof fn lemma_leaves_rendered_detached(nodes: Seq<NodeView>, i: int, tab: Seq<char>)
    ensures
        leaves_rendered(nodes_detached(nodes), i, tab) == leaves_rendered(nodes, i, tab),
        leaves_escapable(nodes_detached(nodes), i) == leaves_escapable(nodes, i),
    decreases nodes.len() - i,
{
    if 0 <= i < nodes.len() {
        lemma_leaf_rendered_detached(nodes[i], tab, 0);
        lemma_leaves_rendered_detached(nodes, i + 1, tab);
    }
}

/// Children are written, and accepted by the entity encoder, as their
/// owned copies are.
proof fn lemma_children_rendered_detached(
    a: Seq<NodeView>,
    b: Seq<NodeView>,
    i: int,
    tab: Seq<char>,
    depth: usize,
)
    requires
        a.len() == b.len(),
        forall|j: int| 0 <= j < a.len() ==> #[trigger] b[j] == a[j].detached(),
    ensures
        children_rendered(b, i, tab, depth) == children_rendered(a, i, tab, depth),
        children_escapable(b, i) == children_escapable(a, i),
    decreases a, a.len() - i,
{
    if 0 <= i < a.len() {
        lemma_node_rendered_detached(a[i], tab, depth);
        lemma_children_rendered_detached(a, b, i + 1, tab, depth);
    }
}

/// A node is written, and accepted by the entity encoder, as its owned
/// copy is.
proof fn lemma_node_rendered_detached(node: NodeView, tab: Seq<char>, depth: usize)
    ensures
        node_rendered(node.detached(), tab, depth) == node_rendered(node, tab, depth),
        node_escapable(node.detached()) == node_escapable(node),
    decreases node, 0nat,
{
    match node {
        NodeView::Child(t) => lemma_tag_rendered_detached(t, tab, depth),
        _ => lemma_leaf_rendered_detached(node, tab, depth),
    }
}

/// A tag is written, and accepted by the entity encoder, as its owned copy
/// is.
proof fn lemma_tag_rendered_detached(tag: TagView, tab: Seq<char>, depth: usize)
    ensures
        tag_rendered(tag.detached(), tab, depth) == tag_rendered(tag, tab, depth),
        tag_escapable(tag.detached()) == tag_escapable(tag),
    decreases tag, 0nat,
{
    let copy = tag.detached();
    lemma_attributes_rendered_detached(tag.attributes, copy.attributes, 0);
    lemma_children_rendered_detached(tag.children, copy.children, 0, tab, deeper(depth));
}

/// The writer reads the content of a document alone: a document is
/// written, and accepted by the entity encoder, exactly as its owned copy
/// is, whatever its source, its spans and its offsets are.
pub proof fn law_rendering_reads_content(doc: DocumentView, tab: Seq<char>)
    ensures
        document_rendered(doc.detached(), tab) == document_rendered(doc, tab),
        document_escapable(doc.detached()) == document_escapable(doc),
{
    lemma_leaves_rendered_detached(doc.prolog, 0, tab);
    lemma_tag_rendered_detached(doc.root, tab, 0);
    lemma_leaves_rendered_detached(doc.epilog, 0, tab);
}

} // verus!
