//! Document type declarations and the entities they declare.
use vstd::prelude::*;
use vstd::string::*;
use crate::arena::DocumentSourceRef;
use crate::strspan::{owned_span, SpanView, StrSpan};
use crate::to_bin::{
    byte_decoding, count_decoding, count_encoding, count_reserves,
    BinDecodeError, DecodeFailure, Decoded, Decoder, Encoder, ToBinHandler,
};

verus! {

/// What an external identifier stands for.
pub enum ExternalIdView {
    /// A system identifier.
    System(SpanView),
    /// A public identifier and a system identifier.
    Public(SpanView, SpanView),
}

impl ExternalIdView {
    /// The identifier with every offset set to zero.
    pub open spec fn stripped(self) -> ExternalIdView {
        match self {
            ExternalIdView::System(s) => ExternalIdView::System(s.unplaced()),
            ExternalIdView::Public(p, s) => ExternalIdView::Public(p.unplaced(), s.unplaced()),
        }
    }

    /// The identifier as an owned copy holds it: without offsets.
    pub open spec fn detached(self) -> ExternalIdView {
        self.stripped()
    }

    /// The bytes that stand for the identifier: one byte for its kind, zero
    /// for a system and one for a public identifier, and its spans.
    pub open spec fn encoding(self, header: bool) -> Seq<u8> {
        match self {
            ExternalIdView::System(s) => seq![0u8] + s.encoding(header),
            ExternalIdView::Public(p, s) => seq![1u8] + p.encoding(header) + s.encoding(header),
        }
    }

    /// The identifier that `buf` holds at `pos`.
    #[verifier::opaque]
    pub open spec fn decoding(buf: Seq<u8>, pos: int, src: Option<Seq<u8>>) -> Decoded<
        ExternalIdView,
    > {
        match byte_decoding(buf, pos) {
            Err(e) => Err(e),
            Ok((kind, _)) => if kind == 0 {
                match SpanView::decoding(buf, pos + 1, src) {
                    Err(e) => Err(e),
                    Ok((s, n1)) => Ok((ExternalIdView::System(s), 1 + n1)),
                }
            } else if kind == 1 {
                match SpanView::decoding(buf, pos + 1, src) {
                    Err(e) => Err(e),
                    Ok((p, n1)) => match SpanView::decoding(buf, pos + 1 + n1, src) {
                        Err(e) => Err(e),
                        Ok((s, n2)) => Ok((ExternalIdView::Public(p, s), 1 + n1 + n2)),
                    },
                }
            } else {
                Err(DecodeFailure::InvalidEnumVariant)
            },
        }
    }

    /// True when the binary form can hold the identifier in this mode: with a
    /// source, every span lies in it; without one, every text has a length
    /// that a count can hold; and so has every sequence.
    pub open spec fn storable(self, mode: Option<Seq<u8>>) -> bool {
        match self {
            ExternalIdView::System(s) => s.storable(mode),
            ExternalIdView::Public(p, s) => p.storable(mode) && s.storable(mode),
        }
    }
}

/// The bytes that stand for an optional identifier: one byte, zero for
/// none, and the identifier if there is one.
pub open spec fn opt_id_encoding(id: Option<ExternalIdView>, header: bool) -> Seq<u8> {
    match id {
        Some(v) => seq![1u8] + v.encoding(header),
        None => seq![0u8],
    }
}

/// The optional identifier that `buf` holds at `pos`.
#[verifier::opaque]
pub open spec fn opt_id_decoding(buf: Seq<u8>, pos: int, src: Option<Seq<u8>>) -> Decoded<
    Option<ExternalIdView>,
> {
    match byte_decoding(buf, pos) {
        Err(e) => Err(e),
        Ok((flag, _)) => if flag != 0 {
            match ExternalIdView::decoding(buf, pos + 1, src) {
                Err(e) => Err(e),
                Ok((v, used)) => Ok((Some(v), 1 + used)),
            }
        } else {
            Ok((None, 1))
        },
    }
}

/// An optional identifier with every offset set to zero.
pub open spec fn opt_id_stripped(id: Option<ExternalIdView>) -> Option<ExternalIdView> {
    match id {
        Some(v) => Some(v.stripped()),
        None => None,
    }
}

/// True when an optional identifier is absent or the binary form can hold
/// it in this mode.
pub open spec fn opt_id_storable(id: Option<ExternalIdView>, mode: Option<Seq<u8>>) -> bool {
    match id {
        Some(v) => v.storable(mode),
        None => true,
    }
}

/// An [external identifier](https://www.w3.org/TR/xml/#NT-ExternalID).
#[derive(Clone, Copy, PartialEq, Eq, Hash, Debug)]
pub enum ExternalId<'src> {
    /// A system identifier.
    System(StrSpan<'src>),
    /// A public identifier and a system identifier.
    Public(StrSpan<'src>, StrSpan<'src>),
}

impl<'src> View for ExternalId<'src> {
    type V = ExternalIdView;

    open spec fn view(&self) -> ExternalIdView {
        match self {
            ExternalId::System(s) => ExternalIdView::System(s@),
            ExternalId::Public(p, s) => ExternalIdView::Public(p@, s@),
        }
    }
}

/// What an optional identifier stands for.
pub open spec fn opt_id_view(id: Option<ExternalId<'_>>) -> Option<ExternalIdView> {
    match id {
        Some(v) => Some(v@),
        None => None,
    }
}

impl<'src> ExternalId<'src> {
    /// An identifier of a system identifier alone, over a copy of the text
    /// that the arena keeps.
    pub fn system_from_unallocated(arena: &'src DocumentSourceRef, value: &str) -> (r: Self)
        ensures
            r@ == ExternalIdView::System(owned_span(value@)),
    {
        ExternalId::System(StrSpan::from_unallocated(arena, value))
    }

    /// An identifier of a public and a system identifier, over copies of
    /// the texts that the arena keeps.
    pub fn public_from_unallocated(arena: &'src DocumentSourceRef, public: &str, system: &str) -> (r:
        Self)
        ensures
            r@ == ExternalIdView::Public(owned_span(public@), owned_span(system@)),
    {
        ExternalId::Public(
            StrSpan::from_unallocated(arena, public),
            StrSpan::from_unallocated(arena, system),
        )
    }

    /// An identifier of a system identifier alone.
    pub fn new_system(s: StrSpan<'src>) -> (r: Self)
        ensures
            r@ == ExternalIdView::System(s@),
    {
        ExternalId::System(s)
    }

    /// An identifier of a public and a system identifier.
    pub fn new_public(p: StrSpan<'src>, s: StrSpan<'src>) -> (r: Self)
        ensures
            r@ == ExternalIdView::Public(p@, s@),
    {
        ExternalId::Public(p, s)
    }

    /// An owned copy of the identifier, without offsets.
    #[must_use]
    pub fn to_owned(&self) -> (r: OwnedExternalId)
        ensures
            r@ == self@.detached(),
    {
        match self {
            ExternalId::System(system) => OwnedExternalId::System(system.text().to_owned()),
            ExternalId::Public(public, system) => OwnedExternalId::Public(
                public.text().to_owned(),
                system.text().to_owned(),
            ),
        }
    }

    /// The identifier with every offset set to zero.
    pub fn stripped(&self) -> (r: Self)
        ensures
            r@ == self@.stripped(),
    {
        match self {
            ExternalId::System(system) => ExternalId::System(system.unplaced()),
            ExternalId::Public(public, system) => ExternalId::Public(
                public.unplaced(),
                system.unplaced(),
            ),
        }
    }

    /// Sets every offset of the identifier to zero and keeps the text.
    pub fn strip_metadata(&mut self)
        ensures
            final(self)@ == old(self)@.stripped(),
    {
        *self = self.stripped();
    }
}

impl<'src> ToBinHandler<'src> for ExternalId<'src> {
    type Model = ExternalIdView;

    open spec fn reserving(buf: Seq<u8>, pos: int, src: Option<Seq<u8>>) -> bool {
        false
    }

    open spec fn model(&self) -> ExternalIdView {
        self@
    }

    open spec fn encoding(m: ExternalIdView, header: bool) -> Seq<u8> {
        m.encoding(header)
    }

    open spec fn decoding(buf: Seq<u8>, pos: int, src: Option<Seq<u8>>) -> Decoded<
        ExternalIdView,
    > {
        ExternalIdView::decoding(buf, pos, src)
    }

    fn write(&self, encoder: &mut Encoder) -> (r: std::io::Result<()>) {
        match self {
            ExternalId::System(system) => {
                encoder.write_byte(0);
                let _ = system.write(encoder);
            },
            ExternalId::Public(public, system) => {
                encoder.write_byte(1);
                let _ = public.write(encoder);
                let _ = system.write(encoder);
            },
        }
        proof {
            assert(encoder@.bytes =~= old(encoder)@.bytes + self@.encoding(
                old(encoder)@.source_header,
            ));
        }
        Ok(())
    }

    fn read(decoder: &mut Decoder<'src>) -> (r: Result<Self, BinDecodeError>) {
        proof {
            reveal(ExternalIdView::decoding);
        }
        let kind = decoder.read()?;
        if kind == 0 {
            let system = StrSpan::read(decoder)?;
            Ok(ExternalId::System(system))
        } else if kind == 1 {
            let public = StrSpan::read(decoder)?;
            let system = StrSpan::read(decoder)?;
            Ok(ExternalId::Public(public, system))
        } else {
            Err(BinDecodeError::InvalidEnumVariant)
        }
    }
}

/// An owned external identifier, without offsets.
#[derive(Clone, PartialEq, Eq, Hash, Debug)]
pub enum OwnedExternalId {
    /// A system identifier.
    System(String),
    /// A public identifier and a system identifier.
    Public(String, String),
}

impl View for OwnedExternalId {
    type V = ExternalIdView;

    open spec fn view(&self) -> ExternalIdView {
        match self {
            OwnedExternalId::System(s) => ExternalIdView::System(owned_span(s@)),
            OwnedExternalId::Public(p, s) => ExternalIdView::Public(
                owned_span(p@),
                owned_span(s@),
            ),
        }
    }
}

/// What an optional owned identifier stands for.
pub open spec fn opt_owned_id_view(id: Option<OwnedExternalId>) -> Option<ExternalIdView> {
    match id {
        Some(v) => Some(v@),
        None => None,
    }
}

impl OwnedExternalId {
    /// An identifier of a system identifier alone.
    #[must_use]
    pub fn new_system(system: &str) -> (r: Self)
        ensures
            r@ == ExternalIdView::System(owned_span(system@)),
    {
        OwnedExternalId::System(system.to_owned())
    }

    /// An identifier of a public and a system identifier.
    #[must_use]
    pub fn new_public(public: &str, system: &str) -> (r: Self)
        ensures
            r@ == ExternalIdView::Public(owned_span(public@), owned_span(system@)),
    {
        OwnedExternalId::Public(public.to_owned(), system.to_owned())
    }

    /// A copy of the identifier.
    pub fn duplicate(&self) -> (r: Self)
        ensures
            r@ == self@,
    {
        match self {
            OwnedExternalId::System(system) => OwnedExternalId::System(system.clone()),
            OwnedExternalId::Public(public, system) => OwnedExternalId::Public(
                public.clone(),
                system.clone(),
            ),
        }
    }

    /// The identifier as spans over the owned strings, at offset zero.
    pub fn borrowed(&self) -> (r: ExternalId<'_>)
        ensures
            r@ == self@,
    {
        match self {
            OwnedExternalId::System(system) => ExternalId::System(
                StrSpan::from_str(system.as_str()),
            ),
            OwnedExternalId::Public(public, system) => ExternalId::Public(
                StrSpan::from_str(public.as_str()),
                StrSpan::from_str(system.as_str()),
            ),
        }
    }
}

/// An owned copy of an optional identifier, without offsets.
pub fn opt_id_to_owned(id: &Option<ExternalId<'_>>) -> (r: Option<OwnedExternalId>)
    ensures
        opt_owned_id_view(r) == opt_id_stripped(opt_id_view(*id)),
{
    match id {
        Some(v) => Some(v.to_owned()),
        None => None,
    }
}

/// An optional owned identifier as spans over its strings.
pub fn opt_id_borrowed<'a>(id: &'a Option<OwnedExternalId>) -> (r: Option<ExternalId<'a>>)
    ensures
        opt_id_view(r) == opt_owned_id_view(*id),
{
    match id {
        Some(v) => Some(v.borrowed()),
        None => None,
    }
}

/// An optional identifier with every offset set to zero.
pub fn opt_id_unplaced<'a>(id: &Option<ExternalId<'a>>) -> (r: Option<ExternalId<'a>>)
    ensures
        opt_id_view(r) == opt_id_stripped(opt_id_view(*id)),
{
    match id {
        Some(v) => Some(v.stripped()),
        None => None,
    }
}

/// What the definition of an entity stands for.
pub enum EntityDefinitionView {
    /// A value written out in the declaration.
    EntityValue(SpanView),
    /// A reference to an external resource.
    ExternalId(ExternalIdView),
}

impl EntityDefinitionView {
    /// The definition with every offset set to zero.
    pub open spec fn stripped(self) -> EntityDefinitionView {
        match self {
            EntityDefinitionView::EntityValue(v) => EntityDefinitionView::EntityValue(
                v.unplaced(),
            ),
            EntityDefinitionView::ExternalId(id) => EntityDefinitionView::ExternalId(
                id.stripped(),
            ),
        }
    }

    /// The definition as an owned copy holds it: without offsets.
    pub open spec fn detached(self) -> EntityDefinitionView {
        self.stripped()
    }

    /// The bytes that stand for the definition: one byte for its kind, zero
    /// for a value and one for an external identifier, and what it holds.
    pub open spec fn encoding(self, header: bool) -> Seq<u8> {
        match self {
            EntityDefinitionView::EntityValue(v) => seq![0u8] + v.encoding(header),
            EntityDefinitionView::ExternalId(id) => seq![1u8] + id.encoding(header),
        }
    }

    /// The definition that `buf` holds at `pos`.
    #[verifier::opaque]
    pub open spec fn decoding(buf: Seq<u8>, pos: int, src: Option<Seq<u8>>) -> Decoded<
        EntityDefinitionView,
    > {
        match byte_decoding(buf, pos) {
            Err(e) => Err(e),
            Ok((kind, _)) => if kind == 0 {
                match SpanView::decoding(buf, pos + 1, src) {
                    Err(e) => Err(e),
                    Ok((v, n1)) => Ok((EntityDefinitionView::EntityValue(v), 1 + n1)),
                }
            } else if kind == 1 {
                match ExternalIdView::decoding(buf, pos + 1, src) {
                    Err(e) => Err(e),
                    Ok((id, n1)) => Ok((EntityDefinitionView::ExternalId(id), 1 + n1)),
                }
            } else {
                Err(DecodeFailure::InvalidEnumVariant)
            },
        }
    }

    /// True when the binary form can hold the definition in this mode: with a
    /// source, every span lies in it; without one, every text has a length
    /// that a count can hold; and so has every sequence.
    pub open spec fn storable(self, mode: Option<Seq<u8>>) -> bool {
        match self {
            EntityDefinitionView::EntityValue(v) => v.storable(mode),
            EntityDefinitionView::ExternalId(id) => id.storable(mode),
        }
    }
}

/// The [definition of an entity](https://www.w3.org/TR/xml/#NT-EntityDef).
#[derive(Clone, Copy, PartialEq, Eq, Hash, Debug)]
pub enum EntityDefinition<'src> {
    /// A value written out in the declaration.
    EntityValue(StrSpan<'src>),
    /// A reference to an external resource.
    ExternalId(ExternalId<'src>),
}

impl<'src> View for EntityDefinition<'src> {
    type V = EntityDefinitionView;

    open spec fn view(&self) -> EntityDefinitionView {
        match self {
            EntityDefinition::EntityValue(v) => EntityDefinitionView::EntityValue(v@),
            EntityDefinition::ExternalId(id) => EntityDefinitionView::ExternalId(id@),
        }
    }
}

impl<'src> EntityDefinition<'src> {
    /// A definition by a value, over a copy of the text that the arena
    /// keeps.
    pub fn from_unallocated(arena: &'src DocumentSourceRef, value: &str) -> (r: Self)
        ensures
            r@ == EntityDefinitionView::EntityValue(owned_span(value@)),
    {
        EntityDefinition::EntityValue(StrSpan::from_unallocated(arena, value))
    }

    /// A definition by a value.
    pub fn new_entity_value(s: StrSpan<'src>) -> (r: Self)
        ensures
            r@ == EntityDefinitionView::EntityValue(s@),
    {
        EntityDefinition::EntityValue(s)
    }

    /// A definition by an external identifier.
    pub fn new_external_id(external_id: ExternalId<'src>) -> (r: Self)
        ensures
            r@ == EntityDefinitionView::ExternalId(external_id@),
    {
        EntityDefinition::ExternalId(external_id)
    }

    /// An owned copy of the definition, without offsets.
    #[must_use]
    pub fn to_owned(&self) -> (r: OwnedEntityDefinition)
        ensures
            r@ == self@.detached(),
    {
        match self {
            EntityDefinition::EntityValue(value) => OwnedEntityDefinition::EntityValue(
                value.text().to_owned(),
            ),
            EntityDefinition::ExternalId(external_id) => OwnedEntityDefinition::ExternalId(
                external_id.to_owned(),
            ),
        }
    }

    /// The definition with every offset set to zero.
    pub fn stripped(&self) -> (r: Self)
        ensures
            r@ == self@.stripped(),
    {
        match self {
            EntityDefinition::EntityValue(value) => EntityDefinition::EntityValue(
                value.unplaced(),
            ),
            EntityDefinition::ExternalId(external_id) => EntityDefinition::ExternalId(
                external_id.stripped(),
            ),
        }
    }

    /// Sets every offset of the definition to zero and keeps the text.
    pub fn strip_metadata(&mut self)
        ensures
            final(self)@ == old(self)@.stripped(),
    {
        *self = self.stripped();
    }
}

impl<'src> ToBinHandler<'src> for EntityDefinition<'src> {
    type Model = EntityDefinitionView;

    open spec fn reserving(buf: Seq<u8>, pos: int, src: Option<Seq<u8>>) -> bool {
        false
    }

    open spec fn model(&self) -> EntityDefinitionView {
        self@
    }

    open spec fn encoding(m: EntityDefinitionView, header: bool) -> Seq<u8> {
        m.encoding(header)
    }

    open spec fn decoding(buf: Seq<u8>, pos: int, src: Option<Seq<u8>>) -> Decoded<
        EntityDefinitionView,
    > {
        EntityDefinitionView::decoding(buf, pos, src)
    }

    fn write(&self, encoder: &mut Encoder) -> (r: std::io::Result<()>) {
        match self {
            EntityDefinition::EntityValue(value) => {
                encoder.write_byte(0);
                let _ = value.write(encoder);
            },
            EntityDefinition::ExternalId(external_id) => {
                encoder.write_byte(1);
                let _ = external_id.write(encoder);
            },
        }
        proof {
            assert(encoder@.bytes =~= old(encoder)@.bytes + self@.encoding(
                old(encoder)@.source_header,
            ));
        }
        Ok(())
    }

    fn read(decoder: &mut Decoder<'src>) -> (r: Result<Self, BinDecodeError>) {
        proof {
            reveal(EntityDefinitionView::decoding);
        }
        let kind = decoder.read()?;
        if kind == 0 {
            let value = StrSpan::read(decoder)?;
            Ok(EntityDefinition::EntityValue(value))
        } else if kind == 1 {
            let external_id = ExternalId::read(decoder)?;
            Ok(EntityDefinition::ExternalId(external_id))
        } else {
            Err(BinDecodeError::InvalidEnumVariant)
        }
    }
}

/// An owned entity definition, without offsets.
#[derive(Clone, PartialEq, Eq, Hash, Debug)]
pub enum OwnedEntityDefinition {
    /// A value written out in the declaration.
    EntityValue(String),
    /// A reference to an external resource.
    ExternalId(OwnedExternalId),
}

impl View for OwnedEntityDefinition {
    type V = EntityDefinitionView;

    open spec fn view(&self) -> EntityDefinitionView {
        match self {
            OwnedEntityDefinition::EntityValue(v) => EntityDefinitionView::EntityValue(
                owned_span(v@),
            ),
            OwnedEntityDefinition::ExternalId(id) => EntityDefinitionView::ExternalId(id@),
        }
    }
}

impl OwnedEntityDefinition {
    /// A definition by a value.
    #[must_use]
    pub fn new_entity_value(value: &str) -> (r: Self)
        ensures
            r@ == EntityDefinitionView::EntityValue(owned_span(value@)),
    {
        OwnedEntityDefinition::EntityValue(value.to_owned())
    }

    /// A definition by an external identifier.
    #[must_use]
    pub fn new_external_id(external_id: OwnedExternalId) -> (r: Self)
        ensures
            r@ == EntityDefinitionView::ExternalId(external_id@),
    {
        OwnedEntityDefinition::ExternalId(external_id)
    }

    /// A copy of the definition.
    pub fn duplicate(&self) -> (r: Self)
        ensures
            r@ == self@,
    {
        match self {
            OwnedEntityDefinition::EntityValue(value) => OwnedEntityDefinition::EntityValue(
                value.clone(),
            ),
            OwnedEntityDefinition::ExternalId(external_id) => OwnedEntityDefinition::ExternalId(
                external_id.duplicate(),
            ),
        }
    }

    /// The definition as spans over the owned strings, at offset zero.
    pub fn borrowed(&self) -> (r: EntityDefinition<'_>)
        ensures
            r@ == self@,
    {
        match self {
            OwnedEntityDefinition::EntityValue(value) => EntityDefinition::EntityValue(
                StrSpan::from_str(value.as_str()),
            ),
            OwnedEntityDefinition::ExternalId(external_id) => EntityDefinition::ExternalId(
                external_id.borrowed(),
            ),
        }
    }
}

/// What an entity declaration stands for.
pub struct DtdEntityView {
    /// The whole declaration as it stands in the source.
    pub span: SpanView,
    /// The name of the entity.
    pub name: SpanView,
    /// What the entity is defined as.
    pub definition: EntityDefinitionView,
}

impl DtdEntityView {
    /// The declaration with every offset set to zero.
    pub open spec fn stripped(self) -> DtdEntityView {
        DtdEntityView {
            span: self.span.unplaced(),
            name: self.name.unplaced(),
            definition: self.definition.stripped(),
        }
    }

    /// The declaration as an owned copy holds it: name and definition,
    /// without offsets.
    pub open spec fn detached(self) -> DtdEntityView {
        DtdEntityView {
            span: SpanView::empty(),
            name: self.name.unplaced(),
            definition: self.definition.detached(),
        }
    }

    /// The bytes that stand for the declaration: its span, its name and
    /// its definition.
    pub open spec fn encoding(self, header: bool) -> Seq<u8> {
        self.span.encoding(header) + self.name.encoding(header) + self.definition.encoding(
            header,
        )
    }

    /// The declaration that `buf` holds at `pos`.
    #[verifier::opaque]
    pub open spec fn decoding(buf: Seq<u8>, pos: int, src: Option<Seq<u8>>) -> Decoded<
        DtdEntityView,
    > {
        match SpanView::decoding(buf, pos, src) {
            Err(e) => Err(e),
            Ok((span, n1)) => match SpanView::decoding(buf, pos + n1, src) {
                Err(e) => Err(e),
                Ok((name, n2)) => match EntityDefinitionView::decoding(buf, pos + n1 + n2, src) {
                    Err(e) => Err(e),
                    Ok((definition, n3)) => Ok(
                        (DtdEntityView { span, name, definition }, n1 + n2 + n3),
                    ),
                },
            },
        }
    }

    /// True when the binary form can hold the declaration in this mode: with a
    /// source, every span lies in it; without one, every text has a length
    /// that a count can hold; and so has every sequence.
    pub open spec fn storable(self, mode: Option<Seq<u8>>) -> bool {
        self.span.storable(mode) && self.name.storable(mode) && self.definition.storable(mode)
    }
}

/// An entity declaration in a document type declaration.
#[derive(Clone, Copy, PartialEq, Eq, Hash, Debug)]
pub struct DtdEntity<'src> {
    /// The span of the declaration in the source.
    pub span: StrSpan<'src>,
    /// The name of the entity.
    pub name: StrSpan<'src>,
    /// What the entity is defined as.
    pub definition: EntityDefinition<'src>,
}

impl<'src> View for DtdEntity<'src> {
    type V = DtdEntityView;

    open spec fn view(&self) -> DtdEntityView {
        DtdEntityView { span: self.span@, name: self.name@, definition: self.definition@ }
    }
}

impl<'src> DtdEntity<'src> {
    /// An entity declaration without span, with a copy of the name that
    /// the arena keeps.
    pub fn from_unallocated(
        arena: &'src DocumentSourceRef,
        name: &str,
        definition: EntityDefinition<'src>,
    ) -> (r: Self)
        ensures
            r@ == (DtdEntityView {
                span: SpanView::empty(),
                name: owned_span(name@),
                definition: definition@,
            }),
    {
        DtdEntity {
            span: StrSpan::empty(),
            name: StrSpan::from_unallocated(arena, name),
            definition,
        }
    }

    /// An entity declaration of the span it covers, its name and its
    /// definition.
    pub fn new(span: StrSpan<'src>, name: StrSpan<'src>, definition: EntityDefinition<'src>) -> (r:
        Self)
        ensures
            r@ == (DtdEntityView { span: span@, name: name@, definition: definition@ }),
    {
        DtdEntity { span, name, definition }
    }

    /// An owned copy of the declaration, without offsets.
    #[must_use]
    pub fn to_owned(&self) -> (r: OwnedDtdEntity)
        ensures
            r@ == self@.detached(),
    {
        OwnedDtdEntity {
            name: self.name.text().to_owned(),
            definition: self.definition.to_owned(),
        }
    }

    /// The declaration with every offset set to zero.
    pub fn stripped(&self) -> (r: Self)
        ensures
            r@ == self@.stripped(),
    {
        DtdEntity {
            span: self.span.unplaced(),
            name: self.name.unplaced(),
            definition: self.definition.stripped(),
        }
    }

    /// Sets every offset of the declaration to zero and keeps the text,
    /// which makes its binary form independent of the source.
    pub fn strip_metadata(&mut self)
        ensures
            final(self)@ == old(self)@.stripped(),
    {
        *self = self.stripped();
    }
}

impl<'src> ToBinHandler<'src> for DtdEntity<'src> {
    type Model = DtdEntityView;

    open spec fn reserving(buf: Seq<u8>, pos: int, src: Option<Seq<u8>>) -> bool {
        false
    }

    open spec fn model(&self) -> DtdEntityView {
        self@
    }

    open spec fn encoding(m: DtdEntityView, header: bool) -> Seq<u8> {
        m.encoding(header)
    }

    open spec fn decoding(buf: Seq<u8>, pos: int, src: Option<Seq<u8>>) -> Decoded<
        DtdEntityView,
    > {
        DtdEntityView::decoding(buf, pos, src)
    }

    fn write(&self, encoder: &mut Encoder) -> (r: std::io::Result<()>) {
        let _ = self.span.write(encoder);
        let _ = self.name.write(encoder);
        let _ = self.definition.write(encoder);
        proof {
            assert(encoder@.bytes =~= old(encoder)@.bytes + self@.encoding(
                old(encoder)@.source_header,
            ));
        }
        Ok(())
    }

    fn read(decoder: &mut Decoder<'src>) -> (r: Result<Self, BinDecodeError>) {
        proof {
            reveal(DtdEntityView::decoding);
        }
        let span = StrSpan::read(decoder)?;
        let name = StrSpan::read(decoder)?;
        let definition = EntityDefinition::read(decoder)?;
        Ok(DtdEntity { span, name, definition })
    }
}

/// An owned entity declaration, without offsets.
#[derive(Clone, PartialEq, Eq, Hash, Debug)]
pub struct OwnedDtdEntity {
    /// The name of the entity.
    pub name: String,
    /// What the entity is defined as.
    pub definition: OwnedEntityDefinition,
}

impl View for OwnedDtdEntity {
    type V = DtdEntityView;

    open spec fn view(&self) -> DtdEntityView {
        DtdEntityView {
            span: SpanView::empty(),
            name: owned_span(self.name@),
            definition: self.definition@,
        }
    }
}

impl OwnedDtdEntity {
    /// An entity declaration of a name and its definition.
    pub fn new(name: &str, definition: OwnedEntityDefinition) -> (r: Self)
        ensures
            r@ == (DtdEntityView {
                span: SpanView::empty(),
                name: owned_span(name@),
                definition: definition@,
            }),
    {
        OwnedDtdEntity { name: name.to_owned(), definition }
    }

    /// A copy of the declaration.
    pub fn duplicate(&self) -> (r: Self)
        ensures
            r@ == self@,
    {
        OwnedDtdEntity { name: self.name.clone(), definition: self.definition.duplicate() }
    }

    /// The declaration as spans over the owned strings, at offset zero.
    pub fn borrowed(&self) -> (r: DtdEntity<'_>)
        ensures
            r@ == self@,
    {
        DtdEntity {
            span: StrSpan::empty(),
            name: StrSpan::from_str(self.name.as_str()),
            definition: self.definition.borrowed(),
        }
    }
}

/// The bytes that stand for entity declarations, one behind the other.
pub open spec fn entities_encoding(items: Seq<DtdEntityView>, header: bool) -> Seq<u8>
    decreases items.len(),
{
    if items.len() == 0 {
        Seq::empty()
    } else {
        entities_encoding(items.drop_last(), header) + items.last().encoding(header)
    }
}

/// The `count` entity declarations that `buf` holds from `pos` on, one
/// behind the other.
pub open spec fn entities_decoding(
    buf: Seq<u8>,
    pos: int,
    count: nat,
    src: Option<Seq<u8>>,
) -> Decoded<Seq<DtdEntityView>>
    decreases count,
{
    if count == 0 {
        Ok((Seq::empty(), 0))
    } else {
        match entities_decoding(buf, pos, (count - 1) as nat, src) {
            Err(e) => Err(e),
            Ok((items, used)) => match DtdEntityView::decoding(buf, pos + used, src) {
                Err(e) => Err(e),
                Ok((m, more)) => Ok((items.push(m), used + more)),
            },
        }
    }
}

/// Where the first entity declarations fail to decode, so do more of them,
/// in the same way.
pub proof fn lemma_entities_failure_stays(
    buf: Seq<u8>,
    pos: int,
    few: nat,
    many: nat,
    src: Option<Seq<u8>>,
)
    requires
        few <= many,
        entities_decoding(buf, pos, few, src) is Err,
    ensures
        entities_decoding(buf, pos, many, src) == entities_decoding(buf, pos, few, src),
    decreases many,
{
    if few < many {
        lemma_entities_failure_stays(buf, pos, few, (many - 1) as nat, src);
    }
}

/// What a sequence of entity declarations stands for.
pub open spec fn entities_view(entities: Seq<DtdEntity<'_>>) -> Seq<DtdEntityView> {
    Seq::new(entities.len(), |i: int| entities[i]@)
}

/// Writes the count of the entity declarations and the declarations.
fn write_entities(entities: &Vec<DtdEntity<'_>>, encoder: &mut Encoder)
    ensures
        final(encoder)@ == old(encoder)@.with(
            count_encoding(entities@.len() as usize) + entities_encoding(
                entities_view(entities@),
                old(encoder)@.source_header,
            ),
        ),
{
    let ghost header = encoder@.source_header;
    let ghost all = entities_view(entities@);
    let _ = entities.len().write(encoder);
    let mut i: usize = 0;
    while i < entities.len()
        invariant
            i <= entities@.len(),
            all == entities_view(entities@),
            encoder@.source_header == header,
            encoder@.bytes == old(encoder)@.bytes + count_encoding(entities@.len() as usize)
                + entities_encoding(all.take(i as int), header),
        decreases entities@.len() - i,
    {
        let _ = entities[i].write(encoder);
        proof {
            assert(all.take(i + 1).drop_last() =~= all.take(i as int));
            assert(all.take(i + 1).last() == entities@[i as int]@);
        }
        i += 1;
    }
    proof {
        assert(all.take(entities@.len() as int) =~= all);
        assert(encoder@.bytes =~= old(encoder)@.bytes + (count_encoding(
            entities@.len() as usize,
        ) + entities_encoding(all, header)));
    }
}

/// The entity declarations that `buf` holds at `pos`, behind their count.
#[verifier::opaque]
pub open spec fn counted_entities_decoding(
    buf: Seq<u8>,
    pos: int,
    src: Option<Seq<u8>>,
) -> Decoded<Seq<DtdEntityView>> {
    match count_decoding(buf, pos) {
        Err(e) => Err(e),
        Ok((count, _)) => match entities_decoding(buf, pos + 8, count as nat, src) {
            Err(e) => Err(e),
            Ok((items, used)) => Ok((items, 8 + used)),
        },
    }
}

/// Reads a count and that many entity declarations.
#[verifier::rlimit(100)]
fn read_entities<'src>(decoder: &mut Decoder<'src>) -> (r: Result<
    Vec<DtdEntity<'src>>,
    BinDecodeError,
>)
    ensures
        final(decoder)@.bytes == old(decoder)@.bytes,
        final(decoder)@.source == old(decoder)@.source,
        crate::to_bin::read_agrees(
            counted_entities_decoding(
                old(decoder)@.bytes,
                old(decoder)@.cursor as int,
                old(decoder)@.source,
            ),
            match r {
                Ok(v) => Ok(entities_view(v@)),
                Err(e) => Err(e),
            },
            final(decoder)@.cursor - old(decoder)@.cursor,
            count_reserves(old(decoder)@.bytes, old(decoder)@.cursor as int),
        ),
        count_decoding(old(decoder)@.bytes, old(decoder)@.cursor as int) is Err ==> r matches Err(
            BinDecodeError::UnexpectedEof,
        ),
{
    proof {
        reveal(counted_entities_decoding);
    }
    let ghost buf = decoder@.bytes;
    let ghost src = decoder@.source;
    let ghost start = decoder@.cursor as int;
    let len = usize::read(decoder)?;
    let mut vec: Vec<DtdEntity<'src>> = Vec::new();
    if len > 0 {
        match vec.try_reserve(len) {
            Ok(()) => {},
            Err(e) => {
                return Err(BinDecodeError::TryReserveError(e));
            },
        }
    }
    let mut i: usize = 0;
    proof {
        assert(entities_view(vec@) =~= Seq::empty());
    }
    while i < len
        invariant
            i <= len,
            buf == old(decoder)@.bytes,
            src == old(decoder)@.source,
            start == old(decoder)@.cursor,
            decoder@.bytes == buf,
            decoder@.source == src,
            count_decoding(buf, start) == Ok::<(usize, nat), DecodeFailure>((len, 8)),
            vec@.len() == i,
            entities_decoding(buf, start + 8, i as nat, src) == Ok::<
                (Seq<DtdEntityView>, nat),
                DecodeFailure,
            >((entities_view(vec@), (decoder@.cursor - start - 8) as nat)),
            decoder@.cursor >= start + 8,
        decreases len - i,
    {
        let ghost before = entities_view(vec@);
        let ghost at = decoder@.cursor as int;
        match DtdEntity::read(decoder) {
            Ok(item) => {
                vec.push(item);
                proof {
                    assert(entities_view(vec@) =~= before.push(item@));
                }
            },
            Err(e) => {
                proof {
                    reveal(counted_entities_decoding);
                    if e.failure() is Some {
                        lemma_entities_failure_stays(
                            buf,
                            start + 8,
                            (i + 1) as nat,
                            len as nat,
                            src,
                        );
                    }
                }
                return Err(e);
            },
        }
        i += 1;
    }
    Ok(vec)
}

/// What a document type declaration stands for.
pub struct DtdView {
    /// The whole declaration as it stands in the source.
    pub span: SpanView,
    /// The name of the document type.
    pub name: SpanView,
    /// The external identifier, if there is one.
    pub external_id: Option<ExternalIdView>,
    /// The entities declared, in the order of the source.
    pub entities: Seq<DtdEntityView>,
}

impl DtdView {
    /// The declaration with every offset set to zero.
    pub open spec fn stripped(self) -> DtdView {
        DtdView {
            span: self.span.unplaced(),
            name: self.name.unplaced(),
            external_id: opt_id_stripped(self.external_id),
            entities: Seq::new(self.entities.len(), |i: int| self.entities[i].stripped()),
        }
    }

    /// The declaration as an owned copy holds it: without the span it
    /// covered and without offsets.
    pub open spec fn detached(self) -> DtdView {
        DtdView {
            span: SpanView::empty(),
            name: self.name.unplaced(),
            external_id: opt_id_stripped(self.external_id),
            entities: Seq::new(self.entities.len(), |i: int| self.entities[i].detached()),
        }
    }

    /// The bytes that stand for the declaration: its span, its name, its
    /// optional external identifier, the count of its entities and the
    /// entities.
    pub open spec fn encoding(self, header: bool) -> Seq<u8> {
        self.span.encoding(header) + self.name.encoding(header) + opt_id_encoding(
            self.external_id,
            header,
        ) + count_encoding(self.entities.len() as usize) + entities_encoding(
            self.entities,
            header,
        )
    }

    /// The declaration that `buf` holds at `pos`.
    #[verifier::opaque]
    pub open spec fn decoding(buf: Seq<u8>, pos: int, src: Option<Seq<u8>>) -> Decoded<DtdView> {
        match SpanView::decoding(buf, pos, src) {
            Err(e) => Err(e),
            Ok((span, n1)) => match SpanView::decoding(buf, pos + n1, src) {
                Err(e) => Err(e),
                Ok((name, n2)) => match opt_id_decoding(buf, pos + n1 + n2, src) {
                    Err(e) => Err(e),
                    Ok((external_id, n3)) => match counted_entities_decoding(
                        buf,
                        pos + n1 + n2 + n3,
                        src,
                    ) {
                        Err(e) => Err(e),
                        Ok((entities, n4)) => Ok(
                            (DtdView { span, name, external_id, entities }, n1 + n2 + n3 + n4),
                        ),
                    },
                },
            },
        }
    }

    /// True when a read of the declaration that `buf` holds at `pos` comes
    /// to reserve memory: its span, its name and its optional identifier
    /// decode, and the count of its entities is not zero.
    pub open spec fn reserving(buf: Seq<u8>, pos: int, src: Option<Seq<u8>>) -> bool {
        match SpanView::decoding(buf, pos, src) {
            Err(_) => false,
            Ok((_, n1)) => match SpanView::decoding(buf, pos + n1, src) {
                Err(_) => false,
                Ok((_, n2)) => match opt_id_decoding(buf, pos + n1 + n2, src) {
                    Err(_) => false,
                    Ok((_, n3)) => count_reserves(buf, pos + n1 + n2 + n3),
                },
            },
        }
    }

    /// True when the binary form can hold the declaration in this mode: with a
    /// source, every span lies in it; without one, every text has a length
    /// that a count can hold; and so has every sequence.
    pub open spec fn storable(self, mode: Option<Seq<u8>>) -> bool {
        &&& self.span.storable(mode)
        &&& self.name.storable(mode)
        &&& opt_id_storable(self.external_id, mode)
        &&& self.entities.len() <= usize::MAX
        &&& forall|i: int| 0 <= i < self.entities.len() ==> (#[trigger] self.entities[i]).storable(mode)
    }
}

/// A document type declaration: `<!DOCTYPE name ... [ entities ]>`.
#[derive(Clone, PartialEq, Eq, Hash, Debug)]
pub struct DtdNode<'src> {
    pub(crate) span: StrSpan<'src>,
    pub(crate) name: StrSpan<'src>,
    pub(crate) external_id: Option<ExternalId<'src>>,
    pub(crate) entities: Vec<DtdEntity<'src>>,
}

impl<'src> View for DtdNode<'src> {
    type V = DtdView;

    open(crate) spec fn view(&self) -> DtdView {
        DtdView {
            span: self.span@,
            name: self.name@,
            external_id: opt_id_view(self.external_id),
            entities: Seq::new(self.entities@.len(), |i: int| self.entities@[i]@),
        }
    }
}

impl<'src> DtdNode<'src> {
    /// A document type declaration without entities.
    pub fn new(span: StrSpan<'src>, name: StrSpan<'src>, external_id: Option<ExternalId<'src>>) -> (r:
        Self)
        ensures
            r@ == (DtdView {
                span: span@,
                name: name@,
                external_id: opt_id_view(external_id),
                entities: Seq::empty(),
            }),
    {
        let r = DtdNode { span, name, external_id, entities: Vec::new() };
        proof {
            assert(r@.entities =~= Seq::empty());
        }
        r
    }

    /// Adds an entity declaration behind those that the node holds.
    pub fn push_entity(&mut self, entity: DtdEntity<'src>)
        ensures
            final(self)@ == (DtdView { entities: old(self)@.entities.push(entity@), ..old(self)@ }),
    {
        self.entities.push(entity);
        proof {
            assert(self@.entities =~= old(self)@.entities.push(entity@));
        }
    }

    /// Widens the span of the declaration to reach over `span` too.
    pub fn extend_span(&mut self, span: &StrSpan<'src>, src: &'src str)
        requires
            old(self)@.span.lies_in(src.spec_bytes()),
            span@.lies_in(src.spec_bytes()),
        ensures
            final(self)@ == (DtdView {
                span: old(self)@.span.cover(span@, src.spec_bytes()),
                ..old(self)@
            }),
            final(self)@.span.lies_in(src.spec_bytes()),
    {
        self.span.extend(span, src);
    }

    /// The span of the declaration in the source.
    #[must_use]
    pub fn span(&self) -> (r: &StrSpan<'src>)
        ensures
            r@ == self@.span,
    {
        &self.span
    }

    /// The name of the document type.
    #[must_use]
    pub fn name(&self) -> (r: &StrSpan<'src>)
        ensures
            r@ == self@.name,
    {
        &self.name
    }

    /// The external identifier, if there is one.
    #[must_use]
    pub fn external_id(&self) -> (r: Option<&ExternalId<'src>>)
        ensures
            match r {
                Some(id) => self@.external_id == Some(id@),
                None => self@.external_id is None,
            },
    {
        self.external_id.as_ref()
    }

    /// The entities declared, in the order of the source.
    #[must_use]
    pub fn entities(&self) -> (r: &[DtdEntity<'src>])
        ensures
            r@.len() == self@.entities.len(),
            forall|i: int| 0 <= i < r@.len() ==> (#[trigger] r@[i])@ == self@.entities[i],
    {
        self.entities.as_slice()
    }

    /// An owned copy of the declaration, without offsets.
    #[must_use]
    pub fn to_owned(&self) -> (r: OwnedDtdNode)
        ensures
            r@ == self@.detached(),
    {
        let mut entities: Vec<OwnedDtdEntity> = Vec::new();
        let mut i: usize = 0;
        while i < self.entities.len()
            invariant
                i <= self.entities@.len(),
                entities@.len() == i,
                forall|j: int| 0 <= j < i ==> (#[trigger] entities@[j])@ == self.entities@[j]@.detached(),
            decreases self.entities@.len() - i,
        {
            entities.push(self.entities[i].to_owned());
            i += 1;
        }
        let r = OwnedDtdNode {
            name: self.name.text().to_owned(),
            external_id: opt_id_to_owned(&self.external_id),
            entities,
        };
        proof {
            assert(r@.entities =~= self@.detached().entities);
        }
        r
    }

    /// A copy of the declaration.
    pub fn duplicate(&self) -> (r: Self)
        ensures
            r@ == self@,
    {
        let mut entities: Vec<DtdEntity<'src>> = Vec::new();
        let mut i: usize = 0;
        while i < self.entities.len()
            invariant
                i <= self.entities@.len(),
                entities@.len() == i,
                forall|j: int| 0 <= j < i ==> (#[trigger] entities@[j])@ == self.entities@[j]@,
            decreases self.entities@.len() - i,
        {
            entities.push(self.entities[i]);
            i += 1;
        }
        let r = DtdNode {
            span: self.span,
            name: self.name,
            external_id: self.external_id,
            entities,
        };
        proof {
            assert(r@.entities =~= self@.entities);
        }
        r
    }

    /// The declaration with every offset set to zero.
    pub fn stripped(&self) -> (r: Self)
        ensures
            r@ == self@.stripped(),
    {
        let mut entities: Vec<DtdEntity<'src>> = Vec::new();
        let mut i: usize = 0;
        while i < self.entities.len()
            invariant
                i <= self.entities@.len(),
                entities@.len() == i,
                forall|j: int| 0 <= j < i ==> (#[trigger] entities@[j])@ == self.entities@[j]@.stripped(),
            decreases self.entities@.len() - i,
        {
            entities.push(self.entities[i].stripped());
            i += 1;
        }
        let r = DtdNode {
            span: self.span.unplaced(),
            name: self.name.unplaced(),
            external_id: opt_id_unplaced(&self.external_id),
            entities,
        };
        proof {
            assert(r@.entities =~= self@.stripped().entities);
        }
        r
    }

    /// Sets every offset of the declaration and of its entities to zero
    /// and keeps the text, which makes its binary form independent of the
    /// source.
    pub fn strip_metadata(&mut self)
        ensures
            final(self)@ == old(self)@.stripped(),
    {
        *self = self.stripped();
    }
}

impl<'src> ToBinHandler<'src> for DtdNode<'src> {
    type Model = DtdView;

    open spec fn reserving(buf: Seq<u8>, pos: int, src: Option<Seq<u8>>) -> bool {
        DtdView::reserving(buf, pos, src)
    }

    open spec fn model(&self) -> DtdView {
        self@
    }

    open spec fn encoding(m: DtdView, header: bool) -> Seq<u8> {
        m.encoding(header)
    }

    open spec fn decoding(buf: Seq<u8>, pos: int, src: Option<Seq<u8>>) -> Decoded<DtdView> {
        DtdView::decoding(buf, pos, src)
    }

    fn write(&self, encoder: &mut Encoder) -> (r: std::io::Result<()>) {
        let _ = self.span.write(encoder);
        let _ = self.name.write(encoder);
        let _ = self.external_id.write(encoder);
        write_entities(&self.entities, encoder);
        proof {
            assert(entities_view(self.entities@) =~= self@.entities);
            assert(encoder@.bytes =~= old(encoder)@.bytes + self@.encoding(
                old(encoder)@.source_header,
            ));
        }
        Ok(())
    }

    fn read(decoder: &mut Decoder<'src>) -> (r: Result<Self, BinDecodeError>) {
        proof {
            reveal(DtdView::decoding);
            reveal(opt_id_decoding);
        }
        let span = StrSpan::read(decoder)?;
        let name = StrSpan::read(decoder)?;
        let external_id = Option::<ExternalId<'src>>::read(decoder)?;
        let entities = read_entities(decoder)?;
        let r = DtdNode { span, name, external_id, entities };
        proof {
            assert(r@.entities =~= entities_view(entities@));
        }
        Ok(r)
    }
}

/// An owned document type declaration, without offsets.
#[derive(Clone, PartialEq, Eq, Hash, Debug)]
pub struct OwnedDtdNode {
    /// The name of the document type.
    pub name: String,
    /// The external identifier, if there is one.
    pub external_id: Option<OwnedExternalId>,
    /// The entities declared, in the order of the source.
    pub entities: Vec<OwnedDtdEntity>,
}

impl View for OwnedDtdNode {
    type V = DtdView;

    open spec fn view(&self) -> DtdView {
        DtdView {
            span: SpanView::empty(),
            name: owned_span(self.name@),
            external_id: opt_owned_id_view(self.external_id),
            entities: Seq::new(self.entities@.len(), |i: int| self.entities@[i]@),
        }
    }
}

impl OwnedDtdNode {
    /// A document type declaration without entities.
    pub fn new(name: &str, external_id: Option<OwnedExternalId>) -> (r: Self)
        ensures
            r@ == (DtdView {
                span: SpanView::empty(),
                name: owned_span(name@),
                external_id: opt_owned_id_view(external_id),
                entities: Seq::empty(),
            }),
            r.name@ == name@,
            r.external_id == external_id,
            r.entities@ == Seq::<OwnedDtdEntity>::empty(),
    {
        let r = OwnedDtdNode { name: name.to_owned(), external_id, entities: Vec::new() };
        proof {
            assert(r@.entities =~= Seq::empty());
        }
        r
    }

    /// A copy of the declaration.
    pub fn duplicate(&self) -> (r: Self)
        ensures
            r@ == self@,
    {
        let mut entities: Vec<OwnedDtdEntity> = Vec::new();
        let mut i: usize = 0;
        while i < self.entities.len()
            invariant
                i <= self.entities@.len(),
                entities@.len() == i,
                forall|j: int| 0 <= j < i ==> (#[trigger] entities@[j])@ == self.entities@[j]@,
            decreases self.entities@.len() - i,
        {
            entities.push(self.entities[i].duplicate());
            i += 1;
        }
        let external_id = match &self.external_id {
            Some(id) => Some(id.duplicate()),
            None => None,
        };
        let r = OwnedDtdNode { name: self.name.clone(), external_id, entities };
        proof {
            assert(r@.entities =~= self@.entities);
        }
        r
    }

    /// The declaration as spans over the owned strings, at offset zero.
    pub fn borrowed(&self) -> (r: DtdNode<'_>)
        ensures
            r@ == self@,
    {
        let mut entities: Vec<DtdEntity<'_>> = Vec::new();
        let mut i: usize = 0;
        while i < self.entities.len()
            invariant
                i <= self.entities@.len(),
                entities@.len() == i,
                forall|j: int| 0 <= j < i ==> (#[trigger] entities@[j])@ == self.entities@[j]@,
            decreases self.entities@.len() - i,
        {
            entities.push(self.entities[i].borrowed());
            i += 1;
        }
        let r = DtdNode {
            span: StrSpan::empty(),
            name: StrSpan::from_str(self.name.as_str()),
            external_id: opt_id_borrowed(&self.external_id),
            entities,
        };
        proof {
            assert(r@.entities =~= self@.entities);
        }
        r
    }
}

/// An owned value is written as the spans over its strings are, and read
/// as an owned copy of what the stream holds.
impl<'src> ToBinHandler<'src> for OwnedDtdEntity {
    type Model = DtdEntityView;

    open spec fn reserving(buf: Seq<u8>, pos: int, src: Option<Seq<u8>>) -> bool {
        false
    }

    open spec fn model(&self) -> DtdEntityView {
        self@
    }

    open spec fn encoding(m: DtdEntityView, header: bool) -> Seq<u8> {
        m.encoding(header)
    }

    open spec fn decoding(buf: Seq<u8>, pos: int, src: Option<Seq<u8>>) -> Decoded<DtdEntityView> {
        match DtdEntityView::decoding(buf, pos, src) {
            Ok((m, used)) => Ok((m.detached(), used)),
            Err(e) => Err(e),
        }
    }

    fn write(&self, encoder: &mut Encoder) -> (r: std::io::Result<()>) {
        self.borrowed().write(encoder)
    }

    fn read(decoder: &mut Decoder<'src>) -> (r: Result<Self, BinDecodeError>) {
        match DtdEntity::read(decoder) {
            Ok(node) => Ok(node.to_owned()),
            Err(e) => Err(e),
        }
    }
}

} // verus!
