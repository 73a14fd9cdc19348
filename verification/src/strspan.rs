//! Spans: pieces of text together with their place in the source.
use vstd::prelude::*;
use vstd::string::*;
use vstd::utf8::*;
use crate::arena::DocumentSourceRef;
use crate::to_bin::{
    byte_decoding, count_decoding, count_encoding, text_decoding, text_encoding, write_text,
    BinDecodeError, DecodeFailure, Decoded, Decoder, Encoder, ToBinHandler,
};
use crate::utf8::{byte_len, sliceable, slice_bytes, str_eq};

verus! {


/// What a span stands for: its characters and the byte offset at which
/// they start in the source.
pub struct SpanView {
    pub text: Seq<char>,
    pub start: nat,
}

impl SpanView {
    /// The span without text at offset zero.
    pub open spec fn empty() -> SpanView {
        SpanView { text: Seq::empty(), start: 0 }
    }

    /// The number of bytes of the text in UTF-8.
    pub open spec fn len(self) -> nat {
        encode_utf8(self.text).len()
    }

    /// The byte offset behind the last byte of the text.
    pub open spec fn end(self) -> nat {
        self.start + self.len()
    }

    /// The same text at offset zero.
    pub open spec fn unplaced(self) -> SpanView {
        SpanView { text: self.text, start: 0 }
    }

    /// True when the source with the UTF-8 bytes `src` holds exactly this
    /// text at this offset.
    pub open spec fn lies_in(self, src: Seq<u8>) -> bool {
        &&& sliceable(src, self.start as int, self.end() as int)
        &&& src.subrange(self.start as int, self.end() as int) == encode_utf8(self.text)
    }

    /// True when the binary form can hold the span in this mode: with a
    /// source, the span lies in it; without one, its text has a length that
    /// a count can hold.
    pub open spec fn storable(self, mode: Option<Seq<u8>>) -> bool {
        match mode {
            Some(src) => self.lies_in(src) && src.len() <= usize::MAX,
            None => self.len() <= usize::MAX,
        }
    }

    /// The bytes that stand for the span: with `header` its offset and its
    /// length in bytes, each as a count; otherwise its text.
    pub open spec fn encoding(self, header: bool) -> Seq<u8> {
        if header {
            count_encoding(self.start as usize) + count_encoding(self.len() as usize)
        } else {
            text_encoding(self.text)
        }
    }

    /// The span that `buf` holds at `pos`. With a source, the bytes are an
    /// offset and a length, and the text is cut from the source; without
    /// one, they are the text, and the offset is the place of the span in
    /// `buf`.
    #[verifier::opaque]
    pub open spec fn decoding(buf: Seq<u8>, pos: int, src: Option<Seq<u8>>) -> Decoded<SpanView> {
        match src {
            Some(source) => match count_decoding(buf, pos) {
                Err(e) => Err(e),
                Ok((start, _)) => match count_decoding(buf, pos + 8) {
                    Err(e) => Err(e),
                    Ok((len, _)) => {
                        if start + len > source.len() {
                            Err(DecodeFailure::UnexpectedEof)
                        } else if !sliceable(source, start as int, start + len) {
                            Err(DecodeFailure::InvalidUtf8)
                        } else {
                            Ok(
                                (
                                    SpanView {
                                        text: decode_utf8(
                                            source.subrange(start as int, start + len),
                                        ),
                                        start: start as nat,
                                    },
                                    16,
                                ),
                            )
                        }
                    },
                },
            },
            None => match text_decoding(buf, pos) {
                Err(e) => Err(e),
                Ok((text, used)) => Ok((SpanView { text, start: pos as nat }, used)),
            },
        }
    }

    /// The span from the first start to the last end of two spans, cut out
    /// of the source with the UTF-8 bytes `src`.
    pub open spec fn cover(self, other: SpanView, src: Seq<u8>) -> SpanView {
        let start = if self.start <= other.start { self.start } else { other.start };
        let end = if self.end() >= other.end() { self.end() } else { other.end() };
        SpanView { text: decode_utf8(src.subrange(start as int, end as int)), start }
    }
}

/// An optional span at offset zero.
pub open spec fn opt_unplaced(s: Option<SpanView>) -> Option<SpanView> {
    match s {
        Some(v) => Some(v.unplaced()),
        None => None,
    }
}

/// True when an optional span is absent or the binary form can hold it in
/// this mode.
pub open spec fn opt_storable(s: Option<SpanView>, mode: Option<Seq<u8>>) -> bool {
    match s {
        Some(v) => v.storable(mode),
        None => true,
    }
}

/// The characters of an optional span.
pub open spec fn opt_text(s: Option<SpanView>) -> Option<Seq<char>> {
    match s {
        Some(v) => Some(v.text),
        None => None,
    }
}

/// The span that stands for an owned string: its characters at offset zero.
pub open spec fn owned_span(s: Seq<char>) -> SpanView {
    SpanView { text: s, start: 0 }
}

/// The span that stands for an optional owned string.
pub open spec fn owned_opt_span(s: Option<String>) -> Option<SpanView> {
    match s {
        Some(v) => Some(owned_span(v@)),
        None => None,
    }
}

/// The bytes that stand for an optional span: one byte, zero for none,
/// and the span if there is one.
pub open spec fn opt_span_encoding(s: Option<SpanView>, header: bool) -> Seq<u8> {
    match s {
        Some(v) => seq![1u8] + v.encoding(header),
        None => seq![0u8],
    }
}

/// The optional span that `buf` holds at `pos`.
#[verifier::opaque]
pub open spec fn opt_span_decoding(buf: Seq<u8>, pos: int, src: Option<Seq<u8>>) -> Decoded<
    Option<SpanView>,
> {
    match byte_decoding(buf, pos) {
        Err(e) => Err(e),
        Ok((flag, _)) => if flag != 0 {
            match SpanView::decoding(buf, pos + 1, src) {
                Err(e) => Err(e),
                Ok((v, used)) => Ok((Some(v), 1 + used)),
            }
        } else {
            Ok((None, 1))
        },
    }
}

/// The position after the first `upto` bytes of a text, as row and column
/// counted from one: a line feed starts a new row, and every other byte
/// that starts a character moves one column on.
pub open spec fn row_col(bytes: Seq<u8>, upto: int) -> (int, int)
    decreases upto,
{
    if upto <= 0 {
        (1, 1)
    } else {
        let (row, col) = row_col(bytes, upto - 1);
        let b = bytes[upto - 1];
        if is_continuation_byte(b) {
            (row, col)
        } else if b == 0x0A {
            (row + 1, 1)
        } else {
            (row, col + 1)
        }
    }
}

/// The number of bytes that lie before the offset `start` when it is the
/// first byte of a character, and the whole length otherwise.
pub open spec fn scan_stop(bytes: Seq<u8>, start: int) -> int {
    if 0 <= start < bytes.len() && !is_continuation_byte(bytes[start]) {
        start
    } else {
        bytes.len() as int
    }
}

/// A count as far as `usize` can hold it.
pub open spec fn capped(n: int) -> usize {
    if n > usize::MAX {
        usize::MAX
    } else if n < 0 {
        0
    } else {
        n as usize
    }
}

/// Row and column of the byte offset `start` in the text with the UTF-8
/// bytes `bytes`.
pub open spec fn position_of(start: int, bytes: Seq<u8>) -> (usize, usize) {
    let (row, col) = row_col(bytes, scan_stop(bytes, start));
    (capped(row), capped(col))
}

/// Adds one to a count unless it is at the top of its range.
fn bump(n: usize) -> (r: usize)
    ensures
        r == capped(n + 1),
{
    if n < usize::MAX {
        n + 1
    } else {
        n
    }
}

/// A span of text in the source.
#[derive(Debug, Clone, Copy, Eq, Hash)]
pub struct StrSpan<'a> {
    pub(crate) text: &'a str,
    pub(crate) start: usize,
}

impl<'a> View for StrSpan<'a> {
    type V = SpanView;

    open(crate) spec fn view(&self) -> SpanView {
        SpanView { text: self.text@, start: self.start as nat }
    }
}

impl<'a> StrSpan<'a> {
    /// A span of `text` at the byte offset `start`.
    pub fn new(text: &'a str, start: usize) -> (r: Self)
        ensures
            r@ == (SpanView { text: text@, start: start as nat }),
    {
        StrSpan { text, start }
    }

    /// A span of `text` at offset zero.
    pub fn from_str(text: &'a str) -> (r: Self)
        ensures
            r@ == (SpanView { text: text@, start: 0 }),
    {
        StrSpan { text, start: 0 }
    }

    /// A span at offset zero over a copy of `text` that the arena keeps.
    pub fn from_unallocated(arena: &'a DocumentSourceRef, text: &str) -> (r: Self)
        ensures
            r@ == (SpanView { text: text@, start: 0 }),
    {
        StrSpan { text: arena.alloc_str(text), start: 0 }
    }

    /// The empty span at offset zero.
    pub fn empty() -> (r: Self)
        ensures
            r@ == SpanView::empty(),
    {
        let text = "";
        proof {
            reveal_strlit("");
            assert(text@ =~= Seq::<char>::empty());
        }
        StrSpan { text, start: 0 }
    }

    /// An empty span at the last byte of `str`.
    #[must_use]
    pub fn end(str: &'a str) -> (r: Self)
        ensures
            r@.text == Seq::<char>::empty(),
            r@.start == if str.spec_bytes().len() == 0 {
                0
            } else {
                str.spec_bytes().len() - 1
            },
    {
        let len = byte_len(str);
        let text = "";
        proof {
            reveal_strlit("");
            assert(text@ =~= Seq::<char>::empty());
        }
        StrSpan { text, start: if len == 0 { 0 } else { len - 1 } }
    }

    /// Whether `src` holds exactly the text of this span at its offset.
    pub fn placed_in(&self, src: &str) -> (r: bool)
        ensures
            r == self@.lies_in(src.spec_bytes()),
    {
        let len = byte_len(self.text);
        let limit = byte_len(src);
        if len > limit || self.start > limit - len {
            return false;
        }
        match slice_bytes(src, self.start, self.start + len) {
            Some(piece) => {
                proof {
                    if piece.spec_bytes() == self.text.spec_bytes() {
                        crate::utf8::lemma_same_bytes_same_text(piece@, self.text@);
                    }
                }
                str_eq(piece, self.text)
            },
            None => false,
        }
    }

    /// Widens this span as `extend` does, where both spans lie in `src`;
    /// otherwise leaves it as it is and returns `false`.
    pub fn try_extend(&mut self, other: &StrSpan<'a>, src: &'a str) -> (r: bool)
        ensures
            r == (old(self)@.lies_in(src.spec_bytes()) && other@.lies_in(src.spec_bytes())),
            r ==> final(self)@ == old(self)@.cover(other@, src.spec_bytes()),
            !r ==> final(self)@ == old(self)@,
    {
        if self.placed_in(src) && other.placed_in(src) {
            self.extend(other, src);
            true
        } else {
            false
        }
    }

    /// Widens this span to reach from the first start to the last end of
    /// the two spans, and takes the text of that range from `src`.
    pub fn extend(&mut self, other: &StrSpan<'a>, src: &'a str)
        requires
            old(self)@.lies_in(src.spec_bytes()),
            other@.lies_in(src.spec_bytes()),
        ensures
            final(self)@ == old(self)@.cover(other@, src.spec_bytes()),
            final(self)@.lies_in(src.spec_bytes()),
    {
        let limit = byte_len(src);
        let start = if self.start <= other.start { self.start } else { other.start };
        let own_end = self.start + byte_len(self.text);
        let other_end = other.start + byte_len(other.text);
        let end = if own_end >= other_end { own_end } else { other_end };
        let cut = slice_bytes(src, start, end);
        let text = cut.unwrap();
        proof {
            encode_utf8_valid_utf8(text@);
            decode_utf8_encode_utf8(src.spec_bytes().subrange(start as int, end as int));
            encode_utf8_decode_utf8(text@);
        }
        self.text = text;
        self.start = start;
    }

    /// The byte offset at which the span starts in the source.
    #[inline]
    #[must_use]
    pub fn start(&self) -> (r: usize)
        ensures
            r == self@.start,
    {
        self.start
    }

    /// The text of the span.
    #[must_use]
    pub fn text(&self) -> (r: &'a str)
        ensures
            r@ == self@.text,
    {
        self.text
    }

    /// The length of the text in bytes.
    #[inline]
    #[must_use]
    pub fn len(&self) -> (r: usize)
        ensures
            r == self@.len(),
    {
        byte_len(self.text)
    }

    /// Whether the span holds no text.
    #[inline]
    #[must_use]
    pub fn is_empty(&self) -> (r: bool)
        ensures
            r == (self@.text.len() == 0),
    {
        self.text.is_empty()
    }

    /// Row and column of the span's start in `source`, counted from one.
    ///
    /// This reads the source up to the span and is meant for diagnostics.
    #[must_use]
    pub fn position(&self, source: &str) -> (r: (usize, usize))
        ensures
            r == position_of(self@.start as int, source.spec_bytes()),
    {
        Self::position_in_text(self.start, source)
    }

    /// Row and column of the byte offset `start` in `source`, counted from
    /// one.
    pub fn position_in_text(start: usize, source: &str) -> (r: (usize, usize))
        ensures
            r == position_of(start as int, source.spec_bytes()),
    {
        let bytes = source.as_bytes();
        let mut row: usize = 1;
        let mut col: usize = 1;
        let mut i: usize = 0;
        while i < bytes.len()
            invariant
                i <= bytes@.len(),
                row == capped(row_col(bytes@, i as int).0),
                col == capped(row_col(bytes@, i as int).1),
                row_col(bytes@, i as int).0 >= 1,
                row_col(bytes@, i as int).1 >= 1,
                start < i ==> scan_stop(bytes@, start as int) == bytes@.len(),
            ensures
                i == scan_stop(bytes@, start as int),
                row == capped(row_col(bytes@, i as int).0),
                col == capped(row_col(bytes@, i as int).1),
            decreases bytes@.len() - i,
        {
            let b = bytes[i];
            let inside = 0x80 <= b && b <= 0xbf;
            if !inside {
                if i == start {
                    break;
                }
                if b == 0x0A {
                    row = bump(row);
                    col = 1;
                } else {
                    col = bump(col);
                }
            }
            i += 1;
        }
        (row, col)
    }

    /// The same text at offset zero.
    pub fn unplaced(&self) -> (r: Self)
        ensures
            r@ == self@.unplaced(),
    {
        StrSpan { text: self.text, start: 0 }
    }

    /// Sets the offset to zero and keeps the text.
    pub fn strip_metadata(&mut self)
        ensures
            final(self)@ == old(self)@.unplaced(),
    {
        self.start = 0;
    }

    /// An owned copy of the span, with its offset.
    pub fn to_string_span(&self) -> (r: StringSpan)
        ensures
            r@ == self@,
    {
        StringSpan { text: self.text.to_owned(), start: self.start }
    }

    /// Whether the span holds exactly the characters of `other`.
    pub fn text_eq(&self, other: &str) -> (r: bool)
        ensures
            r == (self@.text == other@),
    {
        str_eq(self.text, other)
    }
}

/// An owned copy of an optional span's text.
pub fn opt_span_to_string(s: &Option<StrSpan<'_>>) -> (r: Option<String>)
    ensures
        owned_opt_span(r) == opt_unplaced(opt_view(*s)),
{
    match s {
        Some(v) => Some(v.text.to_owned()),
        None => None,
    }
}

/// A span at offset zero over an optional owned string.
pub fn opt_string_to_span<'a>(s: &'a Option<String>) -> (r: Option<StrSpan<'a>>)
    ensures
        opt_view(r) == owned_opt_span(*s),
{
    match s {
        Some(v) => Some(StrSpan::from_str(v.as_str())),
        None => None,
    }
}

/// What an optional span stands for.
pub open spec fn opt_view(s: Option<StrSpan<'_>>) -> Option<SpanView> {
    match s {
        Some(v) => Some(v@),
        None => None,
    }
}

/// An optional span with its offset set to zero.
pub fn opt_span_unplaced<'a>(s: &Option<StrSpan<'a>>) -> (r: Option<StrSpan<'a>>)
    ensures
        opt_view(r) == opt_unplaced(opt_view(*s)),
{
    match s {
        Some(v) => Some(v.unplaced()),
        None => None,
    }
}

impl<'src> ToBinHandler<'src> for StrSpan<'src> {
    type Model = SpanView;

    open spec fn reserving(buf: Seq<u8>, pos: int, src: Option<Seq<u8>>) -> bool {
        false
    }

    open spec fn model(&self) -> SpanView {
        self@
    }

    open spec fn encoding(m: SpanView, header: bool) -> Seq<u8> {
        m.encoding(header)
    }

    open spec fn decoding(buf: Seq<u8>, pos: int, src: Option<Seq<u8>>) -> Decoded<SpanView> {
        SpanView::decoding(buf, pos, src)
    }

    fn write(&self, encoder: &mut Encoder) -> (r: std::io::Result<()>) {
        if encoder.has_source_header() {
            let _ = self.start.write(encoder);
            let _ = byte_len(self.text).write(encoder);
            proof {
                assert(encoder@.bytes =~= old(encoder)@.bytes + self@.encoding(true));
            }
        } else {
            write_text(self.text, encoder);
        }
        Ok(())
    }

    fn read(decoder: &mut Decoder<'src>) -> (r: Result<Self, BinDecodeError>) {
        proof {
            reveal(SpanView::decoding);
        }
        match decoder.source() {
            Some(src) => {
                let start = usize::read(decoder)?;
                let len = usize::read(decoder)?;
                let limit = byte_len(src);
                if len > limit || start > limit - len {
                    return Err(BinDecodeError::UnexpectedEof);
                }
                match slice_bytes(src, start, start + len) {
                    Some(text) => {
                        proof {
                            encode_utf8_decode_utf8(text@);
                        }
                        Ok(StrSpan { text, start })
                    },
                    None => Err(BinDecodeError::InvalidUtf8),
                }
            },
            None => {
                let start = decoder.cursor();
                let text = <&'src str>::read(decoder)?;
                Ok(StrSpan { text, start })
            },
        }
    }
}

impl<'a> PartialEq for StrSpan<'a> {
    fn eq(&self, other: &Self) -> (r: bool) {
        self.start == other.start && str_eq(self.text, other.text)
    }
}

impl<'a> vstd::std_specs::cmp::PartialEqSpecImpl for StrSpan<'a> {
    open spec fn obeys_eq_spec() -> bool {
        true
    }

    open spec fn eq_spec(&self, other: &Self) -> bool {
        self@ == other@
    }
}

impl<'a, 'b> PartialEq<&'b str> for StrSpan<'a> {
    fn eq(&self, other: &&'b str) -> (r: bool) {
        str_eq(self.text, *other)
    }
}

impl<'a, 'b> vstd::std_specs::cmp::PartialEqSpecImpl<&'b str> for StrSpan<'a> {
    open spec fn obeys_eq_spec() -> bool {
        true
    }

    open spec fn eq_spec(&self, other: &&'b str) -> bool {
        self@.text == other@
    }
}

impl<'a, 'b> PartialEq<StrSpan<'a>> for &'b str {
    fn eq(&self, other: &StrSpan<'a>) -> (r: bool) {
        str_eq(*self, other.text)
    }
}

impl<'a, 'b> vstd::std_specs::cmp::PartialEqSpecImpl<StrSpan<'a>> for &'b str {
    open spec fn obeys_eq_spec() -> bool {
        true
    }

    open spec fn eq_spec(&self, other: &StrSpan<'a>) -> bool {
        self@ == other@.text
    }
}

impl<'a> PartialEq<str> for StrSpan<'a> {
    fn eq(&self, other: &str) -> (r: bool) {
        str_eq(self.text, other)
    }
}

impl<'a> vstd::std_specs::cmp::PartialEqSpecImpl<str> for StrSpan<'a> {
    open spec fn obeys_eq_spec() -> bool {
        true
    }

    open spec fn eq_spec(&self, other: &str) -> bool {
        self@.text == other@
    }
}

impl<'a> PartialEq<StrSpan<'a>> for str {
    fn eq(&self, other: &StrSpan<'a>) -> (r: bool) {
        str_eq(self, other.text)
    }
}

impl<'a> vstd::std_specs::cmp::PartialEqSpecImpl<StrSpan<'a>> for str {
    open spec fn obeys_eq_spec() -> bool {
        true
    }

    open spec fn eq_spec(&self, other: &StrSpan<'a>) -> bool {
        self@ == other@.text
    }
}

impl<'a> Default for StrSpan<'a> {
    fn default() -> (r: Self)
        ensures
            r@ == SpanView::empty(),
    {
        StrSpan::empty()
    }
}

/// An owned span: a string with the byte offset it had in the source.
#[derive(Debug, Clone, Eq, Hash)]
pub struct StringSpan {
    /// The text.
    pub text: String,
    /// The byte offset at which the text started in the source.
    pub start: usize,
}

impl View for StringSpan {
    type V = SpanView;

    open spec fn view(&self) -> SpanView {
        SpanView { text: self.text@, start: self.start as nat }
    }
}

impl StringSpan {
    /// An owned span of `text` at the byte offset `start`.
    #[must_use]
    pub fn new(text: String, start: usize) -> (r: Self)
        ensures
            r@ == (SpanView { text: text@, start: start as nat }),
    {
        StringSpan { text, start }
    }

    /// Row and column of the span's start in `source`, counted from one.
    ///
    /// This reads the source up to the span and is meant for diagnostics.
    #[must_use]
    pub fn position(&self, source: &str) -> (r: (usize, usize))
        ensures
            r == position_of(self@.start as int, source.spec_bytes()),
    {
        StrSpan::position_in_text(self.start, source)
    }

    /// The length of the text in bytes.
    #[inline]
    #[must_use]
    pub fn len(&self) -> (r: usize)
        ensures
            r == self@.len(),
    {
        byte_len(self.text.as_str())
    }

    /// Whether the span holds no text.
    #[inline]
    #[must_use]
    pub fn is_empty(&self) -> (r: bool)
        ensures
            r == (self@.text.len() == 0),
    {
        self.text.as_str().is_empty()
    }

    /// The byte offset at which the span started in the source.
    #[inline]
    #[must_use]
    pub fn start(&self) -> (r: usize)
        ensures
            r == self@.start,
    {
        self.start
    }

    /// The text of the span.
    #[inline]
    #[must_use]
    pub fn as_str(&self) -> (r: &str)
        ensures
            r@ == self@.text,
    {
        self.text.as_str()
    }

    /// Whether the span holds exactly the characters of `other`.
    pub fn text_eq(&self, other: &str) -> (r: bool)
        ensures
            r == (self@.text == other@),
    {
        str_eq(self.text.as_str(), other)
    }
}

impl PartialEq for StringSpan {
    fn eq(&self, other: &Self) -> (r: bool) {
        self.start == other.start && str_eq(self.text.as_str(), other.text.as_str())
    }
}

impl vstd::std_specs::cmp::PartialEqSpecImpl for StringSpan {
    open spec fn obeys_eq_spec() -> bool {
        true
    }

    open spec fn eq_spec(&self, other: &Self) -> bool {
        self@ == other@
    }
}

impl<'b> PartialEq<&'b str> for StringSpan {
    fn eq(&self, other: &&'b str) -> (r: bool) {
        str_eq(self.text.as_str(), *other)
    }
}

impl<'b> vstd::std_specs::cmp::PartialEqSpecImpl<&'b str> for StringSpan {
    open spec fn obeys_eq_spec() -> bool {
        true
    }

    open spec fn eq_spec(&self, other: &&'b str) -> bool {
        self@.text == other@
    }
}

impl<'b> PartialEq<StringSpan> for &'b str {
    fn eq(&self, other: &StringSpan) -> (r: bool) {
        str_eq(*self, other.text.as_str())
    }
}

impl<'b> vstd::std_specs::cmp::PartialEqSpecImpl<StringSpan> for &'b str {
    open spec fn obeys_eq_spec() -> bool {
        true
    }

    open spec fn eq_spec(&self, other: &StringSpan) -> bool {
        self@ == other@.text
    }
}

impl PartialEq<str> for StringSpan {
    fn eq(&self, other: &str) -> (r: bool) {
        str_eq(self.text.as_str(), other)
    }
}

impl vstd::std_specs::cmp::PartialEqSpecImpl<str> for StringSpan {
    open spec fn obeys_eq_spec() -> bool {
        true
    }

    open spec fn eq_spec(&self, other: &str) -> bool {
        self@.text == other@
    }
}

impl PartialEq<StringSpan> for str {
    fn eq(&self, other: &StringSpan) -> (r: bool) {
        str_eq(self, other.text.as_str())
    }
}

impl vstd::std_specs::cmp::PartialEqSpecImpl<StringSpan> for str {
    open spec fn obeys_eq_spec() -> bool {
        true
    }

    open spec fn eq_spec(&self, other: &StringSpan) -> bool {
        self@ == other@.text
    }
}

impl<'a> From<&'a str> for StrSpan<'a> {
    fn from(text: &'a str) -> (r: Self)
        ensures
            r@ == (SpanView { text: text@, start: 0 }),
    {
        StrSpan { text, start: 0 }
    }
}

impl<'a> vstd::std_specs::convert::FromSpecImpl<&'a str> for StrSpan<'a> {
    open spec fn obeys_from_spec() -> bool {
        true
    }

    closed spec fn from_spec(text: &'a str) -> Self {
        StrSpan { text, start: 0 }
    }
}

impl<'a> From<StrSpan<'a>> for StringSpan {
    fn from(span: StrSpan<'a>) -> (r: Self)
        ensures
            r@ == span@,
    {
        span.to_string_span()
    }
}

impl<'a> vstd::std_specs::convert::FromSpecImpl<StrSpan<'a>> for StringSpan {
    open spec fn obeys_from_spec() -> bool {
        false
    }

    open spec fn from_spec(span: StrSpan<'a>) -> Self {
        arbitrary()
    }
}

} // verus!
