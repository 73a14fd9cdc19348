//! The flat binary form: an encoder, a decoder, and what each type writes
//! and reads.
//!
//! A count or a length is eight bytes, least significant first. A string is
//! its length in bytes and its UTF-8 bytes. A sequence is its count and its
//! items in order. An optional value is one byte, zero for none, followed by
//! the value if there is one.
use vstd::prelude::*;
use vstd::bytes::*;
use vstd::slice::*;
use vstd::string::*;
use vstd::utf8::*;
use std::path::PathBuf;

verus! {


/// Declares the type `std::io::Error`, of which nothing is known here.
#[verifier::external_type_specification]
#[verifier::external_body]
pub struct ExIoError(std::io::Error);

/// Declares the type `std::path::PathBuf`, of which only `path_text` is
/// known here.
#[verifier::external_type_specification]
#[verifier::external_body]
pub struct ExPathBuf(std::path::PathBuf);

/// The ways in which a byte stream can fail to decode.
pub enum DecodeFailure {
    /// The stream ended before the value did, or an offset points outside
    /// the source.
    UnexpectedEof,
    /// The bytes of a string are not UTF-8, or an offset points inside a
    /// character of the source.
    InvalidUtf8,
    /// A discriminant stands for no variant.
    InvalidEnumVariant,
    /// The stream does not start with a known header.
    InvalidHeader,
}

/// What decoding yields: a value and the number of bytes it took, or the
/// failure.
pub type Decoded<M> = Result<(M, nat), DecodeFailure>;

/// An error that occurred while decoding binary data.
#[derive(Debug)]
pub enum BinDecodeError {
    /// The data ended before the value did.
    UnexpectedEof,
    /// A string is not UTF-8.
    InvalidUtf8,
    /// A discriminant stands for no variant.
    InvalidEnumVariant,
    /// Reading or writing failed.
    Io(std::io::Error),
    /// Memory for a sequence could not be reserved.
    TryReserveError(std::collections::TryReserveError),
    /// The data does not start with a known header.
    InvalidHeader,
}

impl BinDecodeError {
    /// The decode failure that the error reports, or `None` for an error
    /// that the bytes alone do not bring about.
    pub open spec fn failure(self) -> Option<DecodeFailure> {
        match self {
            BinDecodeError::UnexpectedEof => Some(DecodeFailure::UnexpectedEof),
            BinDecodeError::InvalidUtf8 => Some(DecodeFailure::InvalidUtf8),
            BinDecodeError::InvalidEnumVariant => Some(DecodeFailure::InvalidEnumVariant),
            BinDecodeError::InvalidHeader => Some(DecodeFailure::InvalidHeader),
            BinDecodeError::Io(_) => None,
            BinDecodeError::TryReserveError(_) => None,
        }
    }
}

/// True when a read that should yield `expected` ended in `r`: with the
/// value and length expected, or with the failure expected. Only where the
/// read came to reserve memory for a sequence, which `reserving` says, it
/// may also have ended in the error of a reservation that was refused.
pub open spec fn read_agrees<M>(
    expected: Decoded<M>,
    r: Result<M, BinDecodeError>,
    used: int,
    reserving: bool,
) -> bool {
    match r {
        Ok(m) => expected == Ok::<(M, nat), DecodeFailure>((m, used as nat)) && used >= 0,
        Err(e) => match e.failure() {
            Some(f) => expected == Err::<(M, nat), DecodeFailure>(f),
            None => reserving && e is TryReserveError,
        },
    }
}

/// True when `buf` holds at `pos` a count that is not zero: whoever reads a
/// sequence there reserves memory for its items before it reads them.
pub open spec fn count_reserves(buf: Seq<u8>, pos: int) -> bool {
    count_decoding(buf, pos) matches Ok((count, _)) && count > 0
}

/// What a decoder stands for.
pub struct DecoderView {
    /// The bytes to decode.
    pub bytes: Seq<u8>,
    /// The number of bytes that were read.
    pub cursor: nat,
    /// The UTF-8 bytes of the source that spans are cut from, if the stream
    /// brought one.
    pub source: Option<Seq<u8>>,
}

impl DecoderView {
    /// The number of bytes that are left to read.
    pub open spec fn remaining(self) -> nat {
        bytes_left(self.bytes, self.cursor as int)
    }
}

/// The number of bytes that `buf` holds from `pos` on.
pub open spec fn bytes_left(buf: Seq<u8>, pos: int) -> nat {
    if pos <= buf.len() {
        (buf.len() - pos) as nat
    } else {
        0
    }
}

/// A decoder over a byte stream.
///
/// Decoding follows the nesting of the tree, so the depth of the call stack
/// grows with it: decode trusted data only.
pub struct Decoder<'src> {
    buf: &'src [u8],
    cursor: usize,
    src: Option<&'src str>,
}

impl<'src> View for Decoder<'src> {
    type V = DecoderView;

    closed spec fn view(&self) -> DecoderView {
        DecoderView {
            bytes: self.buf@,
            cursor: self.cursor as nat,
            source: match self.src {
                Some(s) => Some(s.spec_bytes()),
                None => None,
            },
        }
    }
}

impl<'src> Decoder<'src> {
    #[verifier::type_invariant]
    spec fn in_range(self) -> bool {
        self.cursor <= self.buf@.len()
    }

    /// A decoder at the start of `buf`, without a source.
    #[must_use]
    pub fn new(buf: &'src [u8]) -> (r: Self)
        ensures
            r@ == (DecoderView { bytes: buf@, cursor: 0, source: None }),
    {
        Decoder { buf, cursor: 0, src: None }
    }

    /// The number of bytes that were read.
    #[must_use]
    pub fn cursor(&self) -> (r: usize)
        ensures
            r == self@.cursor,
            r <= self@.bytes.len(),
    {
        proof {
            use_type_invariant(self);
        }
        self.cursor
    }

    /// Reads one byte.
    ///
    /// # Errors
    /// `UnexpectedEof` where no byte is left; the decoder then stays as it
    /// is.
    pub fn read(&mut self) -> (r: Result<u8, BinDecodeError>)
        ensures
            match r {
                Ok(b) => {
                    &&& old(self)@.cursor < old(self)@.bytes.len()
                    &&& b == old(self)@.bytes[old(self)@.cursor as int]
                    &&& final(self)@ == (DecoderView {
                        cursor: old(self)@.cursor + 1,
                        ..old(self)@
                    })
                },
                Err(e) => {
                    &&& e is UnexpectedEof
                    &&& old(self)@.cursor >= old(self)@.bytes.len()
                    &&& final(self)@ == old(self)@
                },
            },
    {
        proof {
            use_type_invariant(&*self);
        }
        if self.cursor >= self.buf.len() {
            return Err(BinDecodeError::UnexpectedEof);
        }
        let byte = self.buf[self.cursor];
        self.cursor += 1;
        Ok(byte)
    }

    /// Reads the next `len` bytes.
    ///
    /// # Errors
    /// `UnexpectedEof` where fewer bytes are left; the decoder then stays
    /// as it is.
    pub fn read_all(&mut self, len: usize) -> (r: Result<&'src [u8], BinDecodeError>)
        ensures
            match r {
                Ok(bytes) => {
                    &&& old(self)@.cursor + len <= old(self)@.bytes.len()
                    &&& bytes@ == old(self)@.bytes.subrange(
                        old(self)@.cursor as int,
                        old(self)@.cursor + len,
                    )
                    &&& final(self)@ == (DecoderView {
                        cursor: old(self)@.cursor + len as nat,
                        ..old(self)@
                    })
                },
                Err(e) => {
                    &&& e is UnexpectedEof
                    &&& old(self)@.cursor + len > old(self)@.bytes.len()
                    &&& final(self)@ == old(self)@
                },
            },
    {
        proof {
            use_type_invariant(&*self);
        }
        if len > self.buf.len() - self.cursor {
            return Err(BinDecodeError::UnexpectedEof);
        }
        let bytes = slice_subrange(self.buf, self.cursor, self.cursor + len);
        self.cursor += len;
        Ok(bytes)
    }

    /// Reads as many bytes as `buf` holds into it.
    ///
    /// # Errors
    /// `UnexpectedEof` where fewer bytes are left; the decoder and `buf`
    /// then stay as they are.
    pub fn read_exact(&mut self, buf: &mut [u8]) -> (r: Result<(), BinDecodeError>)
        ensures
            match r {
                Ok(_) => {
                    &&& old(self)@.cursor + old(buf)@.len() <= old(self)@.bytes.len()
                    &&& final(buf)@ == old(self)@.bytes.subrange(
                        old(self)@.cursor as int,
                        old(self)@.cursor + old(buf)@.len() as int,
                    )
                    &&& final(self)@ == (DecoderView {
                        cursor: old(self)@.cursor + old(buf)@.len(),
                        ..old(self)@
                    })
                },
                Err(e) => {
                    &&& e is UnexpectedEof
                    &&& old(self)@.cursor + old(buf)@.len() > old(self)@.bytes.len()
                    &&& final(self)@ == old(self)@
                    &&& final(buf)@ == old(buf)@
                },
            },
    {
        proof {
            use_type_invariant(&*self);
        }
        let len = buf.len();
        if len > self.buf.len() - self.cursor {
            return Err(BinDecodeError::UnexpectedEof);
        }
        let from = self.cursor;
        let source = self.buf;
        let total = source.len();
        let mut i: usize = 0;
        while i < len
            invariant
                i <= len,
                buf@.len() == len,
                source@.len() == total,
                from + len <= source@.len(),
                forall|j: int| 0 <= j < i ==> buf@[j] == source@[from + j],
            decreases len - i,
        {
            buf[i] = source[from + i];
            i += 1;
        }
        self.cursor += len;
        proof {
            assert(buf@ =~= source@.subrange(from as int, from + len));
        }
        Ok(())
    }

    /// From this call on, spans are read as an offset and a length into
    /// `source`, and no longer as bytes of their own.
    pub fn with_source(&mut self, source: &'src str)
        ensures
            final(self)@ == (DecoderView {
                source: Some(source.spec_bytes()),
                ..old(self)@
            }),
    {
        proof {
            use_type_invariant(&*self);
        }
        self.src = Some(source);
    }

    /// The source that spans are cut from, if the stream brought one.
    #[must_use]
    pub fn source(&self) -> (r: Option<&'src str>)
        ensures
            match r {
                Some(s) => self@.source == Some(s.spec_bytes()),
                None => self@.source is None,
            },
    {
        self.src
    }
}

/// What an encoder stands for.
pub struct EncoderView {
    /// The bytes written so far.
    pub bytes: Seq<u8>,
    /// Whether spans are written as an offset and a length into a source
    /// that the stream brings.
    pub source_header: bool,
}

impl EncoderView {
    /// The encoder after `more` was written.
    pub open spec fn with(self, more: Seq<u8>) -> EncoderView {
        EncoderView { bytes: self.bytes + more, ..self }
    }
}

/// An encoder that collects a byte stream.
///
/// Encoding follows the nesting of the tree, so the depth of the call stack
/// grows with it.
pub struct Encoder {
    buf: Vec<u8>,
    source_header_flag: bool,
}

impl View for Encoder {
    type V = EncoderView;

    closed spec fn view(&self) -> EncoderView {
        EncoderView { bytes: self.buf@, source_header: self.source_header_flag }
    }
}

impl Default for Encoder {
    fn default() -> (r: Self)
        ensures
            r@ == (EncoderView { bytes: Seq::empty(), source_header: false }),
    {
        Self::new()
    }
}

impl Encoder {
    /// An encoder without bytes, which writes spans as bytes of their own.
    #[must_use]
    pub fn new() -> (r: Self)
        ensures
            r@ == (EncoderView { bytes: Seq::empty(), source_header: false }),
    {
        Encoder { buf: Vec::new(), source_header_flag: false }
    }

    /// From this call on, spans are written as an offset and a length into
    /// the source.
    pub fn with_source_header(&mut self)
        ensures
            final(self)@ == (EncoderView { source_header: true, ..old(self)@ }),
    {
        self.source_header_flag = true;
    }

    /// Whether spans are written as an offset and a length into the source.
    #[must_use]
    pub fn has_source_header(&self) -> (r: bool)
        ensures
            r == self@.source_header,
    {
        self.source_header_flag
    }

    /// The number of bytes written so far.
    #[must_use]
    pub fn len(&self) -> (r: usize)
        ensures
            r == self@.bytes.len(),
    {
        self.buf.len()
    }

    /// Whether no byte was written so far.
    #[must_use]
    pub fn is_empty(&self) -> (r: bool)
        ensures
            r == (self@.bytes.len() == 0),
    {
        self.buf.len() == 0
    }

    /// The bytes written.
    #[must_use]
    pub fn into_inner(self) -> (r: Vec<u8>)
        ensures
            r@ == self@.bytes,
    {
        self.buf
    }

    /// Writes `bytes` behind those written so far. This never fails.
    pub fn write_all(&mut self, bytes: &[u8]) -> (r: std::io::Result<()>)
        ensures
            r is Ok,
            final(self)@ == old(self)@.with(bytes@),
    {
        self.buf.extend_from_slice(bytes);
        proof {
            assert(self.buf@ =~= old(self).buf@ + bytes@);
        }
        Ok(())
    }

    /// Writes one byte behind those written so far.
    pub fn write_byte(&mut self, byte: u8)
        ensures
            final(self)@ == old(self)@.with(seq![byte]),
    {
        self.buf.push(byte);
        proof {
            assert(self.buf@ =~= old(self).buf@ + seq![byte]);
        }
    }
}

/// A type with a binary form.
///
/// `encoding` says which bytes stand for a value and `decoding` which value
/// a run of bytes stands for; `write` and `read` do as they say.
pub trait ToBinHandler<'src>: Sized {
    /// What a value of the type stands for.
    type Model;

    /// True when a read of the bytes of `buf` from `pos` on comes to
    /// reserve memory for a sequence that is not empty, before it fails or
    /// ends. Only then can the read end in an error that the bytes do not
    /// decide.
    spec fn reserving(buf: Seq<u8>, pos: int, src: Option<Seq<u8>>) -> bool;

    /// What this value stands for.
    spec fn model(&self) -> Self::Model;

    /// The bytes that stand for `m`. With `header`, spans are written as an
    /// offset and a length into the source.
    spec fn encoding(m: Self::Model, header: bool) -> Seq<u8>;

    /// The value that the bytes of `buf` from `pos` on stand for, with the
    /// number of bytes it takes. With a source, spans are read as an offset
    /// and a length into it.
    spec fn decoding(buf: Seq<u8>, pos: int, src: Option<Seq<u8>>) -> Decoded<Self::Model>;

    /// Writes the value to the encoder. This never fails.
    fn write(&self, encoder: &mut Encoder) -> (r: std::io::Result<()>)
        ensures
            r is Ok,
            final(encoder)@ == old(encoder)@.with(
                Self::encoding(self.model(), old(encoder)@.source_header),
            ),
    ;

    /// Reads a value from the decoder.
    ///
    /// # Errors
    /// The failure that `decoding` names; or, where `reserving` holds, the
    /// error of a reservation that was refused.
    fn read(decoder: &mut Decoder<'src>) -> (r: Result<Self, BinDecodeError>)
        ensures
            final(decoder)@.bytes == old(decoder)@.bytes,
            final(decoder)@.source == old(decoder)@.source,
            read_agrees(
                Self::decoding(
                    old(decoder)@.bytes,
                    old(decoder)@.cursor as int,
                    old(decoder)@.source,
                ),
                match r {
                    Ok(v) => Ok(v.model()),
                    Err(e) => Err(e),
                },
                final(decoder)@.cursor - old(decoder)@.cursor,
                Self::reserving(
                    old(decoder)@.bytes,
                    old(decoder)@.cursor as int,
                    old(decoder)@.source,
                ),
            ),
    ;
}

/// The byte that `buf` holds at `pos`.
pub open spec fn byte_decoding(buf: Seq<u8>, pos: int) -> Decoded<u8> {
    if 0 <= pos < buf.len() {
        Ok((buf[pos], 1))
    } else {
        Err(DecodeFailure::UnexpectedEof)
    }
}

/// The bytes that stand for a count: eight bytes, least significant first.
pub open spec fn count_encoding(n: usize) -> Seq<u8> {
    spec_u64_to_le_bytes(n as u64)
}

/// The count that `buf` holds at `pos`.
pub open spec fn count_decoding(buf: Seq<u8>, pos: int) -> Decoded<usize> {
    if pos < 0 || pos + 8 > buf.len() {
        Err(DecodeFailure::UnexpectedEof)
    } else {
        let v = spec_u64_from_le_bytes(buf.subrange(pos, pos + 8));
        if v > usize::MAX {
            Err(DecodeFailure::UnexpectedEof)
        } else {
            Ok((v as usize, 8))
        }
    }
}

/// The bytes that stand for a text: the count of its UTF-8 bytes and the
/// bytes.
pub open spec fn text_encoding(text: Seq<char>) -> Seq<u8> {
    count_encoding(encode_utf8(text).len() as usize) + encode_utf8(text)
}

/// The text that `buf` holds at `pos`.
pub open spec fn text_decoding(buf: Seq<u8>, pos: int) -> Decoded<Seq<char>> {
    match count_decoding(buf, pos) {
        Err(e) => Err(e),
        Ok((len, _)) => {
            if pos + 8 + len > buf.len() {
                Err(DecodeFailure::UnexpectedEof)
            } else {
                let bytes = buf.subrange(pos + 8, pos + 8 + len);
                if valid_utf8(bytes) {
                    Ok((decode_utf8(bytes), (8 + len) as nat))
                } else {
                    Err(DecodeFailure::InvalidUtf8)
                }
            }
        },
    }
}

/// Calls `core::str::from_utf8`, which checks that the bytes are UTF-8 and
/// hands them back as text. Assumed: it accepts exactly the byte sequences
/// that are valid UTF-8, and the text has those bytes.
#[verifier::external_body]
pub(crate) fn text_of<'a>(bytes: &'a [u8]) -> (r: Option<&'a str>)
    ensures
        r is Some <==> valid_utf8(bytes@),
        r matches Some(s) ==> s.spec_bytes() == bytes@,
{
    core::str::from_utf8(bytes).ok()
}

impl<'src> ToBinHandler<'src> for bool {
    type Model = bool;

    open spec fn reserving(buf: Seq<u8>, pos: int, src: Option<Seq<u8>>) -> bool {
        false
    }

    open spec fn model(&self) -> bool {
        *self
    }

    open spec fn encoding(m: bool, header: bool) -> Seq<u8> {
        if m {
            seq![1u8]
        } else {
            seq![0u8]
        }
    }

    open spec fn decoding(buf: Seq<u8>, pos: int, src: Option<Seq<u8>>) -> Decoded<bool> {
        match byte_decoding(buf, pos) {
            Ok((b, used)) => Ok((b != 0, used)),
            Err(e) => Err(e),
        }
    }

    fn write(&self, encoder: &mut Encoder) -> (r: std::io::Result<()>) {
        encoder.write_byte(if *self { 1 } else { 0 });
        Ok(())
    }

    fn read(decoder: &mut Decoder<'src>) -> (r: Result<Self, BinDecodeError>) {
        let b = decoder.read()?;
        Ok(b != 0)
    }
}

impl<'src> ToBinHandler<'src> for u8 {
    type Model = u8;

    open spec fn reserving(buf: Seq<u8>, pos: int, src: Option<Seq<u8>>) -> bool {
        false
    }

    open spec fn model(&self) -> u8 {
        *self
    }

    open spec fn encoding(m: u8, header: bool) -> Seq<u8> {
        seq![m]
    }

    open spec fn decoding(buf: Seq<u8>, pos: int, src: Option<Seq<u8>>) -> Decoded<u8> {
        byte_decoding(buf, pos)
    }

    fn write(&self, encoder: &mut Encoder) -> (r: std::io::Result<()>) {
        encoder.write_byte(*self);
        Ok(())
    }

    fn read(decoder: &mut Decoder<'src>) -> (r: Result<Self, BinDecodeError>) {
        decoder.read()
    }
}

impl<'src> ToBinHandler<'src> for usize {
    type Model = usize;

    open spec fn reserving(buf: Seq<u8>, pos: int, src: Option<Seq<u8>>) -> bool {
        false
    }

    open spec fn model(&self) -> usize {
        *self
    }

    open spec fn encoding(m: usize, header: bool) -> Seq<u8> {
        count_encoding(m)
    }

    open spec fn decoding(buf: Seq<u8>, pos: int, src: Option<Seq<u8>>) -> Decoded<usize> {
        count_decoding(buf, pos)
    }

    fn write(&self, encoder: &mut Encoder) -> (r: std::io::Result<()>) {
        let bytes = u64_to_le_bytes(*self as u64);
        encoder.write_all(bytes.as_slice())
    }

    fn read(decoder: &mut Decoder<'src>) -> (r: Result<Self, BinDecodeError>) {
        let bytes = decoder.read_all(8)?;
        let v = u64_from_le_bytes(bytes);
        if v > usize::MAX as u64 {
            return Err(BinDecodeError::UnexpectedEof);
        }
        Ok(v as usize)
    }
}

impl<'src> ToBinHandler<'src> for &'src str {
    type Model = Seq<char>;

    open spec fn reserving(buf: Seq<u8>, pos: int, src: Option<Seq<u8>>) -> bool {
        false
    }

    open spec fn model(&self) -> Seq<char> {
        self@
    }

    open spec fn encoding(m: Seq<char>, header: bool) -> Seq<u8> {
        text_encoding(m)
    }

    open spec fn decoding(buf: Seq<u8>, pos: int, src: Option<Seq<u8>>) -> Decoded<Seq<char>> {
        text_decoding(buf, pos)
    }

    fn write(&self, encoder: &mut Encoder) -> (r: std::io::Result<()>) {
        let bytes = self.as_bytes();
        let _ = bytes.len().write(encoder);
        let r = encoder.write_all(bytes);
        proof {
            assert(encoder@.bytes =~= old(encoder)@.bytes + text_encoding(self@));
        }
        r
    }

    fn read(decoder: &mut Decoder<'src>) -> (r: Result<Self, BinDecodeError>) {
        let len = usize::read(decoder)?;
        let bytes = decoder.read_all(len)?;
        match text_of(bytes) {
            Some(s) => {
                proof {
                    encode_utf8_decode_utf8(s@);
                }
                Ok(s)
            },
            None => Err(BinDecodeError::InvalidUtf8),
        }
    }
}

impl<'src> ToBinHandler<'src> for String {
    type Model = Seq<char>;

    open spec fn reserving(buf: Seq<u8>, pos: int, src: Option<Seq<u8>>) -> bool {
        false
    }

    open spec fn model(&self) -> Seq<char> {
        self@
    }

    open spec fn encoding(m: Seq<char>, header: bool) -> Seq<u8> {
        text_encoding(m)
    }

    open spec fn decoding(buf: Seq<u8>, pos: int, src: Option<Seq<u8>>) -> Decoded<Seq<char>> {
        text_decoding(buf, pos)
    }

    fn write(&self, encoder: &mut Encoder) -> (r: std::io::Result<()>) {
        let text: &str = self.as_str();
        write_text(text, encoder);
        Ok(())
    }

    fn read(decoder: &mut Decoder<'src>) -> (r: Result<Self, BinDecodeError>) {
        match <&'src str>::read(decoder) {
            Ok(s) => Ok(s.to_owned()),
            Err(e) => Err(e),
        }
    }
}

/// Writes a text as the count of its UTF-8 bytes and the bytes.
pub fn write_text(text: &str, encoder: &mut Encoder)
    ensures
        final(encoder)@ == old(encoder)@.with(text_encoding(text@)),
{
    let bytes = text.as_bytes();
    let _ = bytes.len().write(encoder);
    let _ = encoder.write_all(bytes);
    proof {
        assert(encoder@.bytes =~= old(encoder)@.bytes + text_encoding(text@));
    }
}

/// The text of a path, with what is not Unicode in it replaced: what
/// `Path::to_string_lossy` of the standard library returns.
pub uninterp spec fn path_text(path: PathBuf) -> Seq<char>;

/// Calls `Path::to_string_lossy` of the standard library. Assumed: the
/// result is a function of the path alone, named `path_text`.
#[verifier::external_body]
pub(crate) fn path_lossy(path: &PathBuf) -> (r: String)
    ensures
        r@ == path_text(*path),
{
    path.to_string_lossy().into_owned()
}

/// Calls `PathBuf::from` of the standard library on a string. Assumed: the
/// text of the path is the string it was made of.
#[verifier::external_body]
fn path_from(text: String) -> (r: PathBuf)
    ensures
        path_text(r) == text@,
{
    PathBuf::from(text)
}

impl<'src> ToBinHandler<'src> for PathBuf {
    type Model = Seq<char>;

    open spec fn reserving(buf: Seq<u8>, pos: int, src: Option<Seq<u8>>) -> bool {
        false
    }

    open spec fn model(&self) -> Seq<char> {
        path_text(*self)
    }

    open spec fn encoding(m: Seq<char>, header: bool) -> Seq<u8> {
        text_encoding(m)
    }

    open spec fn decoding(buf: Seq<u8>, pos: int, src: Option<Seq<u8>>) -> Decoded<Seq<char>> {
        text_decoding(buf, pos)
    }

    fn write(&self, encoder: &mut Encoder) -> (r: std::io::Result<()>) {
        let text = path_lossy(self);
        write_text(text.as_str(), encoder);
        Ok(())
    }

    fn read(decoder: &mut Decoder<'src>) -> (r: Result<Self, BinDecodeError>) {
        match String::read(decoder) {
            Ok(s) => Ok(path_from(s)),
            Err(e) => Err(e),
        }
    }
}

/// The bytes that stand for the items of a sequence, one behind the other.
pub open spec fn items_encoding<'src, T: ToBinHandler<'src>>(
    items: Seq<T::Model>,
    header: bool,
) -> Seq<u8>
    decreases items.len(),
{
    if items.len() == 0 {
        Seq::empty()
    } else {
        items_encoding::<T>(items.drop_last(), header) + T::encoding(items.last(), header)
    }
}

/// The `count` items that `buf` holds from `pos` on, one behind the other.
pub open spec fn items_decoding<'src, T: ToBinHandler<'src>>(
    buf: Seq<u8>,
    pos: int,
    count: nat,
    src: Option<Seq<u8>>,
) -> Decoded<Seq<T::Model>>
    decreases count,
{
    if count == 0 {
        Ok((Seq::empty(), 0))
    } else {
        match items_decoding::<T>(buf, pos, (count - 1) as nat, src) {
            Err(e) => Err(e),
            Ok((items, used)) => match T::decoding(buf, pos + used, src) {
                Err(e) => Err(e),
                Ok((m, more)) => Ok((items.push(m), used + more)),
            },
        }
    }
}

/// Where the first items fail to decode, so do more of them, in the same
/// way.
pub proof fn lemma_items_failure_stays<'src, T: ToBinHandler<'src>>(
    buf: Seq<u8>,
    pos: int,
    few: nat,
    many: nat,
    src: Option<Seq<u8>>,
)
    requires
        few <= many,
        items_decoding::<T>(buf, pos, few, src) is Err,
    ensures
        items_decoding::<T>(buf, pos, many, src) == items_decoding::<T>(buf, pos, few, src),
    decreases many,
{
    if few < many {
        lemma_items_failure_stays::<T>(buf, pos, few, (many - 1) as nat, src);
    }
}

impl<'src, T: ToBinHandler<'src>> ToBinHandler<'src> for Vec<T> {
    type Model = Seq<T::Model>;

    open spec fn reserving(buf: Seq<u8>, pos: int, src: Option<Seq<u8>>) -> bool {
        count_reserves(buf, pos)
    }

    open spec fn model(&self) -> Seq<T::Model> {
        Seq::new(self@.len(), |i: int| self@[i].model())
    }

    open spec fn encoding(m: Seq<T::Model>, header: bool) -> Seq<u8> {
        count_encoding(m.len() as usize) + items_encoding::<T>(m, header)
    }

    open spec fn decoding(buf: Seq<u8>, pos: int, src: Option<Seq<u8>>) -> Decoded<
        Seq<T::Model>,
    > {
        match count_decoding(buf, pos) {
            Err(e) => Err(e),
            Ok((count, _)) => match items_decoding::<T>(buf, pos + 8, count as nat, src) {
                Err(e) => Err(e),
                Ok((items, used)) => Ok((items, 8 + used)),
            },
        }
    }

    fn write(&self, encoder: &mut Encoder) -> (r: std::io::Result<()>) {
        let header = Ghost(encoder@.source_header);
        let _ = self.len().write(encoder);
        let mut i: usize = 0;
        while i < self.len()
            invariant
                i <= self@.len(),
                encoder@.source_header == header@,
                encoder@.bytes == old(encoder)@.bytes + count_encoding(self@.len() as usize)
                    + items_encoding::<T>(self.model().take(i as int), header@),
            decreases self@.len() - i,
        {
            let _ = self[i].write(encoder);
            proof {
                let done = self.model().take(i as int);
                let next = self.model().take(i + 1);
                assert(next.drop_last() =~= done);
                assert(next.last() == self@[i as int].model());
            }
            i += 1;
        }
        proof {
            assert(self.model().take(self@.len() as int) =~= self.model());
            assert(encoder@.bytes =~= old(encoder)@.bytes + Self::encoding(self.model(), header@));
        }
        Ok(())
    }

    fn read(decoder: &mut Decoder<'src>) -> (r: Result<Self, BinDecodeError>)
        ensures
            count_decoding(old(decoder)@.bytes, old(decoder)@.cursor as int) is Err ==> r matches Err(
                BinDecodeError::UnexpectedEof,
            ),
    {
        let ghost buf = decoder@.bytes;
        let ghost src = decoder@.source;
        let ghost start = decoder@.cursor as int;
        let len = usize::read(decoder)?;
        let mut vec: Vec<T> = Vec::new();
        if len > 0 {
            match vec.try_reserve(len) {
                Ok(()) => {},
                Err(e) => {
                    return Err(BinDecodeError::TryReserveError(e));
                },
            }
        }
        let mut i: usize = 0;
        proof {
            assert(vec.model() =~= Seq::empty());
        }
        while i < len
            invariant
                i <= len,
                buf == old(decoder)@.bytes,
                src == old(decoder)@.source,
                start == old(decoder)@.cursor,
                decoder@.bytes == buf,
                decoder@.source == src,
                count_decoding(buf, start) == Ok::<(usize, nat), DecodeFailure>((len, 8)),
                vec@.len() == i,
                items_decoding::<T>(buf, start + 8, i as nat, src) == Ok::<
                    (Seq<T::Model>, nat),
                    DecodeFailure,
                >((vec.model(), (decoder@.cursor - start - 8) as nat)),
                decoder@.cursor >= start + 8,
            decreases len - i,
        {
            let ghost before = vec.model();
            match T::read(decoder) {
                Ok(item) => {
                    vec.push(item);
                    proof {
                        assert(vec.model() =~= before.push(item.model()));
                    }
                },
                Err(e) => {
                    proof {
                        if e.failure() is Some {
                            lemma_items_failure_stays::<T>(
                                buf,
                                start + 8,
                                (i + 1) as nat,
                                len as nat,
                                src,
                            );
                        }
                    }
                    return Err(e);
                },
            }
            i += 1;
        }
        Ok(vec)
    }
}

impl<'src, T: ToBinHandler<'src>> ToBinHandler<'src> for Option<T> {
    type Model = Option<T::Model>;

    open spec fn reserving(buf: Seq<u8>, pos: int, src: Option<Seq<u8>>) -> bool {
        byte_decoding(buf, pos) matches Ok((flag, _)) && flag != 0 && T::reserving(
            buf,
            pos + 1,
            src,
        )
    }

    open spec fn model(&self) -> Option<T::Model> {
        match self {
            Some(v) => Some(v.model()),
            None => None,
        }
    }

    open spec fn encoding(m: Option<T::Model>, header: bool) -> Seq<u8> {
        match m {
            Some(v) => seq![1u8] + T::encoding(v, header),
            None => seq![0u8],
        }
    }

    open spec fn decoding(buf: Seq<u8>, pos: int, src: Option<Seq<u8>>) -> Decoded<
        Option<T::Model>,
    > {
        match byte_decoding(buf, pos) {
            Err(e) => Err(e),
            Ok((flag, _)) => if flag != 0 {
                match T::decoding(buf, pos + 1, src) {
                    Err(e) => Err(e),
                    Ok((v, used)) => Ok((Some(v), 1 + used)),
                }
            } else {
                Ok((None, 1))
            },
        }
    }

    fn write(&self, encoder: &mut Encoder) -> (r: std::io::Result<()>) {
        match self {
            Some(item) => {
                encoder.write_byte(1);
                let _ = item.write(encoder);
                proof {
                    assert(encoder@.bytes =~= old(encoder)@.bytes + Self::encoding(
                        self.model(),
                        old(encoder)@.source_header,
                    ));
                }
            },
            None => {
                encoder.write_byte(0);
            },
        }
        Ok(())
    }

    fn read(decoder: &mut Decoder<'src>) -> (r: Result<Self, BinDecodeError>) {
        let has_value = decoder.read()?;
        if has_value != 0 {
            match T::read(decoder) {
                Ok(value) => Ok(Some(value)),
                Err(e) => Err(e),
            }
        } else {
            Ok(None)
        }
    }
}

impl<'src, S: ToBinHandler<'src>, T: ToBinHandler<'src>> ToBinHandler<'src> for (S, T) {
    type Model = (S::Model, T::Model);

    open spec fn reserving(buf: Seq<u8>, pos: int, src: Option<Seq<u8>>) -> bool {
        S::reserving(buf, pos, src) || (S::decoding(buf, pos, src) matches Ok((_, used))
            && T::reserving(buf, pos + used, src))
    }

    open spec fn model(&self) -> (S::Model, T::Model) {
        (self.0.model(), self.1.model())
    }

    open spec fn encoding(m: (S::Model, T::Model), header: bool) -> Seq<u8> {
        S::encoding(m.0, header) + T::encoding(m.1, header)
    }

    open spec fn decoding(buf: Seq<u8>, pos: int, src: Option<Seq<u8>>) -> Decoded<
        (S::Model, T::Model),
    > {
        match S::decoding(buf, pos, src) {
            Err(e) => Err(e),
            Ok((first, used)) => match T::decoding(buf, pos + used, src) {
                Err(e) => Err(e),
                Ok((second, more)) => Ok(((first, second), used + more)),
            },
        }
    }

    fn write(&self, encoder: &mut Encoder) -> (r: std::io::Result<()>) {
        let _ = self.0.write(encoder);
        let _ = self.1.write(encoder);
        proof {
            assert(encoder@.bytes =~= old(encoder)@.bytes + Self::encoding(
                self.model(),
                old(encoder)@.source_header,
            ));
        }
        Ok(())
    }

    fn read(decoder: &mut Decoder<'src>) -> (r: Result<Self, BinDecodeError>) {
        let first = S::read(decoder)?;
        let second = T::read(decoder)?;
        Ok((first, second))
    }
}

} // verus!
