//! Errors of parsing and decoding, with the place where they occurred.
use vstd::prelude::*;
use vstd::string::*;
use vstd::utf8::*;
use std::path::PathBuf;
use crate::strspan::{position_of, SpanView, StrSpan, StringSpan};
use crate::to_bin::{path_lossy, path_text, BinDecodeError};
use crate::utf8::{lemma_ascii_is_boundary, slice_bytes, sliceable};

verus! {

/// Declares the type `xmlparser::Error`, the error of the tokenizer, of
/// which only `lexer_error_text` is known here.
#[verifier::external_type_specification]
#[verifier::external_body]
pub struct ExLexerError(xmlparser::Error);

/// The result of an operation that can fail with an `XmlError`.
pub type XmlResult<T> = std::result::Result<T, XmlError>;

/// How the tokenizer describes one of its errors: what the `Display` of
/// `xmlparser::Error` writes.
pub uninterp spec fn lexer_error_text(e: xmlparser::Error) -> Seq<char>;

/// Calls the `Display` of `xmlparser::Error`. Assumed: the text is a
/// function of the error alone, named `lexer_error_text`.
#[verifier::external_body]
fn lexer_error_message(e: &xmlparser::Error) -> (r: String)
    ensures
        r@ == lexer_error_text(*e),
{
    e.to_string()
}

/// Calls the `Display` of `std::io::Error`. Nothing is assumed of the text.
#[verifier::external_body]
fn io_error_message(e: &std::io::Error) -> (r: String) {
    e.to_string()
}

/// Calls the `Display` of `std::collections::TryReserveError`. Nothing is
/// assumed of the text.
#[verifier::external_body]
fn reserve_error_message(e: &std::collections::TryReserveError) -> (r: String) {
    e.to_string()
}

/// The digits of `n` in base ten, without leading zeros.
pub open spec fn decimal(n: nat) -> Seq<char>
    decreases n,
{
    let digit = seq!['0', '1', '2', '3', '4', '5', '6', '7', '8', '9'][(n % 10) as int];
    if n < 10 {
        seq![digit]
    } else {
        decimal(n / 10).push(digit)
    }
}

/// The digit of a number below ten.
fn digit_text(d: usize) -> (r: &'static str)
    requires
        d < 10,
    ensures
        r@ == seq![seq!['0', '1', '2', '3', '4', '5', '6', '7', '8', '9'][d as int]],
{
    proof {
        reveal_strlit("0");
        reveal_strlit("1");
        reveal_strlit("2");
        reveal_strlit("3");
        reveal_strlit("4");
        reveal_strlit("5");
        reveal_strlit("6");
        reveal_strlit("7");
        reveal_strlit("8");
        reveal_strlit("9");
    }
    let r = if d == 0 {
        "0"
    } else if d == 1 {
        "1"
    } else if d == 2 {
        "2"
    } else if d == 3 {
        "3"
    } else if d == 4 {
        "4"
    } else if d == 5 {
        "5"
    } else if d == 6 {
        "6"
    } else if d == 7 {
        "7"
    } else if d == 8 {
        "8"
    } else {
        "9"
    };
    proof {
        assert(r@ =~= seq![seq!['0', '1', '2', '3', '4', '5', '6', '7', '8', '9'][d as int]]);
    }
    r
}

/// Adds a number to the output in base ten.
pub fn push_decimal(out: &mut String, n: usize)
    ensures
        final(out)@ == old(out)@ + decimal(n as nat),
    decreases n,
{
    if n >= 10 {
        push_decimal(out, n / 10);
    }
    out.append(digit_text(n % 10));
    proof {
        assert(out@ =~= old(out)@ + decimal(n as nat));
    }
}

/// The number of bytes before the first line feed at or behind `from`, or
/// the length where there is none.
pub open spec fn line_end(bytes: Seq<u8>, from: int) -> int
    decreases bytes.len() - from,
{
    if from >= bytes.len() {
        bytes.len() as int
    } else if bytes[from] == 0x0Au8 {
        from
    } else {
        line_end(bytes, from + 1)
    }
}

/// The text before the first line feed.
pub open spec fn first_line_of(text: Seq<char>) -> Seq<char> {
    let bytes = encode_utf8(text);
    decode_utf8(bytes.subrange(0, line_end(bytes, 0)))
}

/// The text before the first line feed.
pub fn first_line(text: &str) -> (r: &str)
    ensures
        r@ == first_line_of(text@),
{
    let bytes = text.as_bytes();
    let mut i: usize = 0;
    while i < bytes.len() && bytes[i] != 0x0A
        invariant
            i <= bytes@.len(),
            bytes@ == text.spec_bytes(),
            0 <= i,
            line_end(bytes@, 0) == line_end(bytes@, i as int),
        decreases bytes@.len() - i,
    {
        i += 1;
    }
    proof {
        encode_utf8_valid_utf8(text@);
        is_char_boundary_start_end_of_seq(bytes@);
        if i < bytes@.len() {
            is_char_boundary_iff_not_is_continuation_byte(bytes@, i as int);
        }
        assert(sliceable(bytes@, 0, i as int));
    }
    let cut = slice_bytes(text, 0, i).unwrap();
    proof {
        encode_utf8_decode_utf8(cut@);
    }
    cut
}

impl BinDecodeError {
    /// What the error says, where the bytes decide it.
    pub open spec fn wording(self) -> Option<Seq<char>> {
        match self {
            BinDecodeError::UnexpectedEof => Some("End of file; expected more data"@),
            BinDecodeError::InvalidUtf8 => Some("Invalid UTF-8 string"@),
            BinDecodeError::InvalidEnumVariant => Some("Invalid enum variant"@),
            BinDecodeError::InvalidHeader => Some("Data did not have a valid header"@),
            BinDecodeError::Io(_) => None,
            BinDecodeError::TryReserveError(_) => None,
        }
    }

    /// The error in words.
    pub fn message(&self) -> (r: String)
        ensures
            match *self {
                BinDecodeError::Io(_) => "IO error: "@.is_prefix_of(r@),
                BinDecodeError::TryReserveError(_) => "Memory allocation error: "@.is_prefix_of(
                    r@,
                ),
                _ => Some(r@) == self.wording(),
            },
    {
        match self {
            BinDecodeError::UnexpectedEof => "End of file; expected more data".to_owned(),
            BinDecodeError::InvalidUtf8 => "Invalid UTF-8 string".to_owned(),
            BinDecodeError::InvalidEnumVariant => "Invalid enum variant".to_owned(),
            BinDecodeError::InvalidHeader => "Data did not have a valid header".to_owned(),
            BinDecodeError::Io(e) => {
                let mut out = "IO error: ".to_owned();
                let detail = io_error_message(e);
                out.append(detail.as_str());
                proof {
                    assert(out@.subrange(0, "IO error: "@.len() as int) =~= "IO error: "@);
                }
                out
            },
            BinDecodeError::TryReserveError(e) => {
                let mut out = "Memory allocation error: ".to_owned();
                let detail = reserve_error_message(e);
                out.append(detail.as_str());
                proof {
                    assert(out@.subrange(0, "Memory allocation error: "@.len() as int)
                        =~= "Memory allocation error: "@);
                }
                out
            },
        }
    }
}

/// What the kind of an error stands for.
pub enum ErrorKindView {
    /// Another error, in words.
    Custom(Seq<char>),
    /// The XML declaration does not stand first.
    DeclarationNotFirst,
    /// A tag was open where it had to be closed; this is its name.
    UnclosedTag(Seq<char>),
    /// The text ended too early.
    UnexpectedEof,
    /// The tokenizer found an error.
    Xml(xmlparser::Error),
    /// Reading or writing failed.
    Io(std::io::Error),
    /// The binary form could not be decoded.
    Decode(BinDecodeError),
}

/// The kind of an error that occurred while a document was parsed.
#[derive(Debug)]
pub enum XmlErrorKind {
    /// Another error, in words.
    Custom(String),
    /// The XML declaration does not stand first.
    DeclarationNotFirst,
    /// A tag was open where it had to be closed; this is its name.
    UnclosedTag(String),
    /// The text ended too early.
    UnexpectedEof,
    /// The tokenizer found an error.
    Xml(xmlparser::Error),
    /// Reading or writing failed.
    Io(std::io::Error),
    /// The binary form could not be decoded.
    Decode(BinDecodeError),
}

impl View for XmlErrorKind {
    type V = ErrorKindView;

    open spec fn view(&self) -> ErrorKindView {
        match self {
            XmlErrorKind::Custom(s) => ErrorKindView::Custom(s@),
            XmlErrorKind::DeclarationNotFirst => ErrorKindView::DeclarationNotFirst,
            XmlErrorKind::UnclosedTag(s) => ErrorKindView::UnclosedTag(s@),
            XmlErrorKind::UnexpectedEof => ErrorKindView::UnexpectedEof,
            XmlErrorKind::Xml(e) => ErrorKindView::Xml(*e),
            XmlErrorKind::Io(e) => ErrorKindView::Io(*e),
            XmlErrorKind::Decode(e) => ErrorKindView::Decode(*e),
        }
    }
}

impl ErrorKindView {
    /// What the kind says, where its text is known.
    pub open spec fn wording(self) -> Option<Seq<char>> {
        match self {
            ErrorKindView::Custom(s) => Some(s),
            ErrorKindView::DeclarationNotFirst => Some(
                "The <?xml> declaration must appear at the start of the document"@,
            ),
            ErrorKindView::UnclosedTag(s) => Some("Unclosed tag: "@ + s),
            ErrorKindView::UnexpectedEof => Some("End of file reached unexpectedly"@),
            ErrorKindView::Xml(e) => Some("XML parser error: "@ + lexer_error_text(e)),
            ErrorKindView::Io(_) => None,
            ErrorKindView::Decode(e) => match e.wording() {
                Some(w) => Some("Invalid bytecode: "@ + w),
                None => None,
            },
        }
    }
}

impl XmlErrorKind {
    /// The kind in words.
    pub fn message(&self) -> (r: String)
        ensures
            self@.wording() matches Some(w) ==> r@ == w,
            *self is Io ==> "IO error: "@.is_prefix_of(r@),
            *self is Decode ==> "Invalid bytecode: "@.is_prefix_of(r@),
    {
        match self {
            XmlErrorKind::Custom(s) => s.clone(),
            XmlErrorKind::DeclarationNotFirst => {
                "The <?xml> declaration must appear at the start of the document".to_owned()
            },
            XmlErrorKind::UnclosedTag(name) => {
                let mut out = "Unclosed tag: ".to_owned();
                out.append(name.as_str());
                out
            },
            XmlErrorKind::UnexpectedEof => "End of file reached unexpectedly".to_owned(),
            XmlErrorKind::Xml(e) => {
                let mut out = "XML parser error: ".to_owned();
                let detail = lexer_error_message(e);
                out.append(detail.as_str());
                out
            },
            XmlErrorKind::Io(e) => {
                let mut out = "IO error: ".to_owned();
                let detail = io_error_message(e);
                out.append(detail.as_str());
                proof {
                    assert(out@.subrange(0, "IO error: "@.len() as int) =~= "IO error: "@);
                }
                out
            },
            XmlErrorKind::Decode(e) => {
                let mut out = "Invalid bytecode: ".to_owned();
                let detail = e.message();
                out.append(detail.as_str());
                proof {
                    assert(out@.subrange(0, "Invalid bytecode: "@.len() as int)
                        =~= "Invalid bytecode: "@);
                }
                out
            },
        }
    }
}

/// What the context of an error stands for.
pub struct ContextView {
    /// The path of the file that was parsed, if it is known.
    pub path: Option<PathBuf>,
    /// The whole source.
    pub source: Seq<char>,
    /// The place of the error in the source.
    pub span: SpanView,
}

/// The context of an error: where in which source it occurred.
#[derive(Debug, Clone)]
pub struct ErrorContext {
    /// The path of the file that was parsed, if it is known.
    pub path: Option<PathBuf>,
    /// The whole source, from which row and column are counted.
    pub source: String,
    /// The place of the error in the source.
    pub span: StringSpan,
}

impl View for ErrorContext {
    type V = ContextView;

    open spec fn view(&self) -> ContextView {
        ContextView { path: self.path, source: self.source@, span: self.span@ }
    }
}

impl ContextView {
    /// Row and column of the error in the source, counted from one.
    pub open spec fn position(self) -> (usize, usize) {
        position_of(self.span.start as int, encode_utf8(self.source))
    }

    /// The line that names the place: `= At path:row:col` where the error
    /// has an offset, `= In path` where it has only a path, and nothing
    /// otherwise.
    pub open spec fn place(self) -> Seq<char> {
        let (row, col) = self.position();
        if self.span.start > 0 {
            "= At "@ + (match self.path {
                Some(p) => path_text(p) + ":"@,
                None => Seq::empty(),
            }) + decimal(row as nat) + ":"@ + decimal(col as nat) + "\n"@
        } else {
            match self.path {
                Some(p) => "= In "@ + path_text(p) + "\n"@,
                None => Seq::empty(),
            }
        }
    }

    /// The context as it is shown: the first line of the text at the error
    /// behind `| `, if it is not empty, and the line that names the place.
    pub open spec fn rendered(self) -> Seq<char> {
        let line = first_line_of(self.span.text);
        (if line.len() > 0 {
            "| "@ + line + "\n"@
        } else {
            Seq::empty()
        }) + self.place()
    }
}

impl ErrorContext {
    /// The context of an error at `span` in `source`.
    #[must_use]
    pub fn new(source: &str, span: StrSpan) -> (r: Self)
        ensures
            r@ == (ContextView { path: None, source: source@, span: span@ }),
    {
        ErrorContext { path: None, source: source.to_owned(), span: span.to_string_span() }
    }

    /// The context of an error at `span` in `source`, which was read from
    /// `path`.
    #[must_use]
    pub fn with_path(path: PathBuf, source: &str, span: StrSpan) -> (r: Self)
        ensures
            r@ == (ContextView { path: Some(path), source: source@, span: span@ }),
    {
        ErrorContext { path: Some(path), source: source.to_owned(), span: span.to_string_span() }
    }

    /// Row and column of the error in the source, counted from one.
    #[must_use]
    pub fn position(&self) -> (r: (usize, usize))
        ensures
            r == self@.position(),
    {
        self.span.position(self.source.as_str())
    }

    /// The context as it is shown to a reader.
    #[verifier::rlimit(100)]
    pub fn render(&self) -> (r: String)
        ensures
            r@ == self@.rendered(),
    {
        let line = first_line(self.span.as_str());
        let (row, col) = self.span.position(self.source.as_str());
        let mut out = String::new();
        if !line.is_empty() {
            out.append("| ");
            out.append(line);
            out.append("\n");
        }
        let ghost head = out@;
        if self.span.start() > 0 {
            out.append("= At ");
            match &self.path {
                Some(path) => {
                    let text = path_lossy(path);
                    out.append(text.as_str());
                    out.append(":");
                },
                None => {},
            }
            push_decimal(&mut out, row);
            out.append(":");
            push_decimal(&mut out, col);
            out.append("\n");
        } else {
            match &self.path {
                Some(path) => {
                    let text = path_lossy(path);
                    out.append("= In ");
                    out.append(text.as_str());
                    out.append("\n");
                },
                None => {},
            }
        }
        proof {
            assert(out@ =~= head + self@.place());
            assert(out@ =~= self@.rendered());
        }
        out
    }
}

/// What an error stands for.
pub struct ErrorView {
    /// Where the error occurred.
    pub context: ContextView,
    /// What went wrong.
    pub kind: ErrorKindView,
}

/// An error that occurred while a document was parsed.
#[derive(Debug)]
pub struct XmlError {
    /// Where the error occurred.
    pub context: Box<ErrorContext>,
    /// What went wrong.
    pub kind: XmlErrorKind,
}

impl View for XmlError {
    type V = ErrorView;

    open spec fn view(&self) -> ErrorView {
        ErrorView { context: (*self.context)@, kind: self.kind@ }
    }
}

/// A line of a text: the bytes from `from` up to the line feed at `at`,
/// without a carriage return that stands before the line feed.
pub open spec fn line_bytes(bytes: Seq<u8>, from: int, at: int) -> Seq<u8> {
    if from < at && bytes[at - 1] == 0x0Du8 {
        bytes.subrange(from, at - 1)
    } else {
        bytes.subrange(from, at)
    }
}

/// What is left to write of a text in UTF-8 whose lines are written each
/// behind `= ` and with a line feed at its end. The line that is being
/// read starts at `from`, and `at` is how far it was read. A line ends at
/// a line feed; a carriage return before it is no part of the line; what
/// stands behind the last line feed is a line if it is not empty.
pub open spec fn marked_from(bytes: Seq<u8>, from: int, at: int) -> Seq<char>
    decreases bytes.len() - at,
{
    if at >= bytes.len() {
        if from < bytes.len() {
            "= "@ + decode_utf8(bytes.subrange(from, bytes.len() as int)) + "\n"@
        } else {
            Seq::empty()
        }
    } else if bytes[at] == 0x0Au8 {
        "= "@ + decode_utf8(line_bytes(bytes, from, at)) + "\n"@ + marked_from(
            bytes,
            at + 1,
            at + 1,
        )
    } else {
        marked_from(bytes, from, at + 1)
    }
}

/// Each line of a text behind `= `, with a line feed at its end.
pub open spec fn marked(text: Seq<char>) -> Seq<char> {
    marked_from(encode_utf8(text), 0, 0)
}

/// Adds each line of a text to the output, behind `= ` and with a line
/// feed at its end.
pub fn mark_lines(out: &mut String, text: &str)
    ensures
        final(out)@ == old(out)@ + marked(text@),
{
    let bytes = text.as_bytes();
    let len = bytes.len();
    let mut from: usize = 0;
    let mut at: usize = 0;
    proof {
        encode_utf8_valid_utf8(text@);
        is_char_boundary_start_end_of_seq(bytes@);
    }
    while at < len
        invariant
            from <= at <= len,
            len == bytes@.len(),
            bytes@ == text.spec_bytes(),
            valid_utf8(bytes@),
            is_char_boundary(bytes@, from as int),
            is_char_boundary(bytes@, len as int),
            out@ + marked_from(bytes@, from as int, at as int) == old(out)@ + marked(text@),
        decreases len - at,
    {
        if bytes[at] == 0x0A {
            let cut = if from < at && bytes[at - 1] == 0x0D {
                at - 1
            } else {
                at
            };
            proof {
                lemma_ascii_is_boundary(bytes@, at as int);
                if cut < at {
                    lemma_ascii_is_boundary(bytes@, cut as int);
                }
            }
            let line = slice_bytes(text, from, cut).unwrap();
            let ghost before = out@;
            out.append("= ");
            out.append(line);
            out.append("\n");
            proof {
                encode_utf8_decode_utf8(line@);
                assert(line@ == decode_utf8(line_bytes(bytes@, from as int, at as int)));
                assert(before + marked_from(bytes@, from as int, at as int) =~= out@ + marked_from(
                    bytes@,
                    at + 1,
                    at + 1,
                ));
            }
            from = at + 1;
        }
        at += 1;
    }
    if from < len {
        let line = slice_bytes(text, from, len).unwrap();
        let ghost before = out@;
        out.append("= ");
        out.append(line);
        out.append("\n");
        proof {
            encode_utf8_decode_utf8(line@);
            assert(before + marked_from(bytes@, from as int, at as int) =~= out@);
        }
    }
}

impl XmlError {
    /// An error of a kind in a context.
    #[must_use]
    pub fn new(kind: XmlErrorKind, context: ErrorContext) -> (r: Self)
        ensures
            r@ == (ErrorView { context: context@, kind: kind@ }),
    {
        XmlError { context: Box::new(context), kind }
    }

    /// The same error, which occurred in the file at `path`.
    #[must_use]
    pub fn with_path(self, path: PathBuf) -> (r: Self)
        ensures
            r@ == (ErrorView {
                context: ContextView { path: Some(path), ..self@.context },
                kind: self@.kind,
            }),
    {
        let context = ErrorContext {
            path: Some(path),
            source: self.context.source.clone(),
            span: StringSpan::new(self.context.span.text.clone(), self.context.span.start),
        };
        XmlError { context: Box::new(context), kind: self.kind }
    }

    /// The error of a binary form that could not be decoded, without a
    /// place.
    pub fn from_decode(err: BinDecodeError) -> (r: Self)
        ensures
            r@ == (ErrorView {
                context: ContextView {
                    path: None,
                    source: Seq::empty(),
                    span: SpanView::empty(),
                },
                kind: ErrorKindView::Decode(err),
            }),
    {
        let source = "";
        proof {
            reveal_strlit("");
            assert(source@ =~= Seq::<char>::empty());
        }
        XmlError::new(XmlErrorKind::Decode(err), ErrorContext::new(source, StrSpan::empty()))
    }

    /// The error of a read or write that failed, without a place.
    pub fn from_io(err: std::io::Error) -> (r: Self)
        ensures
            r@ == (ErrorView {
                context: ContextView {
                    path: None,
                    source: Seq::empty(),
                    span: SpanView::empty(),
                },
                kind: ErrorKindView::Io(err),
            }),
    {
        let source = "";
        proof {
            reveal_strlit("");
            assert(source@ =~= Seq::<char>::empty());
        }
        XmlError::new(XmlErrorKind::Io(err), ErrorContext::new(source, StrSpan::empty()))
    }

    /// The error as it is shown to a reader: the context, and each line of
    /// what the kind says behind `= `.
    pub fn render(&self) -> (r: String)
        ensures
            self@.kind.wording() matches Some(w) ==> r@ == self@.context.rendered() + marked(w),
    {
        let mut out = self.context.render();
        let message = self.kind.message();
        mark_lines(&mut out, message.as_str());
        out
    }
}

} // verus!
