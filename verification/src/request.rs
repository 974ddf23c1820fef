//! The message and the decoders that produce it from a buffer.
use crate::buffer::{
    bounded_length, content, content_length, lemma_padding_is_no_content, measure_content, zero_padded,
    MessageBuffer, BUFFER_CAPACITY,
};
use crate::decode::DecodeError;
use crate::headers::{
    headers_text, is_scan_of, scan_buffer_spec, scan_headers_spec, HTTPHeaders, HeaderView,
};
use vstd::prelude::*;
use vstd::slice::slice_subrange;
use vstd::std_specs::cmp::{PartialEqSpec, PartialEqSpecImpl};
use vstd::utf8::{decode_utf8, valid_utf8};

verus! {

/// The number of lines before the headers of a request: its start line.
pub const REQUEST_SKIP_LINES: usize = 1;

/// A decoder of one part of a message, or of all of it.
pub trait HTTPParser {
    type Output;

    fn parse(&self) -> Self::Output;
}

/// The start line of a message. It is not parsed: decoding leaves it empty.
#[derive(Debug)]
pub struct HTTPUrl {
    pub url: String,
}

impl View for HTTPUrl {
    type V = Seq<char>;

    open spec fn view(&self) -> Seq<char> {
        self.url@
    }
}

impl PartialEq for HTTPUrl {
    fn eq(&self, other: &Self) -> (r: bool) {
        self.url == other.url
    }
}

impl PartialEqSpecImpl for HTTPUrl {
    open spec fn obeys_eq_spec() -> bool {
        true
    }

    open spec fn eq_spec(&self, other: &Self) -> bool {
        self@ == other@
    }
}

impl Eq for HTTPUrl {

}

/// The body of a message: the whole buffer that the message was decoded
/// from, headers and padding included.
#[derive(Debug)]
pub struct HTTPBody {
    pub body: MessageBuffer,
}

impl View for HTTPBody {
    type V = Seq<u8>;

    open spec fn view(&self) -> Seq<u8> {
        self.body@
    }
}

impl PartialEq for HTTPBody {
    fn eq(&self, other: &Self) -> (r: bool) {
        let mut i: usize = 0;
        while i < 4096
            invariant
                i <= 4096,
                forall|j: int| 0 <= j < i ==> self.body@[j] == other.body@[j],
            decreases 4096 - i,
        {
            if self.body[i] != other.body[i] {
                return false;
            }
            i += 1;
        }
        proof {
            assert(self.body@ =~= other.body@);
        }
        true
    }
}

impl PartialEqSpecImpl for HTTPBody {
    open spec fn obeys_eq_spec() -> bool {
        true
    }

    open spec fn eq_spec(&self, other: &Self) -> bool {
        self@ == other@
    }
}

impl Eq for HTTPBody {

}

/// What a message is: a start line, headers in order, and body bytes.
pub struct RequestView {
    pub start_line: Seq<char>,
    pub headers: Seq<HeaderView>,
    pub body: Seq<u8>,
}

/// A decoded message.
#[derive(Debug)]
pub struct HTTPRequest {
    pub url: HTTPUrl,
    pub headers: HTTPHeaders,
    pub body: HTTPBody,
}

impl View for HTTPRequest {
    type V = RequestView;

    open spec fn view(&self) -> RequestView {
        RequestView { start_line: self.url@, headers: self.headers@, body: self.body@ }
    }
}

/// What `Debug` formatting makes of a string: the string between double
/// quotes, with escapes for what would not show as itself.
pub uninterp spec fn quoted_text(text: Seq<char>) -> Seq<char>;

/// Formats a string with `{:?}`, that is by `<str as Debug>::fmt`.
///
/// Trusted, not proved: the result depends on the characters of `text`
/// alone. Nothing is claimed of what it holds.
#[verifier::external_body]
fn quoted(text: &str) -> (r: String)
    ensures
        r@ == quoted_text(text@),
{
    format!("{:?}", text)
}

/// The text form of a start line, as `Debug` would show the value.
pub open spec fn url_text(url: Seq<char>) -> Seq<char> {
    "HTTPUrl { url: "@ + quoted_text(url) + " }"@
}

/// The text form of a message: a title, the start line, the headers one per
/// line. The body is not shown.
pub open spec fn request_text(request: RequestView) -> Seq<char> {
    "HTTP response\n"@ + "\tUrl: "@ + url_text(request.start_line) + "\n"@ + "\tHeaders: \n"@
        + headers_text(request.headers) + "\n"@
}

impl HTTPUrl {
    /// The start line as text, for a log.
    pub fn to_text(&self) -> (text: String)
        ensures
            text@ == url_text(self@),
    {
        let mut text = String::new();
        text.append("HTTPUrl { url: ");
        text.append(quoted(self.url.as_str()).as_str());
        text.append(" }");
        text
    }
}

impl HTTPRequest {
    /// The message as text, for a log.
    pub fn to_text(&self) -> (text: String)
        ensures
            text@ == request_text(self@),
    {
        let mut text = String::new();
        text.append("HTTP response\n");
        text.append("\tUrl: ");
        text.append(self.url.to_text().as_str());
        text.append("\n");
        text.append("\tHeaders: \n");
        text.append(self.headers.to_text().as_str());
        text.append("\n");
        text
    }
}

/// Two messages are equal when their start lines, their headers, in order,
/// and the bytes of their bodies are.
impl PartialEq for HTTPRequest {
    fn eq(&self, other: &Self) -> (r: bool) {
        self.url == other.url && self.headers == other.headers && self.body == other.body
    }
}

impl PartialEqSpecImpl for HTTPRequest {
    open spec fn obeys_eq_spec() -> bool {
        true
    }

    open spec fn eq_spec(&self, other: &Self) -> bool {
        self@ == other@
    }
}

/// The message that a buffer decodes to, `len` bytes of it having been
/// read: an empty start line, the headers that follow the first line of
/// those bytes, and the whole buffer as the body, padding included. Only
/// the bytes that were read are looked at for headers: what follows them is
/// no content. Where those bytes are not well-formed UTF-8 the buffer
/// decodes to nothing.
pub open spec fn decode_request_spec(buffer: Seq<u8>, len: nat) -> Result<
    RequestView,
    DecodeError,
> {
    match scan_buffer_spec(content(buffer, len), REQUEST_SKIP_LINES as nat) {
        Ok(headers) => Ok(RequestView { start_line: Seq::empty(), headers, body: buffer }),
        Err(e) => Err(e),
    }
}

/// `r` is what decoding `buffer` gives, `len` bytes of it having been read:
/// its message, or why it has none.
pub open spec fn is_decoding_of(
    buffer: Seq<u8>,
    len: nat,
    r: Result<HTTPRequest, DecodeError>,
) -> bool {
    match r {
        Ok(request) => decode_request_spec(buffer, len) == Ok::<RequestView, DecodeError>(
            request@,
        ),
        Err(e) => decode_request_spec(buffer, len) == Err::<RequestView, DecodeError>(e),
    }
}

/// Extracts the headers of a request from a buffer.
pub struct HTTPHeaderParser {
    buf: MessageBuffer,
    len: usize,
}

impl View for HTTPHeaderParser {
    type V = Seq<u8>;

    closed spec fn view(&self) -> Seq<u8> {
        self.buf@
    }
}

impl HTTPHeaderParser {
    /// The number of bytes of the buffer that were read.
    pub closed spec fn length(&self) -> nat {
        self.len as nat
    }

    #[verifier::type_invariant]
    spec fn well_formed(&self) -> bool {
        self.len <= BUFFER_CAPACITY
    }

    /// A parser of the headers in a copy of `buf`. The bytes that were read
    /// are taken to be all up to the last one that is not zero.
    pub fn new(buf: &MessageBuffer) -> (parser: Self)
        ensures
            parser@ == buf@,
            parser.length() == content_length(buf@),
    {
        HTTPHeaderParser { buf: *buf, len: measure_content(buf) }
    }

    /// A parser of the headers in a copy of `buf`, of which `len` bytes
    /// were read.
    pub fn with_length(buf: &MessageBuffer, len: usize) -> (parser: Self)
        ensures
            parser@ == buf@,
            parser.length() == bounded_length(len as nat),
    {
        HTTPHeaderParser {
            buf: *buf,
            len: if len <= BUFFER_CAPACITY {
                len
            } else {
                BUFFER_CAPACITY
            },
        }
    }
}

impl HTTPParser for HTTPHeaderParser {
    type Output = Result<HTTPHeaders, DecodeError>;

    /// The headers after the first line of the bytes that were read, up to
    /// the first empty line; or the error, if those bytes are not text.
    fn parse(&self) -> (r: Self::Output)
        ensures
            is_scan_of(content(self@, self.length()), REQUEST_SKIP_LINES as nat, r),
    {
        proof {
            use_type_invariant(self);
        }
        let read = slice_subrange(self.buf.as_slice(), 0, self.len);
        HTTPHeaders::scan_buffer(read, REQUEST_SKIP_LINES)
    }
}

/// Extracts the body of a request from a buffer.
pub struct HTTPBodyParser {
    buf: MessageBuffer,
}

impl View for HTTPBodyParser {
    type V = Seq<u8>;

    closed spec fn view(&self) -> Seq<u8> {
        self.buf@
    }
}

impl HTTPBodyParser {
    /// A parser of the body in a copy of `buf`.
    pub fn new(buf: &MessageBuffer) -> (parser: Self)
        ensures
            parser@ == buf@,
    {
        HTTPBodyParser { buf: *buf }
    }
}

impl HTTPParser for HTTPBodyParser {
    type Output = HTTPBody;

    /// The body: every byte of the buffer, nothing cut off or left out.
    fn parse(&self) -> (body: Self::Output)
        ensures
            body@ == self@,
    {
        HTTPBody { body: self.buf }
    }
}

/// Decodes a request from a buffer.
pub struct HTTPRequestParser {
    buf: MessageBuffer,
    len: usize,
}

impl View for HTTPRequestParser {
    type V = Seq<u8>;

    closed spec fn view(&self) -> Seq<u8> {
        self.buf@
    }
}

impl HTTPRequestParser {
    /// The number of bytes of the buffer that were read.
    pub closed spec fn length(&self) -> nat {
        self.len as nat
    }

    #[verifier::type_invariant]
    spec fn well_formed(&self) -> bool {
        self.len <= BUFFER_CAPACITY
    }

    /// A decoder of the request in a copy of `buf`. The bytes that were read
    /// are taken to be all up to the last one that is not zero.
    pub fn new(buf: &MessageBuffer) -> (parser: Self)
        ensures
            parser@ == buf@,
            parser.length() == content_length(buf@),
    {
        HTTPRequestParser { buf: *buf, len: measure_content(buf) }
    }

    /// A decoder of the request in a copy of `buf`, of which `len` bytes
    /// were read.
    pub fn with_length(buf: &MessageBuffer, len: usize) -> (parser: Self)
        ensures
            parser@ == buf@,
            parser.length() == bounded_length(len as nat),
    {
        HTTPRequestParser {
            buf: *buf,
            len: if len <= BUFFER_CAPACITY {
                len
            } else {
                BUFFER_CAPACITY
            },
        }
    }
}

impl HTTPParser for HTTPRequestParser {
    type Output = Result<HTTPRequest, DecodeError>;

    /// The message in the buffer. It fails only where the header scan does:
    /// where the bytes that were read are not well-formed UTF-8.
    fn parse(&self) -> (r: Self::Output)
        ensures
            is_decoding_of(self@, self.length(), r),
    {
        proof {
            use_type_invariant(self);
        }
        match HTTPHeaderParser::with_length(&self.buf, self.len).parse() {
            Ok(headers) => Ok(
                HTTPRequest {
                    url: HTTPUrl { url: String::new() },
                    headers,
                    body: HTTPBodyParser::new(&self.buf).parse(),
                },
            ),
            Err(e) => Err(e),
        }
    }
}

/// Decoding is a function of the buffer and of how much of it was read. Two
/// decodings of one buffer both succeed or both fail; where they succeed the
/// two messages are equal, by `==` as by their parts: the same start line,
/// the same headers in the same order, the same body bytes. Where they fail
/// the errors are the same.
pub proof fn lemma_decoding_twice(
    buffer: Seq<u8>,
    len: nat,
    first: Result<HTTPRequest, DecodeError>,
    second: Result<HTTPRequest, DecodeError>,
)
    requires
        is_decoding_of(buffer, len, first),
        is_decoding_of(buffer, len, second),
    ensures
        match (first, second) {
            (Ok(a), Ok(b)) => {
                &&& PartialEqSpec::eq_spec(&a, &b)
                &&& a@.start_line == b@.start_line
                &&& a@.headers == b@.headers
                &&& a@.body == b@.body
            },
            (Err(a), Err(b)) => a == b,
            _ => false,
        },
{
}

/// What a decoded message holds: no start line, the headers that scanning
/// the bytes that were read gives, past their first line, and every byte of
/// the buffer as its body. A buffer is decoded exactly if the bytes that
/// were read are well-formed UTF-8.
pub proof fn lemma_decoded_parts(buffer: Seq<u8>, len: nat)
    ensures
        decode_request_spec(buffer, len) is Ok <==> valid_utf8(content(buffer, len)),
        decode_request_spec(buffer, len) matches Ok(request) ==> {
            &&& request.start_line.len() == 0
            &&& request.headers == scan_headers_spec(
                decode_utf8(content(buffer, len)),
                REQUEST_SKIP_LINES as nat,
            )
            &&& request.body == buffer
        },
{
}

/// The padding of a buffer gives no header and is part of none. Take bytes
/// that fit in a buffer and pad them: decoding the buffer gives the headers
/// of those bytes alone, whether their number was kept or, where they do not
/// end in a zero, is taken from the buffer. The body is the padded buffer.
pub proof fn lemma_padding_is_not_scanned(data: Seq<u8>)
    requires
        data.len() <= BUFFER_CAPACITY,
    ensures
        ({
            let buffer = zero_padded(data, data.len());
            let decoded = match scan_buffer_spec(data, REQUEST_SKIP_LINES as nat) {
                Ok(headers) => Ok::<RequestView, DecodeError>(
                    RequestView { start_line: Seq::empty(), headers, body: buffer },
                ),
                Err(e) => Err::<RequestView, DecodeError>(e),
            };
            &&& decode_request_spec(buffer, data.len()) == decoded
            &&& data.len() == 0 || data.last() != 0 ==> decode_request_spec(
                buffer,
                content_length(buffer),
            ) == decoded
        }),
{
    lemma_padding_is_no_content(data);
}

} // verus!
