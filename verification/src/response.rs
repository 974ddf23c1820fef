//! The decoder of a response: the text of a payload and its headers.
use crate::decode::{decode_text, decode_text_spec, DecodeError};
use crate::headers::{scan_headers_spec, HTTPHeaders, HeaderView};
use std::rc::Rc;
use vstd::prelude::*;

verus! {

/// The number of lines before the headers of a response.
pub const RESPONSE_SKIP_LINES: usize = 2;

/// A response payload together with what was decoded from it.
pub struct HTTPResponseParser {
    payload: Box<[u8]>,
    payload_text: Rc<String>,
    headers: Rc<HTTPHeaders>,
}

impl HTTPResponseParser {
    /// The bytes that were decoded.
    pub closed spec fn payload(&self) -> Seq<u8> {
        self.payload@
    }

    /// The text of the payload.
    pub closed spec fn text(&self) -> Seq<char> {
        self.payload_text@
    }

    /// The headers of the payload.
    pub closed spec fn headers(&self) -> Seq<HeaderView> {
        self.headers@
    }

    #[verifier::type_invariant]
    spec fn well_formed(&self) -> bool {
        &&& decode_text_spec(self.payload()) == Ok::<Seq<char>, DecodeError>(self.text())
        &&& self.headers() == scan_headers_spec(self.text(), RESPONSE_SKIP_LINES as nat)
    }

    /// Decodes `raw_response`: reads it as UTF-8 text, strictly, and scans
    /// the text for the headers that follow its first two lines. A payload
    /// that is not well-formed UTF-8 is rejected.
    pub fn new(raw_response: Box<[u8]>) -> (r: Result<Self, DecodeError>)
        ensures
            match r {
                Ok(parser) => {
                    &&& parser.payload() == raw_response@
                    &&& decode_text_spec(raw_response@) == Ok::<Seq<char>, DecodeError>(
                        parser.text(),
                    )
                    &&& parser.headers() == scan_headers_spec(
                        parser.text(),
                        RESPONSE_SKIP_LINES as nat,
                    )
                },
                Err(e) => decode_text_spec(raw_response@) == Err::<Seq<char>, DecodeError>(e),
            },
    {
        match decode_text(&raw_response) {
            Ok(text) => {
                let text_response = Rc::new(text);
                let headers = HTTPHeaders::from_raw(text_response.clone());
                Ok(
                    HTTPResponseParser {
                        payload: raw_response,
                        payload_text: text_response,
                        headers: Rc::new(headers),
                    },
                )
            },
            Err(e) => Err(e),
        }
    }

    /// The text of the payload.
    pub fn get_text(&self) -> (text: &str)
        ensures
            text@ == self.text(),
            decode_text_spec(self.payload()) == Ok::<Seq<char>, DecodeError>(text@),
    {
        proof {
            use_type_invariant(self);
        }
        self.payload_text.as_str()
    }

    /// The headers of the payload: those after the first two lines of its
    /// text, up to the first empty line.
    pub fn get_headers(&self) -> (headers: Rc<HTTPHeaders>)
        ensures
            headers@ == self.headers(),
            headers@ == scan_headers_spec(self.text(), RESPONSE_SKIP_LINES as nat),
    {
        proof {
            use_type_invariant(self);
        }
        self.headers.clone()
    }
}

} // verus!
