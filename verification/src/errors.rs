//! Error taxonomy for the codec and the dispatch engine.
//!
//! Every failure of the wire codec is a `NinoverseHttpHandlerError`; every
//! failure of a dispatch action is a `NinoverseApiError`.  Both are terminal
//! for the connection that raised them: the connection entry point reports
//! them and closes that one connection.

use vstd::prelude::*;

verus! {

/// The parsing phase in which the codec gave up on a request.
#[derive(Clone, Copy, Debug, PartialEq, Eq, Structural)]
pub enum ParsePhase {
    /// The raw bytes were not valid text.
    Encoding,
    /// The method token of the request line was not a known method.
    Method,
    /// The URI token of the request line was missing.
    Uri,
    /// The version token was neither `HTTP/1.1` nor `HTTP/1.0`.
    Version,
    /// A header line carried a malformed header name.
    HeaderName,
    /// A header line carried a malformed header value.
    HeaderValue,
}

/// A failure inside the wire codec.
#[derive(Debug)]
pub enum NinoverseHttpHandlerError {
    /// Assembling the wire bytes of a response failed.
    BufferError { additional_info: String },
    /// Reading from or writing to the connection failed.
    StreamError { additional_info: String },
    /// The raw request bytes did not parse.
    ParsingError { phase: ParsePhase, additional_info: String },
    /// The parsed pieces did not assemble into a request.
    RequestStructError { additional_info: String },
    /// The pieces of a response did not assemble.
    ResponseStructError { additional_info: String },
}

/// A failure raised while a dispatch action ran.
#[derive(Debug)]
pub enum NinoverseApiError {
    /// Some error occurred while handling the api call.
    GenericError { original_error: String },
}

/// The parse phase recorded in a codec error, when the error is a parse
/// failure.
pub open spec fn err_phase(e: NinoverseHttpHandlerError) -> Option<ParsePhase> {
    match e {
        NinoverseHttpHandlerError::ParsingError { phase, .. } => Some(phase),
        _ => None,
    }
}

/// The free-text detail carried by a codec error.
pub open spec fn err_info(e: NinoverseHttpHandlerError) -> Seq<char> {
    match e {
        NinoverseHttpHandlerError::BufferError { additional_info } => additional_info@,
        NinoverseHttpHandlerError::StreamError { additional_info } => additional_info@,
        NinoverseHttpHandlerError::ParsingError { additional_info, .. } => additional_info@,
        NinoverseHttpHandlerError::RequestStructError { additional_info } => additional_info@,
        NinoverseHttpHandlerError::ResponseStructError { additional_info } => additional_info@,
    }
}

/// The fixed report line of each codec error kind.
pub open spec fn spec_describe_http_error(e: NinoverseHttpHandlerError) -> Seq<char> {
    match e {
        NinoverseHttpHandlerError::BufferError { .. } => "TCP_LISTENER: Error writing in buffer."@,
        NinoverseHttpHandlerError::StreamError { .. } => "TCP_LISTENER: Error handling the TcpStream."@,
        NinoverseHttpHandlerError::ParsingError { .. } => "TCP_LISTENER: Error parsing a response."@,
        NinoverseHttpHandlerError::RequestStructError { .. } => "TCP_LISTENER: Error building the request struct."@,
        NinoverseHttpHandlerError::ResponseStructError { .. } => "TCP_LISTENER: Error building the response struct."@,
    }
}

impl NinoverseHttpHandlerError {
    /// The report line of this error, as the connection entry point logs it.
    pub fn describe(&self) -> (r: String)
        ensures
            r@ == spec_describe_http_error(*self),
    {
        match self {
            NinoverseHttpHandlerError::BufferError { .. } => String::from_str(
                "TCP_LISTENER: Error writing in buffer.",
            ),
            NinoverseHttpHandlerError::StreamError { .. } => String::from_str(
                "TCP_LISTENER: Error handling the TcpStream.",
            ),
            NinoverseHttpHandlerError::ParsingError { .. } => String::from_str(
                "TCP_LISTENER: Error parsing a response.",
            ),
            NinoverseHttpHandlerError::RequestStructError { .. } => String::from_str(
                "TCP_LISTENER: Error building the request struct.",
            ),
            NinoverseHttpHandlerError::ResponseStructError { .. } => String::from_str(
                "TCP_LISTENER: Error building the response struct.",
            ),
        }
    }
}

} // verus!
