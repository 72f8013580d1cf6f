//! The two ends of one invocation: what goes into the program, and what is
//! made of what came out.

use vstd::prelude::*;
use crate::cgi::{parse, parse_cgi_response, CgiError, CgiResponse};
use crate::env::{GatewayError, IncomingRequest, ServerConfig};

verus! {

/// What a finished program left behind. The exit code is kept for the
/// record; nothing is decided on it.
#[derive(Debug)]
pub struct ProcessOutcome {
    pub exit_code: Option<i32>,
    pub output: Vec<u8>,
}

/// The octets that the program is to read: the request's body, or nothing.
pub open spec fn input_of(body: Option<Vec<u8>>) -> Seq<u8> {
    match body {
        Some(b) => b@,
        None => Seq::empty(),
    }
}

/// The octets to write to the program's input before it is closed: the
/// whole body, and no more.
pub fn process_input(req: &IncomingRequest) -> (r: &[u8])
    ensures
        r@ == input_of(req.body),
{
    match &req.body {
        Some(b) => b.as_slice(),
        None => &[],
    }
}

/// What becomes of the program's standard error.
#[derive(Clone, Copy, Debug, PartialEq, Eq, Structural)]
pub enum ErrorStream {
    /// Thrown away.
    Discarded,
    /// Left where the server's own goes, so that it can be seen.
    Inherited,
}

/// The program's standard error is discarded unless the server runs in debug mode.
pub fn error_stream(config: &ServerConfig) -> (r: ErrorStream)
    ensures
        r == if config.debug {
            ErrorStream::Inherited
        } else {
            ErrorStream::Discarded
        },
{
    if config.debug {
        ErrorStream::Inherited
    } else {
        ErrorStream::Discarded
    }
}

/// A failure to read the output, as a failure of the gateway.
pub open spec fn gateway_error(e: CgiError) -> GatewayError {
    match e {
        CgiError::Io => GatewayError::Io,
        CgiError::HeaderFormat => GatewayError::HeaderFormat,
        CgiError::InvalidStatus => GatewayError::InvalidStatus,
    }
}

/// The response to a finished invocation: the program's output, read;
/// whatever its exit code was.
pub fn respond(outcome: &ProcessOutcome) -> (r: Result<CgiResponse, GatewayError>)
    ensures
        match (r, parse(outcome.output@)) {
            (Ok(resp), Ok(p)) => resp@ == p && resp.body_start <= outcome.output@.len(),
            (Err(e), Err(f)) => e == gateway_error(f),
            _ => false,
        },
{
    match parse_cgi_response(outcome.output.as_slice()) {
        Ok(resp) => Ok(resp),
        Err(CgiError::Io) => Err(GatewayError::Io),
        Err(CgiError::HeaderFormat) => Err(GatewayError::HeaderFormat),
        Err(CgiError::InvalidStatus) => Err(GatewayError::InvalidStatus),
    }
}

} // verus!
