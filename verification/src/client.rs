//! The client-side halves of one request/response exchange: building the
//! request's text and interpreting the response.
//!
//! Opening the connection and moving the bytes live outside the library.

use vstd::prelude::*;

use crate::codec::{encode_command, encoded_command, parse_response, parse_response_at};
use crate::error::KvsError;
use crate::strings::{chars_to_string, str_to_chars};
use crate::util::{Command, Response};

verus! {

/// The text of one request.
pub fn request_text(cmd: &Command) -> (r: String)
    ensures
        r@ == encoded_command(cmd@),
{
    let out = encode_command(cmd);
    chars_to_string(&out)
}

/// Reads the one response of an exchange; fails, with `Sered`, exactly when
/// the text is not one whole response.
pub fn parse_response_text(text: &str) -> (r: Result<Response, KvsError>)
    ensures
        ({
            let p = parse_response(text@, 0);
            &&& r is Ok <==> (p is Some && (p->0).1 == text@.len())
            &&& r matches Ok(resp) ==> resp@ == (p->0).0
            &&& r matches Err(e) ==> e matches KvsError::Sered(_)
        }),
{
    let chars = str_to_chars(text);
    match parse_response_at(&chars, 0) {
        Some((resp, end)) => {
            if end == chars.len() {
                Ok(resp)
            } else {
                Err(KvsError::Sered("trailing text after the response".to_owned()))
            }
        },
        None => Err(KvsError::Sered("malformed response".to_owned())),
    }
}

/// What the client does with a response: a successful one yields its `info`
/// (the value, the sentinel, or the empty text) to print; a failed one
/// becomes a `StringError` carrying the server's message, to surface with a
/// non-zero exit.
pub fn response_outcome(resp: Response) -> (r: Result<String, KvsError>)
    ensures
        resp.res ==> (r matches Ok(s) && s@ == resp.info@),
        !resp.res ==> (r matches Err(KvsError::StringError(m)) && m@ == resp.info@),
{
    if resp.res {
        Ok(resp.info)
    } else {
        Err(KvsError::StringError(resp.info))
    }
}

} // verus!
