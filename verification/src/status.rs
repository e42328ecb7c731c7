//! The registered HTTP status codes and their canonical reason
//! phrases, as the IANA registry lists them; unregistered codes render
//! as the fixed unknown-status text.

use vstd::prelude::*;

verus! {

/// The canonical reason phrase of a status code, or the unknown-status
/// text for a code outside the registry.
pub open spec fn reason_phrase(status: u16) -> Seq<char> {
    if status == 100 {
        ("Continue")@
    } else if status == 101 {
        ("Switching Protocols")@
    } else if status == 102 {
        ("Processing")@
    } else if status == 103 {
        ("Early Hints")@
    } else if status == 200 {
        ("OK")@
    } else if status == 201 {
        ("Created")@
    } else if status == 202 {
        ("Accepted")@
    } else if status == 203 {
        ("Non Authoritative Information")@
    } else if status == 204 {
        ("No Content")@
    } else if status == 205 {
        ("Reset Content")@
    } else if status == 206 {
        ("Partial Content")@
    } else if status == 207 {
        ("Multi-Status")@
    } else if status == 208 {
        ("Already Reported")@
    } else if status == 226 {
        ("IM Used")@
    } else if status == 300 {
        ("Multiple Choices")@
    } else if status == 301 {
        ("Moved Permanently")@
    } else if status == 302 {
        ("Found")@
    } else if status == 303 {
        ("See Other")@
    } else if status == 304 {
        ("Not Modified")@
    } else if status == 305 {
        ("Use Proxy")@
    } else if status == 307 {
        ("Temporary Redirect")@
    } else if status == 308 {
        ("Permanent Redirect")@
    } else if status == 400 {
        ("Bad Request")@
    } else if status == 401 {
        ("Unauthorized")@
    } else if status == 402 {
        ("Payment Required")@
    } else if status == 403 {
        ("Forbidden")@
    } else if status == 404 {
        ("Not Found")@
    } else if status == 405 {
        ("Method Not Allowed")@
    } else if status == 406 {
        ("Not Acceptable")@
    } else if status == 407 {
        ("Proxy Authentication Required")@
    } else if status == 408 {
        ("Request Timeout")@
    } else if status == 409 {
        ("Conflict")@
    } else if status == 410 {
        ("Gone")@
    } else if status == 411 {
        ("Length Required")@
    } else if status == 412 {
        ("Precondition Failed")@
    } else if status == 413 {
        ("Payload Too Large")@
    } else if status == 414 {
        ("URI Too Long")@
    } else if status == 415 {
        ("Unsupported Media Type")@
    } else if status == 416 {
        ("Range Not Satisfiable")@
    } else if status == 417 {
        ("Expectation Failed")@
    } else if status == 418 {
        ("I'm a teapot")@
    } else if status == 421 {
        ("Misdirected Request")@
    } else if status == 422 {
        ("Unprocessable Entity")@
    } else if status == 423 {
        ("Locked")@
    } else if status == 424 {
        ("Failed Dependency")@
    } else if status == 425 {
        ("Too Early")@
    } else if status == 426 {
        ("Upgrade Required")@
    } else if status == 428 {
        ("Precondition Required")@
    } else if status == 429 {
        ("Too Many Requests")@
    } else if status == 431 {
        ("Request Header Fields Too Large")@
    } else if status == 451 {
        ("Unavailable For Legal Reasons")@
    } else if status == 500 {
        ("Internal Server Error")@
    } else if status == 501 {
        ("Not Implemented")@
    } else if status == 502 {
        ("Bad Gateway")@
    } else if status == 503 {
        ("Service Unavailable")@
    } else if status == 504 {
        ("Gateway Timeout")@
    } else if status == 505 {
        ("HTTP Version Not Supported")@
    } else if status == 506 {
        ("Variant Also Negotiates")@
    } else if status == 507 {
        ("Insufficient Storage")@
    } else if status == 508 {
        ("Loop Detected")@
    } else if status == 510 {
        ("Not Extended")@
    } else if status == 511 {
        ("Network Authentication Required")@
    } else {
        ("<unknown status code>")@
    }
}

/// The canonical reason phrase of a status code.
pub fn reason_str(status: u16) -> (r: &'static str)
    ensures
        r@ == reason_phrase(status),
{
    match status {
        100 => "Continue",
        101 => "Switching Protocols",
        102 => "Processing",
        103 => "Early Hints",
        200 => "OK",
        201 => "Created",
        202 => "Accepted",
        203 => "Non Authoritative Information",
        204 => "No Content",
        205 => "Reset Content",
        206 => "Partial Content",
        207 => "Multi-Status",
        208 => "Already Reported",
        226 => "IM Used",
        300 => "Multiple Choices",
        301 => "Moved Permanently",
        302 => "Found",
        303 => "See Other",
        304 => "Not Modified",
        305 => "Use Proxy",
        307 => "Temporary Redirect",
        308 => "Permanent Redirect",
        400 => "Bad Request",
        401 => "Unauthorized",
        402 => "Payment Required",
        403 => "Forbidden",
        404 => "Not Found",
        405 => "Method Not Allowed",
        406 => "Not Acceptable",
        407 => "Proxy Authentication Required",
        408 => "Request Timeout",
        409 => "Conflict",
        410 => "Gone",
        411 => "Length Required",
        412 => "Precondition Failed",
        413 => "Payload Too Large",
        414 => "URI Too Long",
        415 => "Unsupported Media Type",
        416 => "Range Not Satisfiable",
        417 => "Expectation Failed",
        418 => "I'm a teapot",
        421 => "Misdirected Request",
        422 => "Unprocessable Entity",
        423 => "Locked",
        424 => "Failed Dependency",
        425 => "Too Early",
        426 => "Upgrade Required",
        428 => "Precondition Required",
        429 => "Too Many Requests",
        431 => "Request Header Fields Too Large",
        451 => "Unavailable For Legal Reasons",
        500 => "Internal Server Error",
        501 => "Not Implemented",
        502 => "Bad Gateway",
        503 => "Service Unavailable",
        504 => "Gateway Timeout",
        505 => "HTTP Version Not Supported",
        506 => "Variant Also Negotiates",
        507 => "Insufficient Storage",
        508 => "Loop Detected",
        510 => "Not Extended",
        511 => "Network Authentication Required",
        _ => "<unknown status code>",
    }
}

} // verus!
