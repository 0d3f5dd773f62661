//! HTTP status codes and their reason phrases.
use vstd::prelude::*;

verus! {

/// An HTTP response status.
#[derive(Clone, Copy, Debug, PartialEq, Eq, Structural)]
pub enum Status {
    Continue,
    SwitchingProtocols,
    Processing,
    EarlyHints,
    OK,
    Created,
    Accepted,
    NonAuthoritativeInformation,
    NoContent,
    ResetContent,
    PartialContent,
    MultiStatus,
    AlreadyReported,
    MultipleChoices,
    MovedPermanently,
    MovedTemporarily,
    NotModified,
    UseProxy,
    Unused,
    TemporaryRedirect,
    PermanentRedirect,
    BadRequest,
    Unauthorized,
    Forbidden,
    NotFound,
    MethodNotAllowed,
    NotAcceptable,
    ProxyAuthenticationRequired,
    RequestTimeout,
    Conflict,
    Gone,
    LengthRequired,
    PreconditionFailed,
    PayloadTooLarge,
    UriTooLong,
    UnsupportedMediaType,
    RangeNotSatisfiable,
    ExpectationFailed,
    ImATeapot,
    MisdirectedRequest,
    UnprocessableContent,
    Locked,
    FailedDependency,
    TooEarly,
    UpgradeRequired,
    PreconditionRequired,
    TooManyRequests,
    RequestHeaderFieldsTooLarge,
    UnavailableForLegalReasons,
    InternalServerError,
    NotImplemented,
    BadGateway,
    ServiceUnavailable,
    GatewayTimeout,
    HttpVersionNotSupported,
    VariantAlsoNegotiates,
    InsufficientStorage,
    LoopDetected,
    NotExtended,
    NetworkAuthenticationRequired,
}

/// The numeric code of a status.
pub open spec fn status_code(s: Status) -> u16 {
    match s {
        Status::Continue => 100,
        Status::SwitchingProtocols => 101,
        Status::Processing => 102,
        Status::EarlyHints => 103,
        Status::OK => 200,
        Status::Created => 201,
        Status::Accepted => 202,
        Status::NonAuthoritativeInformation => 203,
        Status::NoContent => 204,
        Status::ResetContent => 205,
        Status::PartialContent => 206,
        Status::MultiStatus => 207,
        Status::AlreadyReported => 208,
        Status::MultipleChoices => 300,
        Status::MovedPermanently => 301,
        Status::MovedTemporarily => 302,
        Status::NotModified => 304,
        Status::UseProxy => 305,
        Status::Unused => 306,
        Status::TemporaryRedirect => 307,
        Status::PermanentRedirect => 308,
        Status::BadRequest => 400,
        Status::Unauthorized => 401,
        Status::Forbidden => 403,
        Status::NotFound => 404,
        Status::MethodNotAllowed => 405,
        Status::NotAcceptable => 406,
        Status::ProxyAuthenticationRequired => 407,
        Status::RequestTimeout => 408,
        Status::Conflict => 409,
        Status::Gone => 410,
        Status::LengthRequired => 411,
        Status::PreconditionFailed => 412,
        Status::PayloadTooLarge => 413,
        Status::UriTooLong => 414,
        Status::UnsupportedMediaType => 415,
        Status::RangeNotSatisfiable => 416,
        Status::ExpectationFailed => 417,
        Status::ImATeapot => 418,
        Status::MisdirectedRequest => 421,
        Status::UnprocessableContent => 422,
        Status::Locked => 423,
        Status::FailedDependency => 424,
        Status::TooEarly => 425,
        Status::UpgradeRequired => 426,
        Status::PreconditionRequired => 428,
        Status::TooManyRequests => 429,
        Status::RequestHeaderFieldsTooLarge => 431,
        Status::UnavailableForLegalReasons => 451,
        Status::InternalServerError => 500,
        Status::NotImplemented => 501,
        Status::BadGateway => 502,
        Status::ServiceUnavailable => 503,
        Status::GatewayTimeout => 504,
        Status::HttpVersionNotSupported => 505,
        Status::VariantAlsoNegotiates => 506,
        Status::InsufficientStorage => 507,
        Status::LoopDetected => 508,
        Status::NotExtended => 510,
        Status::NetworkAuthenticationRequired => 511,
    }
}

/// The reason phrase of a status.
pub open spec fn status_reason(s: Status) -> Seq<char> {
    match s {
        Status::Continue => "Continue"@,
        Status::SwitchingProtocols => "Switching Protocols"@,
        Status::Processing => "Processing"@,
        Status::EarlyHints => "Early Hints"@,
        Status::OK => "OK"@,
        Status::Created => "Created"@,
        Status::Accepted => "Accepted"@,
        Status::NonAuthoritativeInformation => "Non-Authoritative Information"@,
        Status::NoContent => "No Content"@,
        Status::ResetContent => "Reset Content"@,
        Status::PartialContent => "Partial Content"@,
        Status::MultiStatus => "Multi-Status"@,
        Status::AlreadyReported => "Already Reported"@,
        Status::MultipleChoices => "Multiple Choices"@,
        Status::MovedPermanently => "Moved Permanently"@,
        Status::MovedTemporarily => "Moved Temporarily"@,
        Status::NotModified => "Not Modified"@,
        Status::UseProxy => "Use Proxy"@,
        Status::Unused => "Unused"@,
        Status::TemporaryRedirect => "Temporary Redirect"@,
        Status::PermanentRedirect => "Permanent Redirect"@,
        Status::BadRequest => "Bad Request"@,
        Status::Unauthorized => "Unauthorized"@,
        Status::Forbidden => "Forbidden"@,
        Status::NotFound => "Not Found"@,
        Status::MethodNotAllowed => "Method Not Allowed"@,
        Status::NotAcceptable => "Not Acceptable"@,
        Status::ProxyAuthenticationRequired => "Proxy Authentication Required"@,
        Status::RequestTimeout => "Request Timeout"@,
        Status::Conflict => "Conflict"@,
        Status::Gone => "Gone"@,
        Status::LengthRequired => "Length Required"@,
        Status::PreconditionFailed => "Precondition Failed"@,
        Status::PayloadTooLarge => "Payload Too Large"@,
        Status::UriTooLong => "URI Too Long"@,
        Status::UnsupportedMediaType => "Unsupported Media Type"@,
        Status::RangeNotSatisfiable => "Range Not Satisfiable"@,
        Status::ExpectationFailed => "Expectation Failed"@,
        Status::ImATeapot => "Im A Teapot"@,
        Status::MisdirectedRequest => "Misdirected Request"@,
        Status::UnprocessableContent => "Unprocessable Content"@,
        Status::Locked => "Locked"@,
        Status::FailedDependency => "Failed Dependency"@,
        Status::TooEarly => "Too Early"@,
        Status::UpgradeRequired => "Upgrade Required"@,
        Status::PreconditionRequired => "Precondition Required"@,
        Status::TooManyRequests => "Too Many Requests"@,
        Status::RequestHeaderFieldsTooLarge => "Request Header Fields Too Large"@,
        Status::UnavailableForLegalReasons => "Unavailable For Legal Reasons"@,
        Status::InternalServerError => "Internal Server Error"@,
        Status::NotImplemented => "Not Implemented"@,
        Status::BadGateway => "Bad Gateway"@,
        Status::ServiceUnavailable => "Service Unavailable"@,
        Status::GatewayTimeout => "Gateway Timeout"@,
        Status::HttpVersionNotSupported => "HTTP Version Not Supported"@,
        Status::VariantAlsoNegotiates => "Variant Also Negotiates"@,
        Status::InsufficientStorage => "Insufficient Storage"@,
        Status::LoopDetected => "Loop Detected"@,
        Status::NotExtended => "Not Extended"@,
        Status::NetworkAuthenticationRequired => "Network Authentication Required"@,
    }
}

impl Status {
    /// The numeric status code.
    pub fn as_u16(&self) -> (r: u16)
        ensures
            r == status_code(*self),
    {
        match self {
            Status::Continue => 100,
            Status::SwitchingProtocols => 101,
            Status::Processing => 102,
            Status::EarlyHints => 103,
            Status::OK => 200,
            Status::Created => 201,
            Status::Accepted => 202,
            Status::NonAuthoritativeInformation => 203,
            Status::NoContent => 204,
            Status::ResetContent => 205,
            Status::PartialContent => 206,
            Status::MultiStatus => 207,
            Status::AlreadyReported => 208,
            Status::MultipleChoices => 300,
            Status::MovedPermanently => 301,
            Status::MovedTemporarily => 302,
            Status::NotModified => 304,
            Status::UseProxy => 305,
            Status::Unused => 306,
            Status::TemporaryRedirect => 307,
            Status::PermanentRedirect => 308,
            Status::BadRequest => 400,
            Status::Unauthorized => 401,
            Status::Forbidden => 403,
            Status::NotFound => 404,
            Status::MethodNotAllowed => 405,
            Status::NotAcceptable => 406,
            Status::ProxyAuthenticationRequired => 407,
            Status::RequestTimeout => 408,
            Status::Conflict => 409,
            Status::Gone => 410,
            Status::LengthRequired => 411,
            Status::PreconditionFailed => 412,
            Status::PayloadTooLarge => 413,
            Status::UriTooLong => 414,
            Status::UnsupportedMediaType => 415,
            Status::RangeNotSatisfiable => 416,
            Status::ExpectationFailed => 417,
            Status::ImATeapot => 418,
            Status::MisdirectedRequest => 421,
            Status::UnprocessableContent => 422,
            Status::Locked => 423,
            Status::FailedDependency => 424,
            Status::TooEarly => 425,
            Status::UpgradeRequired => 426,
            Status::PreconditionRequired => 428,
            Status::TooManyRequests => 429,
            Status::RequestHeaderFieldsTooLarge => 431,
            Status::UnavailableForLegalReasons => 451,
            Status::InternalServerError => 500,
            Status::NotImplemented => 501,
            Status::BadGateway => 502,
            Status::ServiceUnavailable => 503,
            Status::GatewayTimeout => 504,
            Status::HttpVersionNotSupported => 505,
            Status::VariantAlsoNegotiates => 506,
            Status::InsufficientStorage => 507,
            Status::LoopDetected => 508,
            Status::NotExtended => 510,
            Status::NetworkAuthenticationRequired => 511,
        }
    }

    /// The standard reason phrase.
    pub fn reason_phrase(&self) -> (r: &'static str)
        ensures
            r@ == status_reason(*self),
    {
        match self {
            Status::Continue => "Continue",
            Status::SwitchingProtocols => "Switching Protocols",
            Status::Processing => "Processing",
            Status::EarlyHints => "Early Hints",
            Status::OK => "OK",
            Status::Created => "Created",
            Status::Accepted => "Accepted",
            Status::NonAuthoritativeInformation => "Non-Authoritative Information",
            Status::NoContent => "No Content",
            Status::ResetContent => "Reset Content",
            Status::PartialContent => "Partial Content",
            Status::MultiStatus => "Multi-Status",
            Status::AlreadyReported => "Already Reported",
            Status::MultipleChoices => "Multiple Choices",
            Status::MovedPermanently => "Moved Permanently",
            Status::MovedTemporarily => "Moved Temporarily",
            Status::NotModified => "Not Modified",
            Status::UseProxy => "Use Proxy",
            Status::Unused => "Unused",
            Status::TemporaryRedirect => "Temporary Redirect",
            Status::PermanentRedirect => "Permanent Redirect",
            Status::BadRequest => "Bad Request",
            Status::Unauthorized => "Unauthorized",
            Status::Forbidden => "Forbidden",
            Status::NotFound => "Not Found",
            Status::MethodNotAllowed => "Method Not Allowed",
            Status::NotAcceptable => "Not Acceptable",
            Status::ProxyAuthenticationRequired => "Proxy Authentication Required",
            Status::RequestTimeout => "Request Timeout",
            Status::Conflict => "Conflict",
            Status::Gone => "Gone",
            Status::LengthRequired => "Length Required",
            Status::PreconditionFailed => "Precondition Failed",
            Status::PayloadTooLarge => "Payload Too Large",
            Status::UriTooLong => "URI Too Long",
            Status::UnsupportedMediaType => "Unsupported Media Type",
            Status::RangeNotSatisfiable => "Range Not Satisfiable",
            Status::ExpectationFailed => "Expectation Failed",
            Status::ImATeapot => "Im A Teapot",
            Status::MisdirectedRequest => "Misdirected Request",
            Status::UnprocessableContent => "Unprocessable Content",
            Status::Locked => "Locked",
            Status::FailedDependency => "Failed Dependency",
            Status::TooEarly => "Too Early",
            Status::UpgradeRequired => "Upgrade Required",
            Status::PreconditionRequired => "Precondition Required",
            Status::TooManyRequests => "Too Many Requests",
            Status::RequestHeaderFieldsTooLarge => "Request Header Fields Too Large",
            Status::UnavailableForLegalReasons => "Unavailable For Legal Reasons",
            Status::InternalServerError => "Internal Server Error",
            Status::NotImplemented => "Not Implemented",
            Status::BadGateway => "Bad Gateway",
            Status::ServiceUnavailable => "Service Unavailable",
            Status::GatewayTimeout => "Gateway Timeout",
            Status::HttpVersionNotSupported => "HTTP Version Not Supported",
            Status::VariantAlsoNegotiates => "Variant Also Negotiates",
            Status::InsufficientStorage => "Insufficient Storage",
            Status::LoopDetected => "Loop Detected",
            Status::NotExtended => "Not Extended",
            Status::NetworkAuthenticationRequired => "Network Authentication Required",
        }
    }
}


/// The registered HTTP status codes that this library names, each with its
/// reason phrase, as RFC 9110 and the IANA status code registry give them.
pub open spec fn status_registry() -> Seq<(u16, Seq<char>)> {
    seq![
        (100u16, "Continue"@),
        (101u16, "Switching Protocols"@),
        (102u16, "Processing"@),
        (103u16, "Early Hints"@),
        (200u16, "OK"@),
        (201u16, "Created"@),
        (202u16, "Accepted"@),
        (203u16, "Non-Authoritative Information"@),
        (204u16, "No Content"@),
        (205u16, "Reset Content"@),
        (206u16, "Partial Content"@),
        (207u16, "Multi-Status"@),
        (208u16, "Already Reported"@),
        (300u16, "Multiple Choices"@),
        (301u16, "Moved Permanently"@),
        (302u16, "Moved Temporarily"@),
        (304u16, "Not Modified"@),
        (305u16, "Use Proxy"@),
        (306u16, "Unused"@),
        (307u16, "Temporary Redirect"@),
        (308u16, "Permanent Redirect"@),
        (400u16, "Bad Request"@),
        (401u16, "Unauthorized"@),
        (403u16, "Forbidden"@),
        (404u16, "Not Found"@),
        (405u16, "Method Not Allowed"@),
        (406u16, "Not Acceptable"@),
        (407u16, "Proxy Authentication Required"@),
        (408u16, "Request Timeout"@),
        (409u16, "Conflict"@),
        (410u16, "Gone"@),
        (411u16, "Length Required"@),
        (412u16, "Precondition Failed"@),
        (413u16, "Payload Too Large"@),
        (414u16, "URI Too Long"@),
        (415u16, "Unsupported Media Type"@),
        (416u16, "Range Not Satisfiable"@),
        (417u16, "Expectation Failed"@),
        (418u16, "Im A Teapot"@),
        (421u16, "Misdirected Request"@),
        (422u16, "Unprocessable Content"@),
        (423u16, "Locked"@),
        (424u16, "Failed Dependency"@),
        (425u16, "Too Early"@),
        (426u16, "Upgrade Required"@),
        (428u16, "Precondition Required"@),
        (429u16, "Too Many Requests"@),
        (431u16, "Request Header Fields Too Large"@),
        (451u16, "Unavailable For Legal Reasons"@),
        (500u16, "Internal Server Error"@),
        (501u16, "Not Implemented"@),
        (502u16, "Bad Gateway"@),
        (503u16, "Service Unavailable"@),
        (504u16, "Gateway Timeout"@),
        (505u16, "HTTP Version Not Supported"@),
        (506u16, "Variant Also Negotiates"@),
        (507u16, "Insufficient Storage"@),
        (508u16, "Loop Detected"@),
        (510u16, "Not Extended"@),
        (511u16, "Network Authentication Required"@),
    ]
}

/// The status this library names by a code, if any.
spec fn status_with_code(c: u16) -> Option<Status> {
    if c == 100 {
        Some(Status::Continue)
    } else if c == 101 {
        Some(Status::SwitchingProtocols)
    } else if c == 102 {
        Some(Status::Processing)
    } else if c == 103 {
        Some(Status::EarlyHints)
    } else if c == 200 {
        Some(Status::OK)
    } else if c == 201 {
        Some(Status::Created)
    } else if c == 202 {
        Some(Status::Accepted)
    } else if c == 203 {
        Some(Status::NonAuthoritativeInformation)
    } else if c == 204 {
        Some(Status::NoContent)
    } else if c == 205 {
        Some(Status::ResetContent)
    } else if c == 206 {
        Some(Status::PartialContent)
    } else if c == 207 {
        Some(Status::MultiStatus)
    } else if c == 208 {
        Some(Status::AlreadyReported)
    } else if c == 300 {
        Some(Status::MultipleChoices)
    } else if c == 301 {
        Some(Status::MovedPermanently)
    } else if c == 302 {
        Some(Status::MovedTemporarily)
    } else if c == 304 {
        Some(Status::NotModified)
    } else if c == 305 {
        Some(Status::UseProxy)
    } else if c == 306 {
        Some(Status::Unused)
    } else if c == 307 {
        Some(Status::TemporaryRedirect)
    } else if c == 308 {
        Some(Status::PermanentRedirect)
    } else if c == 400 {
        Some(Status::BadRequest)
    } else if c == 401 {
        Some(Status::Unauthorized)
    } else if c == 403 {
        Some(Status::Forbidden)
    } else if c == 404 {
        Some(Status::NotFound)
    } else if c == 405 {
        Some(Status::MethodNotAllowed)
    } else if c == 406 {
        Some(Status::NotAcceptable)
    } else if c == 407 {
        Some(Status::ProxyAuthenticationRequired)
    } else if c == 408 {
        Some(Status::RequestTimeout)
    } else if c == 409 {
        Some(Status::Conflict)
    } else if c == 410 {
        Some(Status::Gone)
    } else if c == 411 {
        Some(Status::LengthRequired)
    } else if c == 412 {
        Some(Status::PreconditionFailed)
    } else if c == 413 {
        Some(Status::PayloadTooLarge)
    } else if c == 414 {
        Some(Status::UriTooLong)
    } else if c == 415 {
        Some(Status::UnsupportedMediaType)
    } else if c == 416 {
        Some(Status::RangeNotSatisfiable)
    } else if c == 417 {
        Some(Status::ExpectationFailed)
    } else if c == 418 {
        Some(Status::ImATeapot)
    } else if c == 421 {
        Some(Status::MisdirectedRequest)
    } else if c == 422 {
        Some(Status::UnprocessableContent)
    } else if c == 423 {
        Some(Status::Locked)
    } else if c == 424 {
        Some(Status::FailedDependency)
    } else if c == 425 {
        Some(Status::TooEarly)
    } else if c == 426 {
        Some(Status::UpgradeRequired)
    } else if c == 428 {
        Some(Status::PreconditionRequired)
    } else if c == 429 {
        Some(Status::TooManyRequests)
    } else if c == 431 {
        Some(Status::RequestHeaderFieldsTooLarge)
    } else if c == 451 {
        Some(Status::UnavailableForLegalReasons)
    } else if c == 500 {
        Some(Status::InternalServerError)
    } else if c == 501 {
        Some(Status::NotImplemented)
    } else if c == 502 {
        Some(Status::BadGateway)
    } else if c == 503 {
        Some(Status::ServiceUnavailable)
    } else if c == 504 {
        Some(Status::GatewayTimeout)
    } else if c == 505 {
        Some(Status::HttpVersionNotSupported)
    } else if c == 506 {
        Some(Status::VariantAlsoNegotiates)
    } else if c == 507 {
        Some(Status::InsufficientStorage)
    } else if c == 508 {
        Some(Status::LoopDetected)
    } else if c == 510 {
        Some(Status::NotExtended)
    } else if c == 511 {
        Some(Status::NetworkAuthenticationRequired)
    } else {
        None
    }
}

/// Every status is written with a registered code and that code's own
/// reason phrase, and no two statuses share a code: a response's status
/// line is `HTTP/1.1`, the code the registry gives the status, and its
/// phrase.
pub proof fn law_status_lines_are_registered(s: Status, t: Status)
    ensures
        status_registry().contains((status_code(s), status_reason(s))),
        status_code(s) == status_code(t) ==> s == t,
{
    match s {
        Status::Continue => { assert(status_registry()[0] == (status_code(s), status_reason(s))); },
        Status::SwitchingProtocols => { assert(status_registry()[1] == (status_code(s), status_reason(s))); },
        Status::Processing => { assert(status_registry()[2] == (status_code(s), status_reason(s))); },
        Status::EarlyHints => { assert(status_registry()[3] == (status_code(s), status_reason(s))); },
        Status::OK => { assert(status_registry()[4] == (status_code(s), status_reason(s))); },
        Status::Created => { assert(status_registry()[5] == (status_code(s), status_reason(s))); },
        Status::Accepted => { assert(status_registry()[6] == (status_code(s), status_reason(s))); },
        Status::NonAuthoritativeInformation => { assert(status_registry()[7] == (status_code(s), status_reason(s))); },
        Status::NoContent => { assert(status_registry()[8] == (status_code(s), status_reason(s))); },
        Status::ResetContent => { assert(status_registry()[9] == (status_code(s), status_reason(s))); },
        Status::PartialContent => { assert(status_registry()[10] == (status_code(s), status_reason(s))); },
        Status::MultiStatus => { assert(status_registry()[11] == (status_code(s), status_reason(s))); },
        Status::AlreadyReported => { assert(status_registry()[12] == (status_code(s), status_reason(s))); },
        Status::MultipleChoices => { assert(status_registry()[13] == (status_code(s), status_reason(s))); },
        Status::MovedPermanently => { assert(status_registry()[14] == (status_code(s), status_reason(s))); },
        Status::MovedTemporarily => { assert(status_registry()[15] == (status_code(s), status_reason(s))); },
        Status::NotModified => { assert(status_registry()[16] == (status_code(s), status_reason(s))); },
        Status::UseProxy => { assert(status_registry()[17] == (status_code(s), status_reason(s))); },
        Status::Unused => { assert(status_registry()[18] == (status_code(s), status_reason(s))); },
        Status::TemporaryRedirect => { assert(status_registry()[19] == (status_code(s), status_reason(s))); },
        Status::PermanentRedirect => { assert(status_registry()[20] == (status_code(s), status_reason(s))); },
        Status::BadRequest => { assert(status_registry()[21] == (status_code(s), status_reason(s))); },
        Status::Unauthorized => { assert(status_registry()[22] == (status_code(s), status_reason(s))); },
        Status::Forbidden => { assert(status_registry()[23] == (status_code(s), status_reason(s))); },
        Status::NotFound => { assert(status_registry()[24] == (status_code(s), status_reason(s))); },
        Status::MethodNotAllowed => { assert(status_registry()[25] == (status_code(s), status_reason(s))); },
        Status::NotAcceptable => { assert(status_registry()[26] == (status_code(s), status_reason(s))); },
        Status::ProxyAuthenticationRequired => { assert(status_registry()[27] == (status_code(s), status_reason(s))); },
        Status::RequestTimeout => { assert(status_registry()[28] == (status_code(s), status_reason(s))); },
        Status::Conflict => { assert(status_registry()[29] == (status_code(s), status_reason(s))); },
        Status::Gone => { assert(status_registry()[30] == (status_code(s), status_reason(s))); },
        Status::LengthRequired => { assert(status_registry()[31] == (status_code(s), status_reason(s))); },
        Status::PreconditionFailed => { assert(status_registry()[32] == (status_code(s), status_reason(s))); },
        Status::PayloadTooLarge => { assert(status_registry()[33] == (status_code(s), status_reason(s))); },
        Status::UriTooLong => { assert(status_registry()[34] == (status_code(s), status_reason(s))); },
        Status::UnsupportedMediaType => { assert(status_registry()[35] == (status_code(s), status_reason(s))); },
        Status::RangeNotSatisfiable => { assert(status_registry()[36] == (status_code(s), status_reason(s))); },
        Status::ExpectationFailed => { assert(status_registry()[37] == (status_code(s), status_reason(s))); },
        Status::ImATeapot => { assert(status_registry()[38] == (status_code(s), status_reason(s))); },
        Status::MisdirectedRequest => { assert(status_registry()[39] == (status_code(s), status_reason(s))); },
        Status::UnprocessableContent => { assert(status_registry()[40] == (status_code(s), status_reason(s))); },
        Status::Locked => { assert(status_registry()[41] == (status_code(s), status_reason(s))); },
        Status::FailedDependency => { assert(status_registry()[42] == (status_code(s), status_reason(s))); },
        Status::TooEarly => { assert(status_registry()[43] == (status_code(s), status_reason(s))); },
        Status::UpgradeRequired => { assert(status_registry()[44] == (status_code(s), status_reason(s))); },
        Status::PreconditionRequired => { assert(status_registry()[45] == (status_code(s), status_reason(s))); },
        Status::TooManyRequests => { assert(status_registry()[46] == (status_code(s), status_reason(s))); },
        Status::RequestHeaderFieldsTooLarge => { assert(status_registry()[47] == (status_code(s), status_reason(s))); },
        Status::UnavailableForLegalReasons => { assert(status_registry()[48] == (status_code(s), status_reason(s))); },
        Status::InternalServerError => { assert(status_registry()[49] == (status_code(s), status_reason(s))); },
        Status::NotImplemented => { assert(status_registry()[50] == (status_code(s), status_reason(s))); },
        Status::BadGateway => { assert(status_registry()[51] == (status_code(s), status_reason(s))); },
        Status::ServiceUnavailable => { assert(status_registry()[52] == (status_code(s), status_reason(s))); },
        Status::GatewayTimeout => { assert(status_registry()[53] == (status_code(s), status_reason(s))); },
        Status::HttpVersionNotSupported => { assert(status_registry()[54] == (status_code(s), status_reason(s))); },
        Status::VariantAlsoNegotiates => { assert(status_registry()[55] == (status_code(s), status_reason(s))); },
        Status::InsufficientStorage => { assert(status_registry()[56] == (status_code(s), status_reason(s))); },
        Status::LoopDetected => { assert(status_registry()[57] == (status_code(s), status_reason(s))); },
        Status::NotExtended => { assert(status_registry()[58] == (status_code(s), status_reason(s))); },
        Status::NetworkAuthenticationRequired => { assert(status_registry()[59] == (status_code(s), status_reason(s))); },
    }
    assert(status_with_code(status_code(s)) == Some(s));
    assert(status_with_code(status_code(t)) == Some(t));
}

} // verus!
