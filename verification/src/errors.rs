use vstd::prelude::*;

verus! {

/// `reqwest::Error`, carried through the library unopened.
#[verifier::external_type_specification]
#[verifier::external_body]
pub struct ExReqwestError(reqwest::Error);

/// `serde_json::Error`, carried through the library unopened.
#[verifier::external_type_specification]
#[verifier::external_body]
pub struct ExSerdeJsonError(serde_json::Error);

/// The errors of the SDK's clients.
#[derive(Debug)]
pub enum MuxiError {
    Authentication { code: String, message: String, status: u16 },
    Authorization { code: String, message: String, status: u16 },
    NotFound { code: String, message: String, status: u16 },
    Conflict { code: String, message: String, status: u16 },
    Validation { code: String, message: String, status: u16 },
    RateLimit { message: String, status: u16, retry_after: Option<u32> },
    Server { code: String, message: String, status: u16 },
    Connection(String),
    Request(reqwest::Error),
    Json(serde_json::Error),
    Unknown { code: String, message: String, status: u16 },
}

/// The results of the SDK's clients.
pub type Result<T> = std::result::Result<T, MuxiError>;

/// What a `MuxiError` says, with its texts as character sequences.
pub enum ErrorView {
    Authentication { code: Seq<char>, message: Seq<char>, status: u16 },
    Authorization { code: Seq<char>, message: Seq<char>, status: u16 },
    NotFound { code: Seq<char>, message: Seq<char>, status: u16 },
    Conflict { code: Seq<char>, message: Seq<char>, status: u16 },
    Validation { code: Seq<char>, message: Seq<char>, status: u16 },
    RateLimit { message: Seq<char>, status: u16, retry_after: Option<u32> },
    Server { code: Seq<char>, message: Seq<char>, status: u16 },
    Connection(Seq<char>),
    Request,
    Json,
    Unknown { code: Seq<char>, message: Seq<char>, status: u16 },
}

impl View for MuxiError {
    type V = ErrorView;

    open spec fn view(&self) -> ErrorView {
        match self {
            MuxiError::Authentication { code, message, status } => ErrorView::Authentication {
                code: code@,
                message: message@,
                status: *status,
            },
            MuxiError::Authorization { code, message, status } => ErrorView::Authorization {
                code: code@,
                message: message@,
                status: *status,
            },
            MuxiError::NotFound { code, message, status } => ErrorView::NotFound {
                code: code@,
                message: message@,
                status: *status,
            },
            MuxiError::Conflict { code, message, status } => ErrorView::Conflict {
                code: code@,
                message: message@,
                status: *status,
            },
            MuxiError::Validation { code, message, status } => ErrorView::Validation {
                code: code@,
                message: message@,
                status: *status,
            },
            MuxiError::RateLimit { message, status, retry_after } => ErrorView::RateLimit {
                message: message@,
                status: *status,
                retry_after: *retry_after,
            },
            MuxiError::Server { code, message, status } => ErrorView::Server {
                code: code@,
                message: message@,
                status: *status,
            },
            MuxiError::Connection(m) => ErrorView::Connection(m@),
            MuxiError::Request(_) => ErrorView::Request,
            MuxiError::Json(_) => ErrorView::Json,
            MuxiError::Unknown { code, message, status } => ErrorView::Unknown {
                code: code@,
                message: message@,
                status: *status,
            },
        }
    }
}

/// `code`, or `default` when `code` is empty.
pub open spec fn code_or(code: Seq<char>, default: Seq<char>) -> Seq<char> {
    if code.len() == 0 {
        default
    } else {
        code
    }
}

/// The error for an HTTP status, an error code (empty when absent), a message and a
/// `Retry-After` value: each status class has its variant and its default code.
pub open spec fn spec_from_response(
    status: u16,
    code: Seq<char>,
    message: Seq<char>,
    retry_after: Option<u32>,
) -> ErrorView {
    if status == 401 {
        ErrorView::Authentication { code: code_or(code, "UNAUTHORIZED"@), message, status }
    } else if status == 403 {
        ErrorView::Authorization { code: code_or(code, "FORBIDDEN"@), message, status }
    } else if status == 404 {
        ErrorView::NotFound { code: code_or(code, "NOT_FOUND"@), message, status }
    } else if status == 409 {
        ErrorView::Conflict { code: code_or(code, "CONFLICT"@), message, status }
    } else if status == 422 {
        ErrorView::Validation { code: code_or(code, "VALIDATION_ERROR"@), message, status }
    } else if status == 429 {
        ErrorView::RateLimit { message, status, retry_after }
    } else if 500 <= status <= 599 {
        ErrorView::Server { code: code_or(code, "SERVER_ERROR"@), message, status }
    } else {
        ErrorView::Unknown { code: code_or(code, "ERROR"@), message, status }
    }
}

/// The text of an optional code, empty when absent.
pub open spec fn opt_text(code: Option<Seq<char>>) -> Seq<char> {
    match code {
        Some(c) => c,
        None => Seq::<char>::empty(),
    }
}

/// The views of an optional string.
pub open spec fn opt_view(s: Option<String>) -> Option<Seq<char>> {
    match s {
        Some(x) => Some(x@),
        None => None,
    }
}

fn code_or_default(code: String, default: &str) -> (r: String)
    ensures
        r@ == code_or(code@, default@),
{
    if code.as_str().is_empty() {
        String::from_str(default)
    } else {
        code
    }
}

impl MuxiError {
    pub fn from_response(status: u16, code: Option<String>, message: String, retry_after: Option<
        u32,
    >) -> (e: MuxiError)
        ensures
            e@ == spec_from_response(status, opt_text(opt_view(code)), message@, retry_after),
    {
        let code = match code {
            Some(c) => c,
            None => String::new(),
        };
        if status == 401 {
            MuxiError::Authentication { code: code_or_default(code, "UNAUTHORIZED"), message, status }
        } else if status == 403 {
            MuxiError::Authorization { code: code_or_default(code, "FORBIDDEN"), message, status }
        } else if status == 404 {
            MuxiError::NotFound { code: code_or_default(code, "NOT_FOUND"), message, status }
        } else if status == 409 {
            MuxiError::Conflict { code: code_or_default(code, "CONFLICT"), message, status }
        } else if status == 422 {
            MuxiError::Validation { code: code_or_default(code, "VALIDATION_ERROR"), message, status }
        } else if status == 429 {
            MuxiError::RateLimit { message, status, retry_after }
        } else if 500 <= status && status <= 599 {
            MuxiError::Server { code: code_or_default(code, "SERVER_ERROR"), message, status }
        } else {
            MuxiError::Unknown { code: code_or_default(code, "ERROR"), message, status }
        }
    }
}

} // verus!
