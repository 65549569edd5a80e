use vstd::prelude::*;

verus! {

/// Error taxonomy of the crawler core.
///
/// Transport failures are never propagated out of fetch logic; they are
/// encoded into the produced `HttpResponse`. Parser errors distinguish a
/// clean end of input (`UnexpectedEof`) from malformed bytes (`InvalidUtf8`),
/// because the extractor treats the former as normal termination.
#[derive(Debug, Clone, PartialEq, Eq)]
pub enum AppError {
    /// Untagged fallback.
    Generic(String),
    /// A named dependency was not registered.
    MissingDependency(String),
    /// An index was outside the readable range.
    IndexOutOfBounds,
    /// A byte sequence did not decode as UTF-8.
    InvalidUtf8,
    /// The input ended before a full item could be read.
    UnexpectedEof,
    /// A recoverable parse failure, with a description of what failed.
    ParseError(String),
    /// Wrapped I/O failure.
    IOError(String),
    /// A requested key or resource does not exist.
    NotFound,
    /// A string could not be parsed or resolved as a URL.
    UrlParseError,
    /// A base64 payload could not be decoded.
    Base64DecodeError,
    /// An HTTP exchange failed with a transport-level status.
    Http { status: i64, method: String, message: String },
}

impl AppError {
    /// A short human-readable description of the error; the carried text is
    /// returned verbatim for the variants that hold one.
    pub fn message(&self) -> (r: String)
        ensures
            match self {
                AppError::Generic(m) => r@ == m@,
                AppError::MissingDependency(name) => r@.len() > name@.len(),
                AppError::ParseError(m) => r@ == m@,
                AppError::IOError(m) => r@ == m@,
                AppError::Http { status: _, method: _, message } => r@ == message@,
                _ => r@.len() > 0,
            },
    {
        match self {
            AppError::Generic(m) => m.clone(),
            AppError::MissingDependency(name) => {
                proof {
                    reveal_strlit("missing dependency: ");
                }
                let mut s = String::from_str("missing dependency: ");
                s.append(name.as_str());
                s
            },
            AppError::IndexOutOfBounds => {
                proof {
                    reveal_strlit("index out of bounds");
                }
                String::from_str("index out of bounds")
            },
            AppError::InvalidUtf8 => {
                proof {
                    reveal_strlit("invalid utf-8");
                }
                String::from_str("invalid utf-8")
            },
            AppError::UnexpectedEof => {
                proof {
                    reveal_strlit("unexpected end of input");
                }
                String::from_str("unexpected end of input")
            },
            AppError::ParseError(m) => m.clone(),
            AppError::IOError(m) => m.clone(),
            AppError::NotFound => {
                proof {
                    reveal_strlit("not found");
                }
                String::from_str("not found")
            },
            AppError::UrlParseError => {
                proof {
                    reveal_strlit("url parse error");
                }
                String::from_str("url parse error")
            },
            AppError::Base64DecodeError => {
                proof {
                    reveal_strlit("base64 decode error");
                }
                String::from_str("base64 decode error")
            },
            AppError::Http { status: _, method: _, message } => message.clone(),
        }
    }
}

} // verus!
