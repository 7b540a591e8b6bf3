//! The library's error taxonomy and its mapping to HTTP status codes.

use vstd::prelude::*;
use crate::text::push_str;

verus! {

/// Classes of I/O failure that decide a response status.
#[derive(Clone, Copy, Debug, PartialEq, Eq)]
pub enum IoKind {
    NotFound,
    PermissionDenied,
    InvalidInput,
    Other,
}

/// Every failure the core reports; outside errors are carried as their text.
#[derive(Clone, Debug, PartialEq, Eq)]
pub enum AppError {
    Io(IoKind, String),
    GlobPatternError(String),
    GlobWalkError(String),
    TemplateError(String),
    RenderError(String),
    MarkdownParseError(String),
    ConfigError(String),
    StripPrefixError(String),
    CliError(String),
    OtherError(String),
}

/// Result of a fallible operation of the library.
pub type AppResult<T> = Result<T, AppError>;

/// HTTP status of an error: an I/O failure 404 when not found, 403 when
/// permission is denied; everything else 500.
pub open spec fn status_of(e: AppError) -> u16 {
    match e {
        AppError::Io(IoKind::NotFound, _) => 404,
        AppError::Io(IoKind::PermissionDenied, _) => 403,
        _ => 500,
    }
}

/// The message prefix of each kind of error.
pub open spec fn error_prefix(e: AppError) -> Seq<char> {
    match e {
        AppError::Io(..) => "IO error: "@,
        AppError::GlobPatternError(_) => "Glob pattern error: "@,
        AppError::GlobWalkError(_) => "Glob walk error: "@,
        AppError::TemplateError(_) => "Template error: "@,
        AppError::RenderError(_) => "Render error: "@,
        AppError::MarkdownParseError(_) => "Markdown parse error: "@,
        AppError::ConfigError(_) => "Config error: "@,
        AppError::StripPrefixError(_) => "StripPrefixError: "@,
        AppError::CliError(_) => "cli Error: "@,
        AppError::OtherError(_) => "Other error: "@,
    }
}

pub open spec fn error_detail(e: AppError) -> Seq<char> {
    match e {
        AppError::Io(_, m) => m@,
        AppError::GlobPatternError(m) => m@,
        AppError::GlobWalkError(m) => m@,
        AppError::TemplateError(m) => m@,
        AppError::RenderError(m) => m@,
        AppError::MarkdownParseError(m) => m@,
        AppError::ConfigError(m) => m@,
        AppError::StripPrefixError(m) => m@,
        AppError::CliError(m) => m@,
        AppError::OtherError(m) => m@,
    }
}

impl AppError {
    /// HTTP status code for this error.
    pub fn status_code(&self) -> (r: u16)
        ensures
            r == status_of(*self),
    {
        match self {
            AppError::Io(IoKind::NotFound, _) => 404,
            AppError::Io(IoKind::PermissionDenied, _) => 403,
            _ => 500,
        }
    }

    /// The error's message: its kind, then the detail.
    pub fn to_string(&self) -> (r: String)
        ensures
            r@ == error_prefix(*self) + error_detail(*self),
    {
        let mut out = String::new();
        let detail: &String = match self {
            AppError::Io(_, m) => {
                push_str(&mut out, "IO error: ");
                m
            },
            AppError::GlobPatternError(m) => {
                push_str(&mut out, "Glob pattern error: ");
                m
            },
            AppError::GlobWalkError(m) => {
                push_str(&mut out, "Glob walk error: ");
                m
            },
            AppError::TemplateError(m) => {
                push_str(&mut out, "Template error: ");
                m
            },
            AppError::RenderError(m) => {
                push_str(&mut out, "Render error: ");
                m
            },
            AppError::MarkdownParseError(m) => {
                push_str(&mut out, "Markdown parse error: ");
                m
            },
            AppError::ConfigError(m) => {
                push_str(&mut out, "Config error: ");
                m
            },
            AppError::StripPrefixError(m) => {
                push_str(&mut out, "StripPrefixError: ");
                m
            },
            AppError::CliError(m) => {
                push_str(&mut out, "cli Error: ");
                m
            },
            AppError::OtherError(m) => {
                push_str(&mut out, "Other error: ");
                m
            },
        };
        push_str(&mut out, detail.as_str());
        out
    }
}

} // verus!
