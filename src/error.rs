use vstd::prelude::*;

verus! {

/// Why a request could not be parsed.
#[derive(Debug, Clone)]
pub enum RequestError {
    /// The header has a single field: the separating white space is missing.
    MissingSeparator,
    /// The header has two fields.
    MissingField,
    /// The header has more than three fields, or none.
    ExtraField,
    /// The third field is not a non-negative integer.
    InvalidContentLength,
    /// The request is not valid UTF-8.
    InvalidUtf8,
    /// The transport failed, or ended early, while the request was read;
    /// the text describes the failure.
    ReadError(String),
}

impl RequestError {
    /// The human-readable message of the error.
    pub open spec fn spec_message(&self) -> Seq<char> {
        match self {
            RequestError::MissingSeparator => "Missing separator"@,
            RequestError::MissingField => "Missing field"@,
            RequestError::ExtraField => "Extra field"@,
            RequestError::InvalidContentLength => "Invalid content length"@,
            RequestError::InvalidUtf8 => "Utf8 error"@,
            RequestError::ReadError(e) => "Read error: "@ + e@,
        }
    }

    pub fn message(&self) -> (r: String)
        ensures
            r@ == self.spec_message(),
    {
        match self {
            RequestError::MissingSeparator => String::from_str("Missing separator"),
            RequestError::MissingField => String::from_str("Missing field"),
            RequestError::ExtraField => String::from_str("Extra field"),
            RequestError::InvalidContentLength => String::from_str("Invalid content length"),
            RequestError::InvalidUtf8 => String::from_str("Utf8 error"),
            RequestError::ReadError(e) => {
                let mut s = String::from_str("Read error: ");
                s.append(e.as_str());
                s
            },
        }
    }
}

/// Why a well-formed request could not be served.
#[derive(Debug, Clone)]
pub enum ServerError {
    /// No such host or resource.
    NotFound,
    /// A CGI program could not be run, or its output was malformed.
    CgiError,
    /// A directive denies access to the path.
    Unauthorized,
    /// The file system failed; the text describes the failure.
    IoError(String),
}

impl ServerError {
    /// The human-readable message of the error.
    pub open spec fn spec_message(&self) -> Seq<char> {
        match self {
            ServerError::NotFound => "Resource not found"@,
            ServerError::CgiError => "Script failed"@,
            ServerError::Unauthorized => "Not authorized"@,
            ServerError::IoError(e) => "Io error: "@ + e@,
        }
    }

    pub fn message(&self) -> (r: String)
        ensures
            r@ == self.spec_message(),
    {
        match self {
            ServerError::NotFound => String::from_str("Resource not found"),
            ServerError::CgiError => String::from_str("Script failed"),
            ServerError::Unauthorized => String::from_str("Not authorized"),
            ServerError::IoError(e) => {
                let mut s = String::from_str("Io error: ");
                s.append(e.as_str());
                s
            },
        }
    }
}

} // verus!
