//! Errors of the service and the body they are answered with.
use vstd::prelude::*;

use crate::text::push_str;

verus! {

/// An error of the service; each variant carries the message shown to the user.
#[derive(Debug, Clone)]
pub enum ServiceError {
    ServerNotRunning(String),
    ProjectNotReady(String),
    FileNotFound(String),
    InvalidRequest(String),
    JavaNotFound(String),
    PortInUse(String),
    NotFound(String),
    Internal(String),
}

/// The kinds of error, without their messages.
#[derive(PartialEq, Eq, Structural, Clone, Copy, Debug)]
pub enum ErrorKind {
    ServerNotRunning,
    ProjectNotReady,
    FileNotFound,
    InvalidRequest,
    JavaNotFound,
    PortInUse,
    NotFound,
    Internal,
}

impl ServiceError {
    pub open spec fn kind(&self) -> ErrorKind {
        match self {
            ServiceError::ServerNotRunning(_) => ErrorKind::ServerNotRunning,
            ServiceError::ProjectNotReady(_) => ErrorKind::ProjectNotReady,
            ServiceError::FileNotFound(_) => ErrorKind::FileNotFound,
            ServiceError::InvalidRequest(_) => ErrorKind::InvalidRequest,
            ServiceError::JavaNotFound(_) => ErrorKind::JavaNotFound,
            ServiceError::PortInUse(_) => ErrorKind::PortInUse,
            ServiceError::NotFound(_) => ErrorKind::NotFound,
            ServiceError::Internal(_) => ErrorKind::Internal,
        }
    }

    /// The message the error carries.
    pub open spec fn text(&self) -> Seq<char> {
        match self {
            ServiceError::ServerNotRunning(m) => m@,
            ServiceError::ProjectNotReady(m) => m@,
            ServiceError::FileNotFound(m) => m@,
            ServiceError::InvalidRequest(m) => m@,
            ServiceError::JavaNotFound(m) => m@,
            ServiceError::PortInUse(m) => m@,
            ServiceError::NotFound(m) => m@,
            ServiceError::Internal(m) => m@,
        }
    }
}

/// The machine-readable code of each kind of error.
pub open spec fn code_of(k: ErrorKind) -> Seq<char> {
    match k {
        ErrorKind::ServerNotRunning => "server_not_running"@,
        ErrorKind::ProjectNotReady => "project_not_ready"@,
        ErrorKind::FileNotFound => "file_not_found"@,
        ErrorKind::InvalidRequest => "invalid_request"@,
        ErrorKind::JavaNotFound => "java_not_found"@,
        ErrorKind::PortInUse => "port_in_use"@,
        ErrorKind::NotFound => "not_found"@,
        ErrorKind::Internal => "internal_error"@,
    }
}

/// The HTTP status each kind of error is answered with.
pub open spec fn status_of(k: ErrorKind) -> u16 {
    match k {
        ErrorKind::ServerNotRunning => 503,
        ErrorKind::ProjectNotReady => 409,
        ErrorKind::FileNotFound => 404,
        ErrorKind::InvalidRequest => 400,
        ErrorKind::JavaNotFound => 400,
        ErrorKind::PortInUse => 409,
        ErrorKind::NotFound => 404,
        ErrorKind::Internal => 500,
    }
}

impl ServiceError {
    pub fn code(&self) -> (r: &'static str)
        ensures
            r@ == code_of(self.kind()),
    {
        match self {
            ServiceError::ServerNotRunning(_) => "server_not_running",
            ServiceError::ProjectNotReady(_) => "project_not_ready",
            ServiceError::FileNotFound(_) => "file_not_found",
            ServiceError::InvalidRequest(_) => "invalid_request",
            ServiceError::JavaNotFound(_) => "java_not_found",
            ServiceError::PortInUse(_) => "port_in_use",
            ServiceError::NotFound(_) => "not_found",
            ServiceError::Internal(_) => "internal_error",
        }
    }

    /// The message, as the error displays itself.
    pub fn message(&self) -> (r: String)
        ensures
            r@ == self.text(),
    {
        match self {
            ServiceError::ServerNotRunning(m) => m.clone(),
            ServiceError::ProjectNotReady(m) => m.clone(),
            ServiceError::FileNotFound(m) => m.clone(),
            ServiceError::InvalidRequest(m) => m.clone(),
            ServiceError::JavaNotFound(m) => m.clone(),
            ServiceError::PortInUse(m) => m.clone(),
            ServiceError::NotFound(m) => m.clone(),
            ServiceError::Internal(m) => m.clone(),
        }
    }

    pub fn http_status(&self) -> (r: u16)
        ensures
            r == status_of(self.kind()),
    {
        match self {
            ServiceError::ServerNotRunning(_) => 503,
            ServiceError::ProjectNotReady(_) => 409,
            ServiceError::FileNotFound(_) => 404,
            ServiceError::InvalidRequest(_) => 400,
            ServiceError::JavaNotFound(_) => 400,
            ServiceError::PortInUse(_) => 409,
            ServiceError::NotFound(_) => 404,
            ServiceError::Internal(_) => 500,
        }
    }
}

/// The body an error is answered with.
#[derive(Debug, Clone)]
pub struct ErrorResponse {
    pub error: String,
    pub code: String,
}

impl ErrorResponse {
    /// The body for an error: its message and its code.
    pub fn from_error(value: &ServiceError) -> (r: ErrorResponse)
        ensures
            r.error@ == value.text(),
            r.code@ == code_of(value.kind()),
    {
        let code = value.code();
        ErrorResponse { error: value.message(), code: code.to_string() }
    }

    /// `message (code)`.
    pub fn to_text(&self) -> (r: String)
        ensures
            r@ == self.error@ + " ("@ + self.code@ + ")"@,
    {
        let mut r = String::new();
        push_str(&mut r, self.error.as_str());
        push_str(&mut r, " (");
        push_str(&mut r, self.code.as_str());
        push_str(&mut r, ")");
        r
    }
}

} // verus!
