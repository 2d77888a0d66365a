use vstd::prelude::*;

verus! {

/// The payload carried by every error that reaches an API caller.
#[derive(Debug)]
pub struct AppErrorValue {
    pub message: String,
    pub status: u16,
    pub identifier: String,
    pub code: String,
}

impl Default for AppErrorValue {
    fn default() -> (r: AppErrorValue)
        ensures
            r.message@ == ""@,
            r.status == 500,
            r.identifier@ == "UNIMPLEMENTED"@,
            r.code@ == "ERROR"@,
    {
        AppErrorValue {
            message: String::from_str(""),
            status: 500,
            identifier: String::from_str("UNIMPLEMENTED"),
            code: String::from_str("ERROR"),
        }
    }
}

/// The error taxonomy of the service; each variant maps to one HTTP status.
#[derive(Debug)]
pub enum AppError {
    Unauthorized(AppErrorValue),
    Forbidden(AppErrorValue),
    NotFound(AppErrorValue),
    UnprocessableEntity(AppErrorValue),
    BadRequest(AppErrorValue),
    InternalServerError(AppErrorValue),
}

/// Where an ingestion-side or store failure came from; it becomes the
/// distinguishing code tag of an internal server error.
#[derive(Debug, Clone, Copy, PartialEq, Eq, Structural)]
pub enum ErrorOrigin {
    Io,
    Store,
    Fetch,
    Decode,
    Scheduler,
    Aggregation,
}

pub open spec fn origin_code(o: ErrorOrigin) -> Seq<char> {
    match o {
        ErrorOrigin::Io => "IO_ERROR"@,
        ErrorOrigin::Store => "SQLX_ERROR"@,
        ErrorOrigin::Fetch => "REQWEST_ERROR"@,
        ErrorOrigin::Decode => "XML_DE_ERROR"@,
        ErrorOrigin::Scheduler => "SCHEDULER_ERROR"@,
        ErrorOrigin::Aggregation => "AGGREGATION_ERROR"@,
    }
}

impl ErrorOrigin {
    /// The code tag reported for failures of this origin.
    pub fn code(&self) -> (r: &'static str)
        ensures
            r@ == origin_code(*self),
    {
        match self {
            ErrorOrigin::Io => "IO_ERROR",
            ErrorOrigin::Store => "SQLX_ERROR",
            ErrorOrigin::Fetch => "REQWEST_ERROR",
            ErrorOrigin::Decode => "XML_DE_ERROR",
            ErrorOrigin::Scheduler => "SCHEDULER_ERROR",
            ErrorOrigin::Aggregation => "AGGREGATION_ERROR",
        }
    }
}

impl AppError {
    pub open spec fn spec_value(&self) -> AppErrorValue {
        match self {
            AppError::Unauthorized(v) => *v,
            AppError::Forbidden(v) => *v,
            AppError::NotFound(v) => *v,
            AppError::UnprocessableEntity(v) => *v,
            AppError::BadRequest(v) => *v,
            AppError::InternalServerError(v) => *v,
        }
    }

    pub open spec fn spec_status_code(&self) -> u16 {
        match self {
            AppError::Unauthorized(_) => 401,
            AppError::Forbidden(_) => 403,
            AppError::NotFound(_) => 404,
            AppError::UnprocessableEntity(_) => 422,
            AppError::BadRequest(_) => 400,
            AppError::InternalServerError(_) => 500,
        }
    }

    /// The HTTP status that the variant stands for.
    pub fn status_code(&self) -> (r: u16)
        ensures
            r == self.spec_status_code(),
    {
        match self {
            AppError::Unauthorized(_) => 401,
            AppError::Forbidden(_) => 403,
            AppError::NotFound(_) => 404,
            AppError::UnprocessableEntity(_) => 422,
            AppError::BadRequest(_) => 400,
            AppError::InternalServerError(_) => 500,
        }
    }

    /// The payload of the error, whatever its variant.
    pub fn value(&self) -> (r: &AppErrorValue)
        ensures
            *r == self.spec_value(),
    {
        match self {
            AppError::Unauthorized(v) => v,
            AppError::Forbidden(v) => v,
            AppError::NotFound(v) => v,
            AppError::UnprocessableEntity(v) => v,
            AppError::BadRequest(v) => v,
            AppError::InternalServerError(v) => v,
        }
    }

    /// An internal server error tagged with the origin of the failure.
    pub fn internal(origin: ErrorOrigin, message: String) -> (r: AppError)
        ensures
            r is InternalServerError,
            r.spec_value().message@ == message@,
            r.spec_value().status == 500,
            r.spec_value().identifier@ == "UNIMPLEMENTED"@,
            r.spec_value().code@ == origin_code(origin),
    {
        let base = AppErrorValue::default();
        AppError::InternalServerError(AppErrorValue {
            message,
            status: 500,
            identifier: base.identifier,
            code: String::from_str(origin.code()),
        })
    }
}

} // verus!
