//! The errors of the service layer and of the web API, and how the one
//! becomes the other.
use vstd::prelude::*;
use crate::text::{chars_of, concat_chars, int_text, int_to_text, string_from_chars};

verus! {

#[verifier::external_type_specification]
#[verifier::external_body]
pub struct ExDbErr(sea_orm::DbErr);

/// The text of a database error, from its `Display`.
///
/// Trusted, with nothing promised of the text: `sea_orm` writes the
/// underlying driver's message.
#[verifier::external_body]
fn db_error_text(e: &sea_orm::DbErr) -> (res: String) {
    e.to_string()
}

/// The service layer's errors.
pub enum ServiceError {
    NotFound(String),
    Validation(String),
    Database(sea_orm::DbErr),
    Conflict(String),
    IpGeo(String),
    Application(String),
    Unauthorized(String),
}

/// `a` followed by `b`.
fn concat2(a: &str, b: &str) -> (res: String)
    ensures
        res@ == a@ + b@,
{
    let x = chars_of(a);
    let y = chars_of(b);
    let all = concat_chars(&x, &y);
    string_from_chars(&all)
}

impl ServiceError {
    /// "`resource` `id` not found".
    pub fn not_found(resource: &str, id: i64) -> (res: ServiceError)
        ensures
            res matches ServiceError::NotFound(m) && m@ == resource@ + seq![' '] + int_text(
                id as int,
            ) + " not found"@,
    {
        let r = chars_of(resource);
        let mut sp: Vec<char> = Vec::new();
        sp.push(' ');
        let n = int_to_text(id);
        let tail = chars_of(" not found");
        let a = concat_chars(&r, &sp);
        let b = concat_chars(&a, &n);
        let c = concat_chars(&b, &tail);
        assert(sp@ =~= seq![' ']);
        ServiceError::NotFound(string_from_chars(&c))
    }

    /// A validation failure with `msg`.
    pub fn validation(msg: String) -> (res: ServiceError)
        ensures
            res matches ServiceError::Validation(m) && m@ == msg@,
    {
        ServiceError::Validation(msg)
    }

    /// A conflict with `msg`.
    pub fn conflict(msg: String) -> (res: ServiceError)
        ensures
            res matches ServiceError::Conflict(m) && m@ == msg@,
    {
        ServiceError::Conflict(msg)
    }

    /// The error's text. For a database error the driver's message follows
    /// the label, and nothing is stated of it.
    pub fn message(&self) -> (res: String)
        ensures
            match self {
                ServiceError::NotFound(m) => res@ == "Resource not found: "@ + m@,
                ServiceError::Validation(m) => res@ == "Validation failed: "@ + m@,
                ServiceError::Database(_) => res@.len() >= "Database error: "@.len()
                    && res@.subrange(0, "Database error: "@.len() as int) == "Database error: "@,
                ServiceError::Conflict(m) => res@ == "Conflict: "@ + m@,
                ServiceError::IpGeo(m) => res@ == "IP geo service error: "@ + m@,
                ServiceError::Application(m) => res@ == "Application error: "@ + m@,
                ServiceError::Unauthorized(m) => res@ == "Unauthorized: "@ + m@,
            },
    {
        match self {
            ServiceError::NotFound(m) => concat2("Resource not found: ", m.as_str()),
            ServiceError::Validation(m) => concat2("Validation failed: ", m.as_str()),
            ServiceError::Database(e) => {
                let t = db_error_text(e);
                let r = concat2("Database error: ", t.as_str());
                assert(r@.subrange(0, "Database error: "@.len() as int) =~= "Database error: "@);
                r
            },
            ServiceError::Conflict(m) => concat2("Conflict: ", m.as_str()),
            ServiceError::IpGeo(m) => concat2("IP geo service error: ", m.as_str()),
            ServiceError::Application(m) => concat2("Application error: ", m.as_str()),
            ServiceError::Unauthorized(m) => concat2("Unauthorized: ", m.as_str()),
        }
    }
}

/// The check before a machine is created under `name`: no machine may have
/// it already.
pub fn check_machine_name_free(taken: bool, name: &str) -> (res: Result<(), ServiceError>)
    ensures
        !taken ==> res is Ok,
        taken ==> (res matches Err(ServiceError::Conflict(m)) && m@ == "Machine with name '"@
            + name@ + "' already exists"@),
{
    if taken {
        let a = concat2("Machine with name '", name);
        Err(ServiceError::Conflict(concat2(a.as_str(), "' already exists")))
    } else {
        Ok(())
    }
}

/// The check before a record is changed or removed: it must exist, or the
/// error names it.
pub fn check_found(found: bool, resource: &str, id: i64) -> (res: Result<(), ServiceError>)
    ensures
        found ==> res is Ok,
        !found ==> (res matches Err(ServiceError::NotFound(m)) && m@ == resource@ + seq![' ']
            + int_text(id as int) + " not found"@),
{
    if found {
        Ok(())
    } else {
        Err(ServiceError::not_found(resource, id))
    }
}

/// The web API's errors.
pub enum ApiError {
    NotFound(String),
    DatabaseError(String),
    ValidationError(String),
    Unauthorized,
    Conflict(String),
}

/// The HTTP status an API error is answered with, and the message in the
/// body: database errors are not shown to the client.
pub open spec fn api_response(e: ApiError) -> (u16, Seq<char>) {
    match e {
        ApiError::NotFound(m) => (404, m@),
        ApiError::DatabaseError(_) => (500, "Internal server error"@),
        ApiError::ValidationError(m) => (400, m@),
        ApiError::Unauthorized => (401, "Unauthorized"@),
        ApiError::Conflict(m) => (409, m@),
    }
}

/// The check before a target is created: no target may have its name
/// already.
pub fn check_target_name_free(taken: bool) -> (res: Result<(), ApiError>)
    ensures
        !taken ==> res is Ok,
        taken ==> (res matches Err(ApiError::Conflict(m)) && m@
            == "Target with this name already exists"@),
{
    if taken {
        Err(ApiError::Conflict("Target with this name already exists".to_string()))
    } else {
        Ok(())
    }
}

impl ApiError {
    /// The API error a service error is reported as.
    pub fn from_service_error(e: ServiceError) -> (res: ApiError)
        ensures
            match e {
                ServiceError::NotFound(m) => res matches ApiError::NotFound(r) && r@ == m@,
                ServiceError::Validation(m) => res matches ApiError::ValidationError(r) && r@
                    == m@,
                ServiceError::Database(_) => res is DatabaseError,
                ServiceError::Conflict(m) => res matches ApiError::Conflict(r) && r@ == m@,
                ServiceError::IpGeo(m) => res matches ApiError::DatabaseError(r) && r@ == m@,
                ServiceError::Application(m) => res matches ApiError::ValidationError(r) && r@
                    == m@,
                ServiceError::Unauthorized(_) => res is Unauthorized,
            },
    {
        match e {
            ServiceError::NotFound(m) => ApiError::NotFound(m),
            ServiceError::Validation(m) => ApiError::ValidationError(m),
            ServiceError::Database(d) => ApiError::DatabaseError(db_error_text(&d)),
            ServiceError::Conflict(m) => ApiError::Conflict(m),
            ServiceError::IpGeo(m) => ApiError::DatabaseError(m),
            ServiceError::Application(m) => ApiError::ValidationError(m),
            ServiceError::Unauthorized(_) => ApiError::Unauthorized,
        }
    }

    /// The API error a database error is reported as.
    pub fn from_db_error(e: &sea_orm::DbErr) -> (res: ApiError)
        ensures
            res is DatabaseError,
    {
        ApiError::DatabaseError(db_error_text(e))
    }

    /// The status and body message of the response.
    pub fn response(&self) -> (res: (u16, String))
        ensures
            res.0 == api_response(*self).0,
            res.1@ == api_response(*self).1,
    {
        match self {
            ApiError::NotFound(m) => (404, m.clone()),
            ApiError::DatabaseError(_) => (500, "Internal server error".to_string()),
            ApiError::ValidationError(m) => (400, m.clone()),
            ApiError::Unauthorized => (401, "Unauthorized".to_string()),
            ApiError::Conflict(m) => (409, m.clone()),
        }
    }

    /// The error's text.
    pub fn message(&self) -> (res: String)
        ensures
            match self {
                ApiError::NotFound(m) => res@ == "Not found: "@ + m@,
                ApiError::DatabaseError(m) => res@ == "Database error: "@ + m@,
                ApiError::ValidationError(m) => res@ == "Validation error: "@ + m@,
                ApiError::Unauthorized => res@ == "Unauthorized"@,
                ApiError::Conflict(m) => res@ == "Conflict: "@ + m@,
            },
    {
        match self {
            ApiError::NotFound(m) => concat2("Not found: ", m.as_str()),
            ApiError::DatabaseError(m) => concat2("Database error: ", m.as_str()),
            ApiError::ValidationError(m) => concat2("Validation error: ", m.as_str()),
            ApiError::Unauthorized => "Unauthorized".to_string(),
            ApiError::Conflict(m) => concat2("Conflict: ", m.as_str()),
        }
    }
}

} // verus!
