//! Middlewares whose behaviour is plain data; the chain that runs them is
//! `runtime::MiddlewareChain`.
use vstd::prelude::*;
use vstd::string::StringExecFns;
use crate::error::Error;

verus! {

/// Stamps CORS headers; it never fails a request.
pub struct CorsMiddleware {
    pub allow_origins: Vec<String>,
    pub allow_methods: Vec<String>,
    pub allow_headers: Vec<String>,
}

impl CorsMiddleware {
    /// Any origin; `GET` and `POST`; `Content-Type` and `Authorization`.
    pub fn new() -> (r: CorsMiddleware)
        ensures
            r.allow_origins@.len() == 1 && r.allow_origins@[0]@ == "*"@,
            r.allow_methods@.len() == 2 && r.allow_methods@[0]@ == "GET"@ && r.allow_methods@[1]@ == "POST"@,
            r.allow_headers@.len() == 2 && r.allow_headers@[0]@ == "Content-Type"@
                && r.allow_headers@[1]@ == "Authorization"@,
    {
        let mut allow_origins: Vec<String> = Vec::new();
        allow_origins.push(String::from_str("*"));
        let mut allow_methods: Vec<String> = Vec::new();
        allow_methods.push(String::from_str("GET"));
        allow_methods.push(String::from_str("POST"));
        let mut allow_headers: Vec<String> = Vec::new();
        allow_headers.push(String::from_str("Content-Type"));
        allow_headers.push(String::from_str("Authorization"));
        CorsMiddleware { allow_origins, allow_methods, allow_headers }
    }

    /// The outcome of the middleware on a request: it lets every request on.
    pub fn call(&self) -> (r: Result<(), Error>)
        ensures
            r is Ok,
    {
        Ok(())
    }
}

/// Records each request; it never fails a request.
pub struct LoggingMiddleware;

impl LoggingMiddleware {
    /// The outcome of the middleware on a request: it lets every request on.
    pub fn call(&self) -> (r: Result<(), Error>)
        ensures
            r is Ok,
    {
        Ok(())
    }
}

/// The decision of an authorisation middleware: a request passes when its
/// `authorization` header is present, readable as text, and accepted by the
/// validator; otherwise it is rejected as unauthorised.
pub fn authorize(token: Option<&str>, accepted: bool) -> (r: Result<(), Error>)
    ensures
        r is Ok <==> (token is Some && accepted),
        r is Err ==> r->Err_0 == Error::Unauthorized(r->Err_0->Unauthorized_0)
            && r->Err_0->Unauthorized_0@ == "Invalid or missing authorization"@,
{
    match token {
        Some(_) => if accepted {
            return Ok(());
        },
        None => {},
    }
    Err(Error::Unauthorized(String::from_str("Invalid or missing authorization")))
}

} // verus!
