use crate::config::EnvironmentContext;
use crate::parser::RequestDefinition;
use vstd::prelude::*;

verus! {

/// What one execution runs with: a preview size, the resolved
/// environment, and where response bodies go.
pub struct ExecutionOptions {
    pub preview_bytes: Option<usize>,
    pub environment: EnvironmentContext,
    pub response_output_dir: Option<String>,
}

/// The request side of an execution report.
#[derive(Debug)]
pub struct RequestSummary {
    pub method: String,
    pub url: String,
    pub body_bytes: Option<usize>,
}

impl RequestSummary {
    /// The summary of a parsed request: its method, URL and body size.
    pub fn of_request(request: &RequestDefinition) -> (r: RequestSummary)
        ensures
            r.method@ == request@.method,
            r.url@ == request@.url,
            match r.body_bytes {
                Some(n) => request@.body_bytes == Some(n as int),
                None => request@.body_bytes is None,
            },
    {
        RequestSummary {
            method: request.method.clone(),
            url: request.url.clone(),
            body_bytes: match request.body_bytes {
                Some(n) => Some(n),
                None => None,
            },
        }
    }
}

} // verus!
