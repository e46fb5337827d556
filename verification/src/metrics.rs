use vstd::prelude::*;

verus! {

/// What the server answered to one request, with timestamps relative to the run's start.
#[derive(Debug, Clone)]
pub struct RawRequestResult {
    pub request_id: u64,
    pub start_time_ns: u64,
    pub first_token_time_ns: u64,
    pub end_time_ns: u64,
    pub num_input_tokens: u32,
    pub num_output_tokens: u32,
    pub reasoning_tokens: u32,
    pub error: Option<RequestError>,
}

/// A failed request: the HTTP status (0 where no status came back) and a message.
#[derive(Debug, Clone)]
pub struct RequestError {
    pub code: u16,
    pub message: String,
}

impl RawRequestResult {
    /// The record of a request that failed with `error`; it has no timings but its start.
    pub fn failed(request_id: u64, start_time_ns: u64, error: RequestError) -> (res: Self)
        ensures
            res == (RawRequestResult {
                request_id,
                start_time_ns,
                first_token_time_ns: 0,
                end_time_ns: 0,
                num_input_tokens: 0,
                num_output_tokens: 0,
                reasoning_tokens: 0,
                error: Some(error),
            }),
    {
        RawRequestResult {
            request_id,
            start_time_ns,
            first_token_time_ns: 0,
            end_time_ns: 0,
            num_input_tokens: 0,
            num_output_tokens: 0,
            reasoning_tokens: 0,
            error: Some(error),
        }
    }
}

} // verus!
