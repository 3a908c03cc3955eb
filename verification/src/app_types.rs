//! Response envelope shared by the request handlers around the engine.

use vstd::prelude::*;

verus! {

/// A response body carrying either data or an error description; the
/// transport layer serializes it for the wire.
#[derive(Debug)]
pub struct JsonResponse<T, E> {
    data: T,
    error: E,
}

impl<T, E> JsonResponse<T, E> {
    /// The data part of the response.
    pub closed spec fn spec_data(&self) -> &T {
        &self.data
    }

    /// The error part of the response.
    pub closed spec fn spec_error(&self) -> &E {
        &self.error
    }

    pub fn new(data: T, error: E) -> (r: JsonResponse<T, E>)
        ensures
            *r.spec_data() == data,
            *r.spec_error() == error,
    {
        JsonResponse { data, error }
    }

    /// Hands the data and the error back to the caller.
    pub fn into_parts(self) -> (r: (T, E))
        ensures
            r.0 == *self.spec_data(),
            r.1 == *self.spec_error(),
    {
        (self.data, self.error)
    }
}

} // verus!
