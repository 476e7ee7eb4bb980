//! The HTTP client shell. The client's networking (host resolution, socket
//! I/O) lives outside this library; only the value type is defined here.

use vstd::prelude::*;

verus! {

/// A stateless handle from which HTTP requests are issued.
#[derive(PartialEq, Eq, Structural)]
pub struct HttpClient {}

impl HttpClient {
    /// Constructs a client; the client holds no state.
    pub fn new() -> (r: Self)
        ensures
            r == (HttpClient {  }),
    {
        Self {  }
    }
}

impl Default for HttpClient {
    /// The default client is the one `new` constructs.
    fn default() -> (r: Self)
        ensures
            r == (HttpClient {  }),
    {
        Self::new()
    }
}

} // verus!
