use vstd::prelude::*;
use vstd::string::*;

use crate::collection::Collection;
use crate::DEFAULT_ENDPOINT;

verus! {

/// Connection settings for one sonar server.
#[derive(Clone)]
pub struct Client {
    endpoint: String,
}

impl Client {
    /// The base URL that every request path is appended to.
    pub closed spec fn endpoint_spec(&self) -> Seq<char> {
        self.endpoint@
    }

    pub fn new(endpoint: &str) -> (r: Client)
        ensures
            r.endpoint_spec() == endpoint@,
    {
        Client { endpoint: endpoint.to_string() }
    }

    pub fn endpoint(&self) -> (r: &str)
        ensures
            r@ == self.endpoint_spec(),
    {
        self.endpoint.as_str()
    }

    /// The full URL of `path` on this server.
    pub fn url(&self, path: &str) -> (r: String)
        ensures
            r@ == self.endpoint_spec() + path@,
    {
        let mut r = self.endpoint.as_str().to_string();
        r.append(path);
        r
    }

    pub fn collection(&self, name: &str) -> (r: Collection)
        ensures
            r.name_spec() == name@,
            r.client_spec().endpoint_spec() == self.endpoint_spec(),
    {
        Collection::new(self.copy(), name)
    }

    /// A second handle on the same server.
    pub(crate) fn copy(&self) -> (r: Client)
        ensures
            r.endpoint_spec() == self.endpoint_spec(),
    {
        Client::new(self.endpoint.as_str())
    }
}

impl Default for Client {
    fn default() -> (r: Client)
        ensures
            r.endpoint_spec() == DEFAULT_ENDPOINT@,
    {
        Client::new(DEFAULT_ENDPOINT)
    }
}

} // verus!
