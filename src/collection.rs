use vstd::prelude::*;
use vstd::string::*;

use crate::client::Client;
use crate::codec::decimal;
use crate::codec::u64_to_text;
use crate::subscription::Subscription;

verus! {

/// A named collection on one server.
#[derive(Clone)]
pub struct Collection {
    name: String,
    client: Client,
}

/// Path of a collection, relative to the server endpoint.
pub open spec fn collection_path(name: Seq<char>, path: Seq<char>) -> Seq<char> {
    "/collection/"@ + name + path
}

impl Collection {
    pub closed spec fn name_spec(&self) -> Seq<char> {
        self.name@
    }

    pub closed spec fn client_spec(&self) -> Client {
        self.client
    }

    /// The URL of `path` below this collection.
    pub open spec fn url_spec(&self, path: Seq<char>) -> Seq<char> {
        self.client_spec().endpoint_spec() + collection_path(self.name_spec(), path)
    }

    pub fn new(client: Client, name: &str) -> (r: Collection)
        ensures
            r.name_spec() == name@,
            r.client_spec() == client,
    {
        Collection { name: name.to_string(), client }
    }

    pub fn name(&self) -> (r: &str)
        ensures
            r@ == self.name_spec(),
    {
        self.name.as_str()
    }

    pub fn client(&self) -> (r: &Client)
        ensures
            *r == self.client_spec(),
    {
        &self.client
    }

    pub fn url(&self, path: &str) -> (r: String)
        ensures
            r@ == self.url_spec(path@),
    {
        let mut p = "/collection/".to_string();
        p.append(self.name.as_str());
        p.append(path);
        proof {
            reveal_strlit("/collection/");
        }
        let r = self.client.url(p.as_str());
        assert(r@ =~= self.url_spec(path@));
        r
    }

    /// Where a named server-side query is posted.
    pub fn query_url(&self, query: &str) -> (r: String)
        ensures
            r@ == self.url_spec("/query/"@ + query@),
    {
        let mut p = "/query/".to_string();
        p.append(query);
        self.url(p.as_str())
    }

    /// Where the next batch of a subscription is pulled from.
    pub fn pull_url(&self, subscription: &str) -> (r: String)
        ensures
            r@ == self.url_spec("/subscription/"@ + subscription@),
    {
        let mut p = "/subscription/".to_string();
        p.append(subscription);
        self.url(p.as_str())
    }

    /// Where a subscription's cursor is acknowledged.
    pub fn ack_url(&self, subscription: &str, cursor: u64) -> (r: String)
        ensures
            r@ == self.url_spec("/subscription/"@ + subscription@ + "/"@ + decimal(cursor as nat)),
    {
        let mut p = "/subscription/".to_string();
        p.append(subscription);
        p.append("/");
        let c = u64_to_text(cursor);
        p.append(c.as_str());
        self.url(p.as_str())
    }

    /// Where the collection's change notifications are streamed.
    pub fn events_url(&self) -> (r: String)
        ensures
            r@ == self.url_spec("/events"@),
    {
        self.url("/events")
    }

    /// A subscription of this collection under the durable name `name`.
    pub fn subscribe(&self, name: &str) -> (r: Subscription)
        ensures
            r.name_spec() == name@,
            r.collection_spec().name_spec() == self.name_spec(),
            r.collection_spec().client_spec().endpoint_spec()
                == self.client_spec().endpoint_spec(),
            r@ == crate::subscription::Engine::initial(),
    {
        Subscription::new(self, name.to_string())
    }
}

} // verus!
