pub mod client;
pub mod codec;
pub mod collection;
pub mod schema;
pub mod subscription;

pub use client::Client;
pub use collection::Collection;
pub use subscription::Subscription;

use vstd::prelude::*;

verus! {

/// The server endpoint a `Client` talks to unless told otherwise.
pub const DEFAULT_ENDPOINT: &'static str = "http://localhost:9191/api";

} // verus!
