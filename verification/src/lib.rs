//! A client library for a "top headlines" news HTTP API: it builds the
//! query URL, models the JSON response body, classifies API-level error
//! codes into typed errors, and renders articles for a terminal.
use vstd::prelude::*;

pub mod api;
pub mod json;
pub mod model;
pub mod present;
pub mod urlbuild;

verus! {

pub use crate::api::NewsApi;
pub use crate::model::Article;
pub use crate::model::Country;
pub use crate::model::Endpoint;
pub use crate::model::NewsApiError;
pub use crate::model::NewsApiResponse;

} // verus!
