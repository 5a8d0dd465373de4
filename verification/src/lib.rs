pub mod gateway;
pub mod json;
pub mod media;
pub mod reasoning;
pub mod request;
pub mod response;
pub mod roles;
pub mod stream;
pub mod text;

use vstd::prelude::*;

verus! {

/// Immutable per-process configuration handed to every request handler.
#[derive(Clone)]
pub struct AppState {
    pub upstream_url: String,
    pub markdown_thought: bool,
}

impl AppState {
    pub fn new(upstream_url: String, markdown_thought: bool) -> (r: AppState)
        ensures
            r.upstream_url == upstream_url,
            r.markdown_thought == markdown_thought,
    {
        AppState { upstream_url, markdown_thought }
    }
}

} // verus!
