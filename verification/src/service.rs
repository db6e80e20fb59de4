//! Shared state of the routing service.

use vstd::prelude::*;

verus! {

/// State shared by the routes of a host (it carries nothing yet).
#[derive(Debug, Clone)]
pub struct AppState {}

} // verus!
