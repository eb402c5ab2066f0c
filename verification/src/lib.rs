//! Ahead-of-time generation of parameterised pages, with an on-demand fallback.
//!
//! A route template with named slots is expanded over a parameter domain; each
//! candidate is driven through a fetch, an error boundary and a renderer, and
//! the documents that result are kept as artifacts keyed by their path. At
//! request time a dispatcher serves an artifact where one exists and renders on
//! demand where none does.

pub mod boundary;
pub mod candidates;
pub mod catalogue;
pub mod dispatch;
pub mod domain;
pub mod error;
pub mod generate;
pub mod limiter;
pub mod prefetch;
pub mod render;
pub mod resource;
pub mod route;
pub mod store;
pub mod text;

pub use boundary::{render_page, respond, BookPageParams, Invocation, RenderState, Step};
pub use candidates::{candidates, count_candidates};
pub use catalogue::Catalogue;
pub use dispatch::{dispatch, handle, Dispatch, Response, Source};
pub use domain::{domain_for, list_book_ids, ParameterDomain};
pub use error::{BookPageError, ServerErrorPolicy};
pub use generate::{generate, generate_one, GenerationFailure, GenerationReport};
pub use limiter::{Admission, Limiter, Throttle};
pub use prefetch::{Advance, Prefetch};
pub use render::render;
pub use resource::{Demand, Lookup, ResourceCell};
pub use route::{ResolvedParams, RouteTemplate, Segment, TemplateError};
pub use store::{Artifact, ArtifactStore};
