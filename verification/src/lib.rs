//! Core of a minimal HTTP serving framework: a path-pattern recognizer,
//! a method-keyed route table, a fixed-order middleware pipeline, and a
//! round-robin dispatcher that spreads accepted connections over a fixed
//! pool of workers.

mod app;
mod dispatch;
mod errors;
mod pipeline;
mod recognizer;
mod request;
mod response;
mod router;

pub use app::SapperApp;
pub use app::ServeStep;
pub use app::content_type_for;
pub use app::error_response;
pub use app::plan_response;
pub use app::plan_static_response;
pub use app::static_file_path;
pub use dispatch::DispatchCounter;
pub use errors::Error;
pub use errors::status_of;
pub use recognizer::Pattern;
pub use recognizer::Segment;
pub use recognizer::compile;
pub use recognizer::pattern_match;
pub use pipeline::GlobalInit;
pub use pipeline::SapperAppShell;
pub use pipeline::SapperHandler;
pub use pipeline::SapperModule;
pub use pipeline::StageId;
pub use pipeline::run_pipeline;
pub use request::SapperRequest;
pub use response::SapperResponse;
pub use router::Method;
pub use router::Router;
pub use router::RouterEntry;
pub use router::SapperRouter;
pub use router::TableEntry;
