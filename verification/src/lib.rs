//! The core of a multi-connection HTTP download engine, stated as contracts
//! and proved.
//!
//! Given an address and a destination, the engine probes the resource,
//! splits it into byte ranges, fetches the ranges at once with retry and
//! cancellation, writes them to scratch files, assembles these into the
//! output, and tells observers how far it is. This library holds every
//! decision that the engine takes: which ranges are planned, what a fetch
//! does next, what a response means, how the outcomes change the job, in
//! which order the scratch files are put together, and what the observers
//! are told. The requests, the files and the tasks are the caller's.
//!
//! - `types`: the wire types and the errors.
//! - `planner`: the ranges of a resource, by halving.
//! - `fetch`: the range fetcher as a state machine; `content`: what it puts
//!   on disk.
//! - `probe`, `disposition`, `headers`: what is asked of the origin and what
//!   its answers mean.
//! - `strategy`, `job`, `assembly`: a job from probe to output.
//! - `progress`: the ledger of the aggregator and what observers are told.
//! - `sanitizer`, `mime`, `paths`, `units`, `text`: names, media types,
//!   paths, amounts and text.
//! - `bridge`, `desktop`: the rules of the bridge to the browser and of the
//!   desktop window.

pub mod assembly;
pub mod bridge;
pub mod content;
pub mod desktop;
pub mod disposition;
pub mod fetch;
pub mod headers;
pub mod job;
pub mod mime;
pub mod paths;
pub mod planner;
pub mod probe;
pub mod progress;
pub mod sanitizer;
pub mod strategy;
pub mod text;
pub mod types;
pub mod units;
