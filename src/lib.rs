//! A parallel build scheduler: a dependency queue keyed by (package, stage),
//! a freshness lattice propagated along its edges, and the pump that turns
//! completion events into dispatch decisions.

mod build_targets;
mod dependency_queue;
mod file_filter;
mod freshness;
mod graph;
mod job_queue;
mod path_source;

pub use build_targets::{BuildTargets, Target};
pub use dependency_queue::DependencyQueue;
pub use file_filter::{kept_by, FileFilter, Glob};
pub use freshness::Freshness;
pub use graph::{
    dependencies, self_edge, DependencyDecl, GraphError, Key, Package, PackageId, PackageSet, Resolve,
    TargetStage,
};
pub use path_source::{PathSource, SourceError, SourceId};
pub use job_queue::{Completion, Dispatch, JobQueue, JobQueueError, PendingBuild, StatusLine};
