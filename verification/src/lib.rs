//! Run-directory lifecycle and crash-archival subsystem.
//!
//! Every process invocation owns a run directory inside a shared container
//! directory.  An advisory file lock distinguishes directories of live
//! processes from abandoned ones, a completion report records how a run
//! ended, crash dumps are preserved as evidence, old finished runs are
//! reclaimed under a retention cap, and selected run directories can be
//! bundled into a single zip archive for diagnostics.
//!
//! The modules here hold the decision logic and the data model, verified;
//! the surrounding process performs the actual filesystem operations and
//! mirrors them in this model.

pub mod archive;
pub mod container;
pub mod context;
pub mod crash;
pub mod lock;
pub mod logging;
pub mod proc_dir;
pub mod run_dir;
pub mod stamp;
pub mod text;
