//! Decisions of a recursive file finder.
//!
//! A directory walker reads one directory at a time and hands over the batch
//! of its children. For each batch the finder decides which sub-directories
//! the walker may descend into (the skip step) and which files stay in the
//! listing (the filter step), and what to do about children that could not
//! be read. When the walk is over, the finder picks the paths of the files
//! out of everything the walker emitted.
//!
//! The crate holds those decisions and nothing else: it never touches the
//! file system. Whoever drives the walker
//!
//! 1. resolves the directory to start from with [`FileFinderConfig::root`],
//! 2. turns each batch of the walker's results into [`Child`] values, calls
//!    [`FileFinderConfig::process_read_dir`] on it, shows the notices that
//!    come back or gives up on the error, and hands the batch back to the
//!    walker,
//! 3. gathers what the walker emits and calls [`collect_files`].
//!
//! The modules: [`config`] holds the configuration and its predicates,
//! [`entry`] the children of a directory as the finder sees them,
//! [`read_dir`] the two steps, [`collect`] the result, [`report`] what is
//! said about read errors, and [`laws`] what holds of all of it.

pub mod collect;
pub mod config;
pub mod entry;
pub mod laws;
pub mod read_dir;
pub mod report;

pub use collect::collect_files;
pub use config::{ErrorBehavior, FileFinderConfig};
pub use entry::{Child, DirEntry, EntryKind, ReadError};
pub use read_dir::first_read_error;
pub use report::{Notice, Step, TraversalError};
