//! Recursive unpacking of nested archives: the engine behind the window.
//!
//! A directory is scanned for archives, each archive is unpacked into a
//! directory of its own below an output root, and what was unpacked is scanned
//! in turn, layer by layer, until a layer holds no archive.
//!
//! The crate holds the rules of the engine as state machines over plain
//! values. Walking through directories, running the extraction tool and
//! drawing the window are left to the program built around it: it tells the
//! engine what has happened, and the engine says what to do next.

pub mod error;
pub mod extract;
pub mod layer;
pub mod name;
pub mod number;
pub mod path;
pub mod path_laws;
pub mod progress;
pub mod protocol;
pub mod rebase;
pub mod run;
pub mod scan;
pub mod session;
pub mod text;

pub use crate::error::Error;
pub use crate::extract::{unzip_file, unzip_outcome, ToolCommand};
pub use crate::layer::{ZipFile, ZipFileHandleState, ZipFiles, ZipsHandleState};
pub use crate::path::FilePath;
pub use crate::progress::Progress;
pub use crate::rebase::{change_path_root, output_dir_of};
pub use crate::run::{run_zip_dir, unzip_dir, ExtractJob, LayerRun, RunAction, RunEvent, RunPhase};
pub use crate::scan::{collect_compressed_files_in_dir, is_compressed_file, WalkItem};
pub use crate::session::{Message, Notice, State, ZipDive};
