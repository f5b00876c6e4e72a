//! Write modes, the sink's configuration bundle, and the error kinds the
//! sink reports.

use crate::filespec::FileSpec;
use crate::parameters::Cleanup;
use crate::parameters::Criterion;
use crate::parameters::Naming;
use vstd::prelude::*;

verus! {

/// How the sink hands bytes to the file.
///
/// `Direct` writes through; the buffering modes wrap the file in a buffered
/// writer; `AsyncWith` moves writing to a dedicated consumer fed through a
/// bounded pool of message buffers.  All sizes are in bytes, the flush
/// intervals in milliseconds.
#[derive(Copy, Clone, Debug, PartialEq, Eq, Structural)]
pub enum WriteMode {
    /// Every write goes straight to the file.
    Direct,
    /// Buffer with the given capacity; a background flush runs at the given
    /// interval.
    BufferAndFlushWith(usize, u64),
    /// Buffer with the given capacity and never flush on a timer.
    BufferDontFlushWith(usize),
    /// Writes travel through a bounded queue to one consumer.
    AsyncWith {
        /// Capacity of the buffered writer around the file.
        bufsize: usize,
        /// Number of pooled message buffers.
        pool_capa: usize,
        /// Initial capacity of each message buffer.
        message_capa: usize,
        /// Interval of timed flushes.
        flush_interval: u64,
    },
}

impl WriteMode {
    /// The buffer capacity around the file, if the mode buffers.
    pub fn buffersize(&self) -> (r: Option<usize>)
        ensures
            r == self.spec_buffersize(),
    {
        match self {
            WriteMode::Direct => None,
            WriteMode::BufferAndFlushWith(n, _) => Some(*n),
            WriteMode::BufferDontFlushWith(n) => Some(*n),
            WriteMode::AsyncWith { bufsize, pool_capa: _, message_capa: _, flush_interval: _ } => {
                Some(*bufsize)
            },
        }
    }

    /// The buffer capacity around the file, if the mode buffers.
    pub open spec fn spec_buffersize(self) -> Option<usize> {
        match self {
            WriteMode::Direct => None,
            WriteMode::BufferAndFlushWith(n, _) => Some(n),
            WriteMode::BufferDontFlushWith(n) => Some(n),
            WriteMode::AsyncWith { bufsize, pool_capa: _, message_capa: _, flush_interval: _ } => {
                Some(bufsize)
            },
        }
    }
}

/// The rotation part of the configuration.
#[derive(Clone, Debug)]
pub struct RotationConfig {
    /// Rotation is due when this criterion holds.
    pub criterion: Criterion,
    /// How rotated files are named.
    pub naming: Naming,
    /// What becomes of old rotated files.
    pub cleanup: Cleanup,
}

/// The sink's configuration.
#[derive(Clone, Debug)]
pub struct Config {
    /// Where the files live and how they are named.
    pub file_spec: FileSpec,
    /// Whether an existing file is appended to rather than truncated.
    pub append: bool,
    /// How bytes reach the file.
    pub write_mode: WriteMode,
    /// Whether the path of the log file is announced on standard output.
    pub print_message: bool,
    /// An optional symlink that an executor keeps pointing at the file.
    pub o_create_symlink: Option<String>,
}

/// The kinds of error the sink reports.
#[derive(Copy, Clone, Debug, PartialEq, Eq, Structural)]
pub enum FlexiLoggerError {
    /// Opening, writing, renaming or removing a file failed.
    Io,
    /// Reconfiguration was attempted with an incompatible write mode or
    /// format function.
    Reset,
    /// A concurrency primitive was observed in a broken state.
    Poison,
    /// A recoverable file-level issue; the next record retries.
    LogFile,
    /// The format callable failed; the record is dropped.
    Format,
    /// The sink is misconfigured.
    WriterSpec,
}

} // verus!
