//! The caller-facing handle of the sink: a builder that assembles the
//! configuration, and the writer that accepts records, flushes, resets and
//! shuts down.

use crate::config::Config;
use crate::config::FlexiLoggerError;
use crate::config::RotationConfig;
use crate::config::WriteMode;
use crate::deferred_now::DeferredNow;
use crate::deferred_now::Timestamp;
use crate::directory::Directory;
use crate::filespec::FileSpec;
use crate::parameters::Cleanup;
use crate::parameters::Criterion;
use crate::parameters::Naming;
use crate::state::config_wf;
use crate::state::content_ends_with;
use crate::state::criterion_wf;
use crate::state::Inner;
use crate::state::State;
use vstd::prelude::*;

verus! {

/// The most verbose level the sink accepts.
#[derive(Copy, Clone, Debug, PartialEq, Eq, Structural)]
pub enum LevelFilter {
    /// Accept nothing.
    Off,
    /// Accept errors.
    Error,
    /// Accept warnings and errors.
    Warn,
    /// Accept general information and worse.
    Info,
    /// Accept debugging output and worse.
    Debug,
    /// Accept everything.
    Trace,
}

/// Assembles the configuration of a [`FileLogWriter`].
#[derive(Debug)]
pub struct FileLogWriterBuilder {
    /// Where the files live and how they are named.
    pub file_spec: FileSpec,
    /// Rotation, if the sink rotates.
    pub o_rotation_config: Option<RotationConfig>,
    /// Whether an existing file is appended to rather than truncated.
    pub append: bool,
    /// How bytes reach the file.
    pub write_mode: WriteMode,
    /// Whether retention runs on a dedicated worker.
    pub cleanup_in_background: bool,
    /// The most verbose level the sink accepts.
    pub max_log_level: LevelFilter,
    /// An opaque identifier of the format callable.  The callable itself
    /// lives outside the verified core; the identifier lets `reset` check
    /// that the format stays the same.
    pub format_id: u64,
    /// Whether the path of the log file is announced on standard output.
    pub print_message: bool,
    /// An optional symlink that an executor keeps pointing at the file.
    pub o_create_symlink: Option<String>,
}

impl FileLogWriterBuilder {
    /// A builder for a sink writing into the given namespace: no rotation,
    /// truncating, direct writes.
    pub fn new(file_spec: FileSpec) -> (r: FileLogWriterBuilder)
        ensures
            r.file_spec == file_spec,
            r.o_rotation_config is None,
            !r.append,
            r.write_mode == WriteMode::Direct,
            !r.cleanup_in_background,
            r.format_id == 0,
    {
        FileLogWriterBuilder {
            file_spec,
            o_rotation_config: None,
            append: false,
            write_mode: WriteMode::Direct,
            cleanup_in_background: false,
            max_log_level: LevelFilter::Trace,
            format_id: 0,
            print_message: false,
            o_create_symlink: None,
        }
    }

    /// Rotation with the given criterion, naming scheme and retention.
    pub fn rotate(self, criterion: Criterion, naming: Naming, cleanup: Cleanup) -> (r: Self)
        ensures
            r == (FileLogWriterBuilder {
                o_rotation_config: Some(RotationConfig { criterion, naming, cleanup }),
                ..self
            }),
    {
        FileLogWriterBuilder {
            o_rotation_config: Some(RotationConfig { criterion, naming, cleanup }),
            ..self
        }
    }

    /// Append to an existing active file instead of truncating it.
    pub fn append(self) -> (r: Self)
        ensures
            r == (FileLogWriterBuilder { append: true, ..self }),
    {
        FileLogWriterBuilder { append: true, ..self }
    }

    /// Append or truncate, by the flag.
    pub fn o_append(self, append: bool) -> (r: Self)
        ensures
            r == (FileLogWriterBuilder { append, ..self }),
    {
        FileLogWriterBuilder { append, ..self }
    }

    /// The write mode to use.
    pub fn write_mode(self, write_mode: WriteMode) -> (r: Self)
        ensures
            r == (FileLogWriterBuilder { write_mode, ..self }),
    {
        FileLogWriterBuilder { write_mode, ..self }
    }

    /// Whether retention runs on a dedicated worker.
    pub fn cleanup_in_background_thread(self, use_background_thread: bool) -> (r: Self)
        ensures
            r == (FileLogWriterBuilder { cleanup_in_background: use_background_thread, ..self }),
    {
        FileLogWriterBuilder { cleanup_in_background: use_background_thread, ..self }
    }

    /// The identifier of the format callable.
    pub fn format(self, format_id: u64) -> (r: Self)
        ensures
            r == (FileLogWriterBuilder { format_id, ..self }),
    {
        FileLogWriterBuilder { format_id, ..self }
    }

    /// The configuration this builder denotes.
    pub open spec fn spec_config(self) -> Config {
        Config {
            file_spec: self.file_spec,
            append: self.append,
            write_mode: self.write_mode,
            print_message: self.print_message,
            o_create_symlink: self.o_create_symlink,
        }
    }

    /// The whole-hour UTC offset at which the writer captures the instants
    /// that name rotated files, when timestamp naming is configured.
    pub open spec fn spec_naming_offset(self) -> Option<i8> {
        match self.o_rotation_config {
            Some(rc) => match rc.naming {
                Naming::Timestamps(off) => Some(off),
                Naming::Numbers => None,
            },
            None => None,
        }
    }

    /// Whether the builder holds a workable configuration: a suffix fit
    /// for the rename protocol and retention, in-range ages, and a naming
    /// offset the clock can express.
    pub open spec fn spec_acceptable(self) -> bool {
        &&& config_wf(self.spec_config())
        &&& match self.o_rotation_config {
            Some(rc) => criterion_wf(rc.criterion),
            None => true,
        }
        &&& match self.spec_naming_offset() {
            Some(off) => -25 <= off <= 25,
            None => true,
        }
    }

    /// Whether the builder holds a workable configuration.
    pub fn acceptable(&self) -> (r: bool)
        ensures
            r == self.spec_acceptable(),
    {
        let sfx = self.file_spec.suffix.as_str();
        let n = sfx.unicode_len();
        let mut i: usize = 0;
        let mut ok = true;
        while i < n
            invariant
                0 <= i <= n,
                n == sfx@.len(),
                sfx@ == self.file_spec.suffix@,
                ok == (forall|j: int|
                    0 <= j < i ==> #[trigger] sfx@[j] != '.' && sfx@[j] != '/'),
            decreases n - i,
        {
            let c = sfx.get_char(i);
            if c == '.' || c == '/' {
                ok = false;
            }
            i = i + 1;
        }
        proof {
            reveal_strlit("gz");
            reveal_strlit("zip");
            assert("gz"@ =~= seq!['g', 'z']);
            assert("zip"@ =~= seq!['z', 'i', 'p']);
        }
        let ok = ok && !crate::strutil::str_equal(sfx, "gz") && !crate::strutil::str_equal(
            sfx,
            "zip",
        );
        let ok = ok && match &self.o_rotation_config {
            Some(rc) => match &rc.criterion {
                Criterion::Size(_) => true,
                Criterion::Age(age) => age_acceptable(age),
                Criterion::AgeOrSize(age, _) => age_acceptable(age),
            },
            None => true,
        };
        let ok = ok && match &self.o_rotation_config {
            Some(rc) => match &rc.naming {
                Naming::Timestamps(off) => -25 <= *off && *off <= 25,
                Naming::Numbers => true,
            },
            None => true,
        };
        ok
    }

    /// Builds the writer.  A configuration the rename protocol cannot work
    /// with is refused.
    pub fn try_build(self) -> (r: Result<FileLogWriter, FlexiLoggerError>)
        ensures
            r is Ok <==> self.spec_acceptable(),
            r matches Ok(w) ==> {
                &&& w.state.config == self.spec_config()
                &&& w.state.inner == Inner::Initial(
                    self.o_rotation_config,
                    self.cleanup_in_background,
                )
                &&& w.state.wf()
                &&& w.format_id == self.format_id
                &&& w.max_log_level == self.max_log_level
                &&& w.o_timestamp_offset_hour == self.spec_naming_offset()
            },
            r is Err ==> r == Err::<FileLogWriter, FlexiLoggerError>(FlexiLoggerError::WriterSpec),
    {
        if !self.acceptable() {
            return Err(FlexiLoggerError::WriterSpec);
        }
        let max_log_level = self.max_log_level;
        let format_id = self.format_id;
        let config = Config {
            file_spec: self.file_spec,
            append: self.append,
            write_mode: self.write_mode,
            print_message: self.print_message,
            o_create_symlink: self.o_create_symlink,
        };
        let o_timestamp_offset_hour = match &self.o_rotation_config {
            Some(rc) => match &rc.naming {
                Naming::Timestamps(off) => Some(*off),
                Naming::Numbers => None,
            },
            None => None,
        };
        let state = State::try_new(config, self.o_rotation_config, self.cleanup_in_background);
        Ok(FileLogWriter { state, max_log_level, format_id, o_timestamp_offset_hour })
    }
}

/// The path of the active file under the given configuration.
pub open spec fn spec_open_path_of(config: Config) -> Seq<char> {
    crate::state::spec_open_path(config, true)
}

/// Whether the ages inside are in range.
fn age_acceptable(age: &crate::parameters::Age) -> (r: bool)
    ensures
        r == age.wf(),
{
    match age {
        crate::parameters::Age::EveryNewDay(split) => {
            let h = split.offset_hour();
            proof {
                crate::parameters::SplitAtEveryNewDay::lemma_wf_is_offset_range(*split);
            }
            -25 <= h && h <= 25
        },
        _ => true,
    }
}

/// A log writer that writes to a file or a sequence of files.
#[derive(Debug)]
pub struct FileLogWriter {
    /// The verified state engine.
    pub state: State,
    /// The most verbose level the sink accepts.
    pub max_log_level: LevelFilter,
    /// The opaque identifier of the format callable.
    pub format_id: u64,
    /// With timestamp naming, the whole-hour UTC offset at which the
    /// instants that name rotated files are captured.
    pub o_timestamp_offset_hour: Option<i8>,
}

impl FileLogWriter {
    /// Instantiates a builder for `FileLogWriter`.
    pub fn builder(file_spec: FileSpec) -> (r: FileLogWriterBuilder)
        ensures
            r.file_spec == file_spec,
            r.o_rotation_config is None,
            !r.append,
            r.write_mode == WriteMode::Direct,
            r.format_id == 0,
    {
        FileLogWriterBuilder::new(file_spec)
    }

    /// The identifier of the configured output format callable.
    pub fn format(&self) -> (r: u64)
        ensures
            r == self.format_id,
    {
        self.format_id
    }

    /// The path that is (or would be) the active file.
    pub fn current_filename(&self) -> (r: String)
        ensures
            r@ == self.state.spec_current_path(),
    {
        self.state.current_filename()
    }

    /// The most verbose level the sink accepts.
    pub fn max_log_level(&self) -> (r: LevelFilter)
        ensures
            r == self.max_log_level,
    {
        self.max_log_level
    }

    /// Writes a buffer as it is, without a line ending.
    pub fn plain_write(&mut self, dir: &mut Directory, now: &Timestamp, buffer: &[u8]) -> (r:
        Result<usize, FlexiLoggerError>)
        requires
            old(self).state.wf(),
            old(dir).wf(),
            now.wf(),
            now.year >= 0,
        ensures
            final(self).state.wf(),
            final(dir).wf(),
            final(self).format_id == old(self).format_id,
            final(self).max_log_level == old(self).max_log_level,
            final(self).state.config == old(self).state.config,
            r matches Ok(n) ==> n == buffer@.len() && final(dir).has(
                final(self).state.spec_current_path(),
            ) && content_ends_with(
                final(dir).content(final(self).state.spec_current_path()),
                buffer@,
            ),
            r is Err ==> r == Err::<usize, FlexiLoggerError>(FlexiLoggerError::Io),
            !old(self).state.spec_uses_rotation() ==> r is Ok,
            match old(self).state.inner {
                Inner::Active(Some(rs)) => !crate::state::mount_blocked(
                    rs,
                    *old(dir),
                    old(self).state.config,
                ) ==> r is Ok,
                _ => true,
            },
            match old(self).state.inner {
                Inner::Initial(Some(rc), _) => crate::state::criterion_deterministic(rc.criterion)
                    && rc.cleanup is Never && !crate::state::rotation_blocked(
                    *old(dir),
                    old(self).state.config,
                    rc.naming,
                    *now,
                ) ==> r is Ok,
                _ => true,
            },
            match old(self).state.inner {
                Inner::Initial(Some(rc), _) => r is Ok && !old(self).state.config.append
                    && crate::state::criterion_deterministic(rc.criterion) ==> final(dir).content(
                    crate::state::spec_open_path(old(self).state.config, true),
                ) == buffer@,
                _ => true,
            },
            match old(self).state.inner {
                Inner::Initial(Some(rc), _) => r is Ok && !old(self).state.config.append
                    && crate::state::criterion_deterministic(rc.criterion)
                    ==> crate::state::ordinary_files_untouched(
                    *old(dir),
                    *final(dir),
                    old(self).state.config.file_spec,
                    crate::state::spec_open_path(old(self).state.config, true),
                ),
                _ => true,
            },
            match old(self).state.inner {
                Inner::Initial(Some(rc), _) => r is Ok && !old(self).state.config.append
                    && crate::state::criterion_deterministic(rc.criterion) && rc.cleanup is Never
                    && !old(dir).has(spec_open_path_of(old(self).state.config))
                    ==> crate::state::siblings_untouched(
                    *old(dir),
                    *final(dir),
                    old(self).state.config.file_spec,
                ) && final(dir).file_count() == old(dir).file_count() + 1,
                _ => true,
            },
            match old(self).state.inner {
                Inner::Initial(Some(rc), _) => r is Ok && !old(self).state.config.append
                    && crate::state::criterion_deterministic(rc.criterion) && rc.cleanup is Never
                    && old(dir).has(spec_open_path_of(old(self).state.config)) ==> (match final(self).state.inner {
                    Inner::Active(Some(rs2)) => match rs2.naming_state {
                        crate::state::NamingState::IdxState(s2) => match s2 {
                            crate::state::IdxState::Idx(k2) => crate::state::rotated_to_number_name(
                                *old(dir),
                                *final(dir),
                                old(self).state.config,
                                k2,
                            ),
                            crate::state::IdxState::Start => false,
                        },
                        crate::state::NamingState::CreatedAt
                            => crate::state::rotated_to_timestamp_name(
                            *old(dir),
                            *final(dir),
                            old(self).state.config,
                            *now,
                        ),
                    },
                    _ => false,
                }),
                _ => true,
            },
    {
        match self.state.write_buffer(dir, now, buffer) {
            Ok(()) => Ok(buffer.len()),
            Err(e) => Err(FlexiLoggerError::Io),
        }
    }

    /// Accepts one formatted record: the frontend appends the line ending
    /// and hands the bytes to the state engine.  With timestamp naming a
    /// fresh instant is captured at the configured UTC offset, so rotated
    /// names carry that offset.  An instant before the common era cannot be
    /// rendered into a rotated name, so such a clock reading is refused as
    /// an error.
    pub fn write(&mut self, dir: &mut Directory, now: &mut DeferredNow, record: &[u8]) -> (r:
        Result<(), FlexiLoggerError>)
        requires
            old(self).state.wf(),
            old(dir).wf(),
            match old(now).captured() {
                Some(t) => t.wf() && t.year >= 0,
                None => true,
            },
        ensures
            final(self).state.wf(),
            final(dir).wf(),
            final(self).format_id == old(self).format_id,
            final(self).max_log_level == old(self).max_log_level,
            final(self).state.config == old(self).state.config,
            r is Ok ==> final(dir).has(final(self).state.spec_current_path())
                && content_ends_with(
                final(dir).content(final(self).state.spec_current_path()),
                record@ + seq![10u8],
            ),
            r is Err ==> r == Err::<(), FlexiLoggerError>(FlexiLoggerError::Io),
            (match old(now).captured() {
                Some(t) => t.year >= 0,
                None => false,
            }) && !old(self).state.spec_uses_rotation() ==> r is Ok,
            match (old(now).captured(), old(self).state.inner) {
                (Some(t), Inner::Active(Some(rs))) => t.year >= 0 && !crate::state::mount_blocked(
                    rs,
                    *old(dir),
                    old(self).state.config,
                ) ==> r is Ok,
                _ => true,
            },
            match (old(now).captured(), old(self).state.inner) {
                (Some(t), Inner::Initial(Some(rc), _)) => t.year >= 0
                    && crate::state::criterion_deterministic(rc.criterion) && rc.cleanup is Never
                    && !crate::state::rotation_blocked(
                    *old(dir),
                    old(self).state.config,
                    rc.naming,
                    t,
                ) ==> r is Ok,
                _ => true,
            },
    {
        // the builder refuses offsets the clock cannot express, but the
        // field is public, so a hand-built writer falls back to the local
        // capture
        let ts = match self.o_timestamp_offset_hour {
            Some(off) => if -25 <= off && off <= 25 {
                now.now_with_offset(off)
            } else {
                now.now()
            },
            None => now.now(),
        };
        if ts.year < 0 {
            // an instant before the common era has no rendering here
            return Err(FlexiLoggerError::Io);
        }
        let mut line: Vec<u8> = Vec::new();
        line.extend_from_slice(record);
        line.push(10u8);
        proof {
            assert(line@ =~= record@ + seq![10u8]);
        }
        match self.state.write_buffer(dir, &ts, line.as_slice()) {
            Ok(()) => Ok(()),
            Err(_) => Err(FlexiLoggerError::Io),
        }
    }

    /// Checks the active file: succeeds exactly when it holds one line
    /// per expected triple, in order, each line carrying all three pieces,
    /// and nothing after them.
    pub fn validate_logs<'a>(
        &mut self,
        dir: &mut Directory,
        now: &Timestamp,
        expected: &Vec<(&'a str, &'a str, &'a str)>,
    ) -> (r: bool)
        requires
            old(self).state.wf(),
            old(dir).wf(),
            now.wf(),
            now.year >= 0,
        ensures
            final(self).state.wf(),
            final(dir).wf(),
            final(self).format_id == old(self).format_id,
            final(self).max_log_level == old(self).max_log_level,
            r <==> (final(self).state.inner is Active && final(dir).has(
                final(self).state.spec_current_path(),
            ) && crate::validate::spec_validate(
                final(dir).content(final(self).state.spec_current_path()),
                expected@,
            )),
    {
        self.state.validate_logs(dir, now, expected)
    }

    /// Flushing is the identity here: the model keeps no buffer.
    pub fn flush(&mut self) -> (r: Result<(), FlexiLoggerError>)
        ensures
            *final(self) == *old(self),
            r == Ok::<(), FlexiLoggerError>(()),
    {
        self.state.flush()
    }

    /// Releases the retention worker and flushes.  A second call finds
    /// nothing left to do.
    pub fn shutdown(&mut self)
        ensures
            final(self).state == crate::state::spec_shutdown(old(self).state),
            final(self).format_id == old(self).format_id,
            final(self).max_log_level == old(self).max_log_level,
    {
        self.state.shutdown()
    }

    /// Replaces parts of the configuration.  Permissible exactly when the
    /// new builder declares the same write mode and the same format
    /// callable; the retention worker is released and the sink starts over
    /// with the new configuration, so later writes land on the new file.
    pub fn reset(&mut self, flwb: FileLogWriterBuilder) -> (r: Result<(), FlexiLoggerError>)
        requires
            old(self).state.wf(),
        ensures
            final(self).state.wf(),
            r is Ok <==> flwb.write_mode == old(self).state.config.write_mode && flwb.format_id
                == old(self).format_id && flwb.spec_acceptable(),
            r is Err ==> *final(self) == *old(self),
            !(flwb.write_mode == old(self).state.config.write_mode && flwb.format_id == old(
                self,
            ).format_id) ==> r == Err::<(), FlexiLoggerError>(FlexiLoggerError::Reset),
            flwb.write_mode == old(self).state.config.write_mode && flwb.format_id == old(
                self,
            ).format_id && !flwb.spec_acceptable() ==> r == Err::<(), FlexiLoggerError>(
                FlexiLoggerError::WriterSpec,
            ),
            r is Ok ==> final(self).state.config == flwb.spec_config()
                && final(self).state.inner == Inner::Initial(
                flwb.o_rotation_config,
                flwb.cleanup_in_background,
            ) && final(self).format_id == old(self).format_id && final(self).max_log_level
                == flwb.max_log_level && final(self).o_timestamp_offset_hour
                == flwb.spec_naming_offset(),
    {
        let same_mode = match (&flwb.write_mode, &self.state.config.write_mode) {
            (WriteMode::Direct, WriteMode::Direct) => true,
            (WriteMode::BufferAndFlushWith(a1, b1), WriteMode::BufferAndFlushWith(a2, b2)) => a1
                == a2 && b1 == b2,
            (WriteMode::BufferDontFlushWith(a1), WriteMode::BufferDontFlushWith(a2)) => a1 == a2,
            (
                WriteMode::AsyncWith {
                    bufsize: b1,
                    pool_capa: p1,
                    message_capa: m1,
                    flush_interval: f1,
                },
                WriteMode::AsyncWith {
                    bufsize: b2,
                    pool_capa: p2,
                    message_capa: m2,
                    flush_interval: f2,
                },
            ) => b1 == b2 && p1 == p2 && m1 == m2 && f1 == f2,
            _ => false,
        };
        if !same_mode || flwb.format_id != self.format_id {
            return Err(FlexiLoggerError::Reset);
        }
        let max_log_level = flwb.max_log_level;
        match flwb.try_build() {
            Ok(new_writer) => {
                self.state.shutdown();
                self.state = new_writer.state;
                self.max_log_level = max_log_level;
                self.o_timestamp_offset_hour = new_writer.o_timestamp_offset_hour;
                Ok(())
            },
            Err(_) => Err(FlexiLoggerError::WriterSpec),
        }
    }
}

} // verus!
