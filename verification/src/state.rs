//! The state engine of the sink: lazy initialization, the rotation policy
//! check, and the rename protocol that moves the active file aside and
//! reopens a fresh one, all over the verified directory model.

use crate::cleanup::remove_or_compress_too_old_logfiles_impl;
use crate::cleanup::suffix_fit_for_retention;
use crate::config::Config;
use crate::config::FlexiLoggerError;
use crate::config::RotationConfig;
use crate::deferred_now::now_as_year_month_day_number;
use crate::deferred_now::Timestamp;
use crate::directory::untouched_except;
use crate::directory::untouched_except_pair;
use crate::directory::Directory;
use crate::filespec::current_infix;
use crate::filespec::current_infix_str;
use crate::filespec::number_infix;
use crate::filespec::spec_number_infix;
use crate::filespec::spec_restart_suffix;
use crate::filespec::spec_timestamp_infix;
use crate::filespec::timestamp_infix;
use crate::filespec::push_restart_suffix;
use crate::filespec::FileSpec;
use crate::parameters::Age;
use crate::parameters::Cleanup;
use crate::parameters::Criterion;
use crate::parameters::Naming;
use crate::siblings::idx_of_name;
use crate::siblings::idx_of_name_exec;
use crate::siblings::list_of_log_and_compressed_files;
use crate::siblings::matches_any_rotated;
use crate::siblings::matches_rotated;
use crate::siblings::views;
use crate::strutil::lemma_last_marker_with_digits;
use crate::strutil::lemma_parse_padded_roundtrip;
use crate::strutil::padded_digits;
use crate::strutil::parse_u32_or_zero;
use crate::strutil::parse_u32_or_zero_exec;
use crate::strutil::spec_starts_with;
use crate::strutil::starts_with;
use crate::strutil::stem_of;
use crate::strutil::stem_of_exec;
use vstd::prelude::*;

verus! {

broadcast use crate::directory::lemma_has_names;

/// The highest index a rotated numbered file has taken so far.
#[derive(Copy, Clone, Debug, PartialEq, Eq, Structural)]
pub enum IdxState {
    /// No rotated numbered file exists yet.
    Start,
    /// The highest index among the rotated numbered files.
    Idx(u32),
}

/// What the rename protocol needs to remember between rotations.
#[derive(Debug)]
pub enum NamingState {
    /// Timestamp naming: the rotated name comes from the active file's
    /// creation instant.
    CreatedAt,
    /// Number naming: the rotated name comes from the next free index.
    IdxState(IdxState),
}

/// The rotation criterion together with its live counters.
#[derive(Debug)]
pub enum RollState {
    /// Maximum size, then current size, in bytes.
    Size(u64, u64),
    /// Rotate on age alone.
    Age(Age),
    /// Age, then maximum and current size in bytes.
    AgeOrSize(Age, u64, u64),
}

/// The full rotation state of an active sink.
#[derive(Debug)]
pub struct RotationState {
    /// What the next rotated file will be called.
    pub naming_state: NamingState,
    /// When rotation is due.
    pub roll_state: RollState,
    /// When the active file was opened.
    pub created_at: Timestamp,
    /// What becomes of old rotated files.
    pub cleanup: Cleanup,
    /// Whether a retention worker is attached.
    pub retention_active: bool,
}

/// The two phases of the sink: before and after the first file is opened.
#[derive(Debug)]
pub enum Inner {
    /// No file opened yet; rotation configuration and whether retention
    /// runs in the background.
    Initial(Option<RotationConfig>, bool),
    /// The active file is open; rotation state when rotation is configured.
    Active(Option<RotationState>),
}

/// The mutable state of a file log writer.
#[derive(Debug)]
pub struct State {
    /// The fixed configuration.
    pub config: Config,
    /// The phase.
    pub inner: Inner,
}

/// What the engine asks of a configuration: a suffix that retention and
/// the rename protocol can work with.
pub open spec fn config_wf(config: Config) -> bool {
    &&& suffix_fit_for_retention(config.file_spec.suffix@)
    &&& forall|i: int|
        0 <= i < config.file_spec.suffix@.len() ==> #[trigger] config.file_spec.suffix@[i] != '/'
}

/// Whether the ages inside a criterion are well-formed.
pub open spec fn criterion_wf(criterion: Criterion) -> bool {
    match criterion {
        Criterion::Size(_) => true,
        Criterion::Age(age) => age.wf(),
        Criterion::AgeOrSize(age, _) => age.wf(),
    }
}

/// Whether the ages inside a roll state are well-formed.
pub open spec fn roll_state_wf(roll: RollState) -> bool {
    match roll {
        RollState::Size(_, _) => true,
        RollState::Age(age) => age.wf(),
        RollState::AgeOrSize(age, _, _) => age.wf(),
    }
}

/// An age criterion that does not consult shared state.
pub open spec fn age_deterministic(age: Age) -> bool {
    !(age is EveryNewDay)
}

/// When an age criterion fires: some calendar field at or above the chosen
/// granularity differs between the file's creation instant and now.
pub open spec fn spec_age_due(age: Age, created_at: Timestamp, now: Timestamp) -> bool {
    match age {
        Age::Day => !created_at.same_day(now),
        Age::Hour => !created_at.same_hour(now),
        Age::Minute => !created_at.same_minute(now),
        Age::Second => !created_at.same_second(now),
        Age::EveryNewDay(_) => false,
    }
}

/// Whether a roll state consults no shared state.
pub open spec fn roll_deterministic(roll: RollState) -> bool {
    match roll {
        RollState::Size(_, _) => true,
        RollState::Age(age) => age_deterministic(age),
        RollState::AgeOrSize(age, _, _) => age_deterministic(age),
    }
}

/// When a roll state fires, for deterministic criteria.
pub open spec fn spec_roll_due(roll: RollState, created_at: Timestamp, now: Timestamp) -> bool {
    match roll {
        RollState::Size(max_size, current_size) => current_size > max_size,
        RollState::Age(age) => spec_age_due(age, created_at, now),
        RollState::AgeOrSize(age, max_size, current_size) => current_size > max_size
            || spec_age_due(age, created_at, now),
    }
}

/// Whether the size part of a roll state alone forces rotation.
pub open spec fn spec_size_due(roll: RollState) -> bool {
    match roll {
        RollState::Size(max_size, current_size) => current_size > max_size,
        RollState::Age(_) => false,
        RollState::AgeOrSize(_, max_size, current_size) => current_size > max_size,
    }
}

/// The size counter of a roll state, if it has one.
pub open spec fn spec_current_size(roll: RollState) -> Option<u64> {
    match roll {
        RollState::Size(_, current_size) => Some(current_size),
        RollState::Age(_) => None,
        RollState::AgeOrSize(_, _, current_size) => Some(current_size),
    }
}

/// Whether the file has outgrown the maximum size.
pub fn size_rotation_necessary(max_size: u64, current_size: u64) -> (r: bool)
    ensures
        r == (current_size > max_size),
{
    current_size > max_size
}

/// The day-boundary decision on the values drawn from the shared cell and
/// the clock: a day change is exactly a changed day number.
pub fn day_boundary_due(stored_day_number: i32, current_day_number: i32) -> (r: bool)
    ensures
        r == (stored_day_number != current_day_number),
{
    stored_day_number != current_day_number
}

/// Whether the age criterion asks for rotation now.
///
/// For the day-boundary criterion the verdict consults the clock at the
/// configured offset and the day number shared between sinks, so nothing
/// is promised of it; every other criterion compares calendar fields.
pub fn age_rotation_necessary(created_at: &Timestamp, age: &Age, now: &Timestamp) -> (r: bool)
    requires
        age.wf(),
    ensures
        age_deterministic(*age) ==> r == spec_age_due(*age, *created_at, *now),
{
    match age {
        Age::EveryNewDay(split) => {
            let number_current = now_as_year_month_day_number(split.offset_hour());
            let stored = split.load_day_number();
            let due = day_boundary_due(stored, number_current);
            if due {
                split.store_day_number(number_current);
            }
            due
        },
        Age::Day => {
            created_at.year != now.year || created_at.month != now.month || created_at.day
                != now.day
        },
        Age::Hour => {
            created_at.year != now.year || created_at.month != now.month || created_at.day
                != now.day || created_at.hour != now.hour
        },
        Age::Minute => {
            created_at.year != now.year || created_at.month != now.month || created_at.day
                != now.day || created_at.hour != now.hour || created_at.minute != now.minute
        },
        Age::Second => {
            created_at.year != now.year || created_at.month != now.month || created_at.day
                != now.day || created_at.hour != now.hour || created_at.minute != now.minute
                || created_at.second != now.second
        },
    }
}

impl RotationState {
    /// Whether rotation is due now.  Exact for deterministic criteria; a
    /// size overflow forces rotation whatever the age part says.
    pub fn rotation_necessary(&self, now: &Timestamp) -> (r: bool)
        requires
            roll_state_wf(self.roll_state),
        ensures
            roll_deterministic(self.roll_state) ==> r == spec_roll_due(
                self.roll_state,
                self.created_at,
                *now,
            ),
            spec_size_due(self.roll_state) ==> r,
    {
        match &self.roll_state {
            RollState::Size(max_size, current_size) => {
                size_rotation_necessary(*max_size, *current_size)
            },
            RollState::Age(age) => age_rotation_necessary(&self.created_at, age, now),
            RollState::AgeOrSize(age, max_size, current_size) => {
                let by_size = size_rotation_necessary(*max_size, *current_size);
                if by_size {
                    true
                } else {
                    age_rotation_necessary(&self.created_at, age, now)
                }
            },
        }
    }
}

/// The next index the rename protocol would assign.
pub open spec fn spec_next_idx(idx_state: IdxState) -> int {
    match idx_state {
        IdxState::Start => 0,
        IdxState::Idx(k) => k as int + 1,
    }
}

/// What the discovery scan yields: `Start` exactly when no rotated
/// sibling exists, otherwise the largest index any sibling takes.
pub open spec fn is_highest_idx(s: IdxState, dir: Directory, fs: FileSpec) -> bool {
    &&& ((s is Start) <==> !(exists|nm: Seq<char>|
        dir.has(nm) && #[trigger] matches_any_rotated(nm, fs)))
    &&& (forall|nm: Seq<char>|
        dir.has(nm) && #[trigger] matches_any_rotated(nm, fs) ==> idx_of_name(nm) <= s->Idx_0)
    &&& (s matches IdxState::Idx(k) ==> exists|nm: Seq<char>|
        dir.has(nm) && #[trigger] matches_any_rotated(nm, fs) && idx_of_name(nm) == k)
}

/// The index the rename protocol assigned to a rotation out of `dir`:
/// above every index taken before, and directly following the highest.
pub open spec fn idx_advanced_from(s: IdxState, dir: Directory, fs: FileSpec) -> bool {
    match s {
        IdxState::Idx(k) => (forall|nm: Seq<char>|
            dir.has(nm) && #[trigger] matches_any_rotated(nm, fs) ==> idx_of_name(nm) < k) && (k
            == 0 || exists|nm: Seq<char>|
            dir.has(nm) && #[trigger] matches_any_rotated(nm, fs) && idx_of_name(nm) == k - 1),
        IdxState::Start => false,
    }
}

/// The highest index any rotated sibling takes in `dir`, as the discovery
/// scan reads it.
pub fn get_highest_rotate_idx(dir: &Directory, file_spec: &FileSpec) -> (r: IdxState)
    requires
        dir.wf(),
    ensures
        (r is Start) <==> !(exists|nm: Seq<char>|
            dir.has(nm) && matches_any_rotated(nm, *file_spec)),
        forall|nm: Seq<char>|
            dir.has(nm) && matches_any_rotated(nm, *file_spec) ==> idx_of_name(nm) <= r->Idx_0,
        r matches IdxState::Idx(k) ==> exists|nm: Seq<char>|
            dir.has(nm) && matches_any_rotated(nm, *file_spec) && idx_of_name(nm) == k,
        is_highest_idx(r, *dir, *file_spec),
{
    let files = list_of_log_and_compressed_files(dir, file_spec);
    let n = files.len();
    let mut highest = IdxState::Start;
    let mut i: usize = 0;
    while i < n
        invariant
            0 <= i <= n,
            n == files@.len(),
            dir.wf(),
            forall|j: int|
                0 <= j < n ==> dir.has(#[trigger] views(files@)[j]) && matches_any_rotated(
                    views(files@)[j],
                    *file_spec,
                ),
            forall|nm: Seq<char>|
                dir.has(nm) && matches_any_rotated(nm, *file_spec) ==> views(files@).contains(nm),
            (highest is Start) <==> i == 0,
            forall|j: int| 0 <= j < i ==> idx_of_name(#[trigger] views(files@)[j]) <= highest->Idx_0,
            highest matches IdxState::Idx(k) ==> exists|j: int|
                0 <= j < i && idx_of_name(#[trigger] views(files@)[j]) == k,
        decreases n - i,
    {
        let idx = idx_of_name_exec(files[i].as_str());
        let ghost old_highest = highest;
        highest = match highest {
            IdxState::Start => IdxState::Idx(idx),
            IdxState::Idx(prev) => {
                if prev < idx {
                    IdxState::Idx(idx)
                } else {
                    IdxState::Idx(prev)
                }
            },
        };
        proof {
            let m = views(files@);
            assert(idx_of_name(m[i as int]) == idx);
            match highest {
                IdxState::Start => {
                    assert(false);
                },
                IdxState::Idx(k) => {
                    if k == idx {
                        assert(0 <= i < i + 1 && idx_of_name(m[i as int]) == k);
                    } else {
                        let j = choose|j: int| 0 <= j < i && idx_of_name(#[trigger] m[j]) == k;
                        assert(0 <= j < i + 1 && idx_of_name(m[j]) == k);
                    }
                },
            }
        }
        i = i + 1;
    }
    proof {
        if exists|nm: Seq<char>| dir.has(nm) && matches_any_rotated(nm, *file_spec) {
            let nm = choose|nm: Seq<char>| dir.has(nm) && matches_any_rotated(nm, *file_spec);
            assert(views(files@).contains(nm));
            assert(n > 0);
        }
        assert forall|nm: Seq<char>|
            dir.has(nm) && matches_any_rotated(nm, *file_spec) implies idx_of_name(nm)
            <= highest->Idx_0 by {
            assert(views(files@).contains(nm));
            let j = choose|j: int| 0 <= j < views(files@).len() && views(files@)[j] == nm;
            assert(idx_of_name(views(files@)[j]) <= highest->Idx_0);
        }
        match highest {
            IdxState::Start => {},
            IdxState::Idx(k) => {
                let j = choose|j: int| 0 <= j < n && idx_of_name(views(files@)[j]) == k;
                assert(dir.has(views(files@)[j]) && matches_any_rotated(
                    views(files@)[j],
                    *file_spec,
                ));
            },
        }
    }
    highest
}

/// The number-named path carries exactly its index.
proof fn lemma_idx_of_number_path(file_spec: FileSpec, k: u32)
    requires
        suffix_fit_for_retention(file_spec.suffix@),
    ensures
        idx_of_name(file_spec.spec_path(Some(spec_number_infix(k)))) == k,
{
    let path = file_spec.spec_path(Some(spec_number_infix(k)));
    let head = file_spec.directory@ + seq!['/'] + file_spec.basename@ + (
    match file_spec.o_discriminant {
        Some(d) => seq!['_'] + d@,
        None => Seq::<char>::empty(),
    });
    let digits = padded_digits(k as nat, 5);
    lemma_parse_padded_roundtrip(k as nat, 5);
    let marker_head = head + seq!['_', 'r'];
    assert(path =~= marker_head + digits + seq!['.'] + file_spec.suffix@);
    let sfx = file_spec.suffix@;
    let dot = path.len() - sfx.len() - 1;
    assert(path[dot] == '.');
    assert forall|i: int| path.len() - sfx.len() <= i < path.len() implies #[trigger] path[i]
        != '.' by {
        assert(path[i] == sfx[i - dot - 1]);
    }
    crate::cleanup::lemma_last_dot_at(path, sfx.len() as int);
    assert(stem_of(path) == path.take(dot));
    assert(stem_of(path) =~= marker_head + digits);
    assert(marker_head[marker_head.len() - 2] == '_' && marker_head[marker_head.len() - 1] == 'r');
    lemma_last_marker_with_digits(marker_head, digits);
    assert(crate::strutil::last_marker_end(marker_head + digits) == marker_head.len());
    assert(crate::strutil::after_last_marker(stem_of(path)) =~= digits);
}

/// Moves the active file to the name with the next index and hands that
/// index back.  A missing active file is success and leaves everything as
/// it was; an exhausted index space is the one error.
#[verifier::rlimit(100)]
pub fn rotate_output_file_to_idx(
    dir: &mut Directory,
    config: &Config,
    idx_state: IdxState,
) -> (r: Result<IdxState, FlexiLoggerError>)
    requires
        old(dir).wf(),
        config_wf(*config),
    ensures
        final(dir).wf(),
        !old(dir).has(config.file_spec.spec_path(Some(current_infix()))) ==> r == Ok::<
            IdxState,
            FlexiLoggerError,
        >(idx_state) && *final(dir) == *old(dir),
        old(dir).has(config.file_spec.spec_path(Some(current_infix()))) && idx_state == (
        IdxState::Idx(u32::MAX)) ==> r == Err::<IdxState, FlexiLoggerError>(FlexiLoggerError::Io)
            && *final(dir) == *old(dir),
        old(dir).has(config.file_spec.spec_path(Some(current_infix()))) && idx_state != (
        IdxState::Idx(u32::MAX)) ==> {
            let current = config.file_spec.spec_path(Some(current_infix()));
            let target = config.file_spec.spec_path(
                Some(spec_number_infix(spec_next_idx(idx_state) as u32)),
            );
            &&& r == Ok::<IdxState, FlexiLoggerError>(
                IdxState::Idx(spec_next_idx(idx_state) as u32),
            )
            &&& idx_of_name(target) == spec_next_idx(idx_state)
            &&& !final(dir).has(current)
            &&& final(dir).has(target)
            &&& final(dir).content(target) == old(dir).content(current)
            &&& forall|nm: Seq<char>|
                nm != current && nm != target ==> #[trigger] final(dir).has(nm) == old(dir).has(nm)
                    && (old(dir).has(nm) ==> final(dir).content(nm) == old(dir).content(nm))
            &&& final(dir).file_count() == old(dir).file_count() - (if old(dir).has(target) {
                1int
            } else {
                0int
            })
        },
{
    let current = config.file_spec.as_pathbuf(Some(current_infix_str()));
    if !dir.exists_file(current.as_str()) {
        return Ok(idx_state);
    }
    let new_idx: u32 = match idx_state {
        IdxState::Start => 0,
        IdxState::Idx(k) => {
            if k == u32::MAX {
                return Err(FlexiLoggerError::Io);
            }
            k + 1
        },
    };
    let infix = number_infix(new_idx);
    let target = config.file_spec.as_pathbuf(Some(infix.as_str()));
    proof {
        lemma_idx_of_number_path(config.file_spec, new_idx);
        lemma_parse_padded_roundtrip(new_idx as nat, 5);
        if current@ == target@ {
            config.file_spec.lemma_path_infix_injective(current_infix(), spec_number_infix(new_idx));
            assert(current_infix()[2] == spec_number_infix(new_idx)[2]);
            assert(spec_number_infix(new_idx)[2] == padded_digits(new_idx as nat, 5)[0]);
            assert(crate::strutil::is_dec_digit(padded_digits(new_idx as nat, 5)[0]));
            assert(false);
        }
    }
    dir.rename_file(current.as_str(), target.as_str());
    proof {
        let cur = config.file_spec.spec_path(Some(current_infix()));
        let tgt = config.file_spec.spec_path(Some(spec_number_infix(spec_next_idx(idx_state) as u32)));
        assert(cur == current@ && tgt == target@);
        assert(new_idx == spec_next_idx(idx_state) as u32);
        assert(idx_of_name(tgt) == spec_next_idx(idx_state));
        assert(!dir.has(cur));
        assert(dir.has(tgt));
        assert(dir.content(tgt) == old(dir).content(cur));
        assert(dir.file_count() == old(dir).file_count() - (if old(dir).has(tgt) {
            1int
        } else {
            0int
        }));
        assert forall|nm: Seq<char>|
            nm != cur && nm != tgt implies #[trigger] dir.has(nm) == old(dir).has(nm) && (old(
            dir,
        ).has(nm) ==> dir.content(nm) == old(dir).content(nm)) by {
            assert(nm != current@ && nm != target@);
            assert(dir.has(nm) == old(dir).has(nm));
            assert(old(dir).has(nm) ==> dir.content(nm) == old(dir).content(nm));
        }
        assert(Ok::<IdxState, FlexiLoggerError>(IdxState::Idx(new_idx)) == Ok::<
            IdxState,
            FlexiLoggerError,
        >(IdxState::Idx(spec_next_idx(idx_state) as u32)));
    }
    Ok(IdxState::Idx(new_idx))
}

/// With number naming, discovery and assignment never collide: when every
/// rotated sibling on disk carries an index of at most `k`, the file the
/// next rotation would create, numbered `k + 1`, does not exist yet, so no
/// rotated file is overwritten.
pub proof fn lemma_next_index_fresh(dir: Directory, fs: FileSpec, k: u32)
    requires
        suffix_fit_for_retention(fs.suffix@),
        forall|i: int| 0 <= i < fs.suffix@.len() ==> #[trigger] fs.suffix@[i] != '/',
        forall|nm: Seq<char>|
            dir.has(nm) && matches_any_rotated(nm, fs) ==> #[trigger] idx_of_name(nm) <= k,
        k < u32::MAX,
    ensures
        !dir.has(fs.spec_path(Some(spec_number_infix((k + 1) as u32)))),
{
    let target = fs.spec_path(Some(spec_number_infix((k + 1) as u32)));
    if dir.has(target) {
        lemma_number_path_matches(fs, (k + 1) as u32);
        lemma_idx_of_number_path(fs, (k + 1) as u32);
        assert(idx_of_name(target) <= k);
    }
}

/// Whether `name` continues the stem of a timestamped base name with the
/// `.restart-` tie-breaker, without crossing a path separator.
pub open spec fn restart_sibling(name: Seq<char>, base_stem: Seq<char>) -> bool {
    let pre = base_stem + seq!['.', 'r', 'e', 's', 't', 'a', 'r', 't', '-'];
    &&& spec_starts_with(name, pre)
    &&& forall|i: int| pre.len() <= i < name.len() ==> #[trigger] name[i] != '/'
}

/// The tie-breaker number a restart sibling carries in its stem.
pub open spec fn restart_num_of(name: Seq<char>, base_stem: Seq<char>) -> u32 {
    if stem_of(name).len() >= base_stem.len() + 9 {
        parse_u32_or_zero(stem_of(name).skip(base_stem.len() + 9 as int))
    } else {
        0
    }
}
/// In a path derived with the given infix, the stem is everything before
/// the suffix dot.
proof fn lemma_base_stem_shape(fs: FileSpec, infix: Seq<char>)
    requires
        suffix_fit_for_retention(fs.suffix@),
    ensures
        stem_of(fs.spec_path(Some(infix))) == fs.spec_path(Some(infix)).take(
            fs.spec_path(Some(infix)).len() - fs.suffix@.len() - 1,
        ),
        stem_of(fs.spec_path(Some(infix))) =~= fs.directory@ + seq!['/'] + fs.basename@ + (
        match fs.o_discriminant {
            Some(d) => seq!['_'] + d@,
            None => Seq::<char>::empty(),
        }) + infix,
{
    let path = fs.spec_path(Some(infix));
    let sfx = fs.suffix@;
    let dot = path.len() - sfx.len() - 1;
    assert(path[dot] == '.');
    assert forall|i: int| path.len() - sfx.len() <= i < path.len() implies #[trigger] path[i]
        != '.' by {
        assert(path[i] == sfx[i - dot - 1]);
    }
    crate::cleanup::lemma_last_dot_at(path, sfx.len() as int);
}

/// The timestamped base name is a rotated sibling distinct from the
/// active file's name.
proof fn lemma_timestamp_target_ok(fs: FileSpec, ts: Timestamp)
    requires
        suffix_fit_for_retention(fs.suffix@),
        forall|i: int| 0 <= i < fs.suffix@.len() ==> #[trigger] fs.suffix@[i] != '/',
        ts.wf(),
        ts.year >= 0,
    ensures
        matches_rotated(fs.spec_path(Some(spec_timestamp_infix(ts))), fs, fs.suffix@),
        fs.spec_path(Some(spec_timestamp_infix(ts))) != fs.spec_path(Some(current_infix())),
{
    let infix = spec_timestamp_infix(ts);
    crate::filespec::lemma_timestamp_infix_chars(ts);
    let path = fs.spec_path(Some(infix));
    let prefix = crate::siblings::rotated_prefix(fs);
    let head = fs.directory@ + seq!['/'] + fs.basename@ + (match fs.o_discriminant {
        Some(d) => seq!['_'] + d@,
        None => Seq::<char>::empty(),
    });
    assert(path =~= head + infix + seq!['.'] + fs.suffix@);
    assert(prefix =~= head + seq!['_', 'r']);
    assert forall|i: int| 0 <= i < prefix.len() implies #[trigger] path[i] == prefix[i] by {
        if i < head.len() {
            assert(path[i] == head[i] && prefix[i] == head[i]);
        } else {
            assert(path[i] == infix[i - head.len()]);
            assert(prefix[i] == seq!['_', 'r'][i - head.len()]);
        }
    }
    assert(path.take(prefix.len() as int) =~= prefix);
    assert(path[prefix.len() as int] == infix[2]);
    assert(path.subrange(path.len() - (seq!['.'] + fs.suffix@).len(), path.len() as int) =~= seq![
        '.',
    ] + fs.suffix@);
    assert forall|i: int|
        prefix.len() <= i < path.len() - fs.suffix@.len() - 1 implies #[trigger] path[i] != '/' by {
        assert(path[i] == infix[i - head.len()]);
    }
    assert(matches_rotated(path, fs, fs.suffix@));
    if path == fs.spec_path(Some(current_infix())) {
        fs.lemma_path_infix_injective(infix, current_infix());
        assert(infix[2] == current_infix()[2]);
    }
}

/// The name chosen with a restart tie-breaker is a restart sibling of the
/// base name, carries exactly that tie-breaker number, is itself a rotated
/// sibling, and differs from the active file's name.
#[verifier::rlimit(100)]
proof fn lemma_restart_target_shape(fs: FileSpec, ts: Timestamp, m: u32)
    requires
        suffix_fit_for_retention(fs.suffix@),
        forall|i: int| 0 <= i < fs.suffix@.len() ==> #[trigger] fs.suffix@[i] != '/',
        ts.wf(),
        ts.year >= 0,
    ensures
        ({
            let infix = spec_timestamp_infix(ts);
            let target = fs.spec_path(Some(infix + spec_restart_suffix(m)));
            let base_stem = stem_of(fs.spec_path(Some(infix)));
            &&& restart_sibling(target, base_stem)
            &&& restart_num_of(target, base_stem) == m
            &&& matches_rotated(target, fs, fs.suffix@)
            &&& target != fs.spec_path(Some(current_infix()))
        }),
{
    let infix = spec_timestamp_infix(ts);
    let rsuf = spec_restart_suffix(m);
    let infix2 = infix + rsuf;
    let target = fs.spec_path(Some(infix2));
    let base = fs.spec_path(Some(infix));
    let base_stem = stem_of(base);
    crate::filespec::lemma_timestamp_infix_chars(ts);
    crate::strutil::lemma_parse_padded_roundtrip(m as nat, 4);
    let digits = padded_digits(m as nat, 4);
    let head = fs.directory@ + seq!['/'] + fs.basename@ + (match fs.o_discriminant {
        Some(d) => seq!['_'] + d@,
        None => Seq::<char>::empty(),
    });
    lemma_base_stem_shape(fs, infix);
    assert(base_stem =~= head + infix);
    let marker = seq!['.', 'r', 'e', 's', 't', 'a', 'r', 't', '-'];
    assert(rsuf =~= marker + digits);
    let pre = base_stem + marker;
    assert(target =~= head + infix + marker + digits + seq!['.'] + fs.suffix@);
    assert(target =~= pre + digits + seq!['.'] + fs.suffix@);
    // it continues the stem with the tie-breaker
    assert forall|i: int| 0 <= i < pre.len() implies #[trigger] target[i] == pre[i] by {
        assert(target[i] == (pre + digits + seq!['.'] + fs.suffix@)[i]);
    }
    assert(target.take(pre.len() as int) =~= pre);
    assert forall|i: int| pre.len() <= i < target.len() implies #[trigger] target[i] != '/' by {
        if i < pre.len() + digits.len() {
            assert(target[i] == digits[i - pre.len()]);
            assert(crate::strutil::is_dec_digit(digits[i - pre.len()]));
        } else if i == pre.len() + digits.len() {
            assert(target[i] == '.');
        } else {
            assert(target[i] == fs.suffix@[i - pre.len() - digits.len() - 1]);
        }
    }
    assert(restart_sibling(target, base_stem));
    // the stem of the chosen name ends in exactly the tie-breaker digits
    let sfx = fs.suffix@;
    let dot = target.len() - sfx.len() - 1;
    assert(target[dot] == '.');
    assert forall|i: int| target.len() - sfx.len() <= i < target.len() implies #[trigger] target[i]
        != '.' by {
        assert(target[i] == sfx[i - dot - 1]);
    }
    crate::cleanup::lemma_last_dot_at(target, sfx.len() as int);
    assert(stem_of(target) == target.take(dot));
    assert(stem_of(target) =~= pre + digits);
    assert(stem_of(target).skip(base_stem.len() + 9 as int) =~= digits);
    assert(restart_num_of(target, base_stem) == m);
    // it is a rotated sibling of the uncompressed form
    let prefix = crate::siblings::rotated_prefix(fs);
    assert(prefix =~= head + seq!['_', 'r']);
    assert forall|i: int| 0 <= i < prefix.len() implies #[trigger] target[i] == prefix[i] by {
        if i < head.len() {
            assert(target[i] == head[i] && prefix[i] == head[i]);
        } else {
            assert(target[i] == infix[i - head.len()]);
            assert(prefix[i] == seq!['_', 'r'][i - head.len()]);
        }
    }
    assert(target.take(prefix.len() as int) =~= prefix);
    assert(target[prefix.len() as int] == infix[2]);
    assert(target.subrange(target.len() - (seq!['.'] + sfx).len(), target.len() as int) =~= seq![
        '.',
    ] + sfx);
    assert forall|i: int| prefix.len() <= i < target.len() - sfx.len() - 1 implies #[trigger
    ] target[i] != '/' by {
        if i < head.len() + infix.len() {
            assert(target[i] == infix[i - head.len()]);
        } else if i < head.len() + infix.len() + marker.len() {
            assert(target[i] == marker[i - head.len() - infix.len()]);
        } else {
            assert(target[i] == digits[i - head.len() - infix.len() - marker.len()]);
            assert(crate::strutil::is_dec_digit(digits[i - head.len() - infix.len()
                - marker.len()]));
        }
    }
    assert(matches_rotated(target, fs, sfx));
    if target == fs.spec_path(Some(current_infix())) {
        fs.lemma_path_infix_injective(infix2, current_infix());
        assert(infix2[2] == infix[2]);
        assert(infix2[2] == current_infix()[2]);
    }
}

/// The stem of the timestamped base name for an instant.
pub open spec fn spec_base_stem(config: Config, ts: Timestamp) -> Seq<char> {
    stem_of(config.file_spec.spec_path(Some(spec_timestamp_infix(ts))))
}

/// Whether a restart tie-breaker at the largest representable number is
/// already taken for this instant, leaving the rename protocol no fresh
/// number to move on to.
pub open spec fn restart_exhausted(dir: Directory, config: Config, ts: Timestamp) -> bool {
    exists|nm: Seq<char>|
        dir.has(nm) && #[trigger] restart_sibling(nm, spec_base_stem(config, ts))
            && restart_num_of(nm, spec_base_stem(config, ts)) == u32::MAX
}

/// Whether some rotated sibling already carries the largest representable
/// index, leaving the rename protocol no next index.
pub open spec fn idx_exhausted(dir: Directory, fs: FileSpec) -> bool {
    exists|nm: Seq<char>|
        dir.has(nm) && #[trigger] matches_any_rotated(nm, fs) && idx_of_name(nm) == u32::MAX
}

/// Whether the rename protocol has no fresh name left for this naming
/// scheme: the index space or the tie-breaker space is exhausted.
pub open spec fn rotation_blocked(
    dir: Directory,
    config: Config,
    naming: Naming,
    ts: Timestamp,
) -> bool {
    match naming {
        Naming::Numbers => idx_exhausted(dir, config.file_spec),
        Naming::Timestamps(_) => restart_exhausted(dir, config, ts),
    }
}

/// Every rotated sibling is exactly as it was.
pub open spec fn siblings_untouched(pre: Directory, post: Directory, fs: FileSpec) -> bool {
    forall|nm: Seq<char>|
        #[trigger] matches_any_rotated(nm, fs) ==> post.has(nm) == pre.has(nm) && (pre.has(nm)
            ==> post.content(nm) == pre.content(nm))
}

/// Whether the rename protocol of an active sink has no fresh name left:
/// its next index or the tie-breaker space for its creation instant is
/// used up.
pub open spec fn mount_blocked(rs: RotationState, dir: Directory, config: Config) -> bool {
    match rs.naming_state {
        NamingState::IdxState(s) => s == IdxState::Idx(u32::MAX),
        NamingState::CreatedAt => restart_exhausted(dir, config, rs.created_at),
    }
}

/// Whether a criterion consults no shared state.
pub open spec fn criterion_deterministic(criterion: Criterion) -> bool {
    match criterion {
        Criterion::Size(_) => true,
        Criterion::Age(age) => age_deterministic(age),
        Criterion::AgeOrSize(age, _) => age_deterministic(age),
    }
}

/// The active file's name is never a restart sibling of a timestamped
/// base name: where the stem carries a digit, the active name carries the
/// `C` of its infix.
proof fn lemma_current_not_restart_sibling(config: Config, ts: Timestamp)
    requires
        config_wf(config),
        ts.wf(),
        ts.year >= 0,
    ensures
        !restart_sibling(spec_open_path(config, true), spec_base_stem(config, ts)),
{
    let active = spec_open_path(config, true);
    let bs = spec_base_stem(config, ts);
    let infix = spec_timestamp_infix(ts);
    crate::filespec::lemma_timestamp_infix_chars(ts);
    lemma_base_stem_shape(config.file_spec, infix);
    let head = config.file_spec.directory@ + seq!['/'] + config.file_spec.basename@ + (
    match config.file_spec.o_discriminant {
        Some(d) => seq!['_'] + d@,
        None => Seq::<char>::empty(),
    });
    assert(bs =~= head + infix);
    assert(active =~= head + current_infix() + seq!['.'] + config.file_spec.suffix@);
    if restart_sibling(active, bs) {
        let pre = bs + seq!['.', 'r', 'e', 's', 't', 'a', 'r', 't', '-'];
        assert(active.take(pre.len() as int) == pre);
        assert(head.len() + 2int < pre.len());
        assert(active.take(pre.len() as int)[head.len() + 2int] == active[head.len() + 2int]);
        assert(pre[head.len() + 2int] == bs[head.len() + 2int]);
        assert(bs[head.len() + 2int] == infix[2]);
        assert(active[head.len() + 2int] == current_infix()[2]);
        assert(crate::strutil::is_dec_digit(infix[2]));
    }
}

/// Moves the active file to the timestamped name for `ts`.  When that name
/// or any of its restart siblings is taken, the chosen name carries one
/// more than the highest tie-breaker number already taken, so no rotated
/// file is ever overwritten.  A missing active file is success and leaves
/// everything as it was.
#[verifier::rlimit(100)]
pub fn rotate_output_file_to_date(dir: &mut Directory, config: &Config, ts: &Timestamp) -> (r:
    Result<Option<String>, FlexiLoggerError>)
    requires
        old(dir).wf(),
        config_wf(*config),
        ts.wf(),
        ts.year >= 0,
    ensures
        final(dir).wf(),
        !old(dir).has(config.file_spec.spec_path(Some(current_infix()))) ==> r == Ok::<
            Option<String>,
            FlexiLoggerError,
        >(None) && *final(dir) == *old(dir),
        r is Err ==> *final(dir) == *old(dir) && r == Err::<Option<String>, FlexiLoggerError>(
            FlexiLoggerError::Io,
        ),
        r is Err <==> old(dir).has(config.file_spec.spec_path(Some(current_infix())))
            && restart_exhausted(*old(dir), *config, *ts),
        r matches Ok(Some(t)) ==> t@ == config.file_spec.spec_path(Some(spec_timestamp_infix(*ts)))
            || t@ == config.file_spec.spec_path(
            Some(
                spec_timestamp_infix(*ts) + spec_restart_suffix(
                    restart_num_of(t@, spec_base_stem(*config, *ts)),
                ),
            ),
        ),
        match r {
            Ok(Some(t)) => t@ != config.file_spec.spec_path(Some(spec_timestamp_infix(*ts)))
                ==> restart_sibling(t@, spec_base_stem(*config, *ts)) && (forall|nm: Seq<char>|
                old(dir).has(nm) && #[trigger] restart_sibling(nm, spec_base_stem(*config, *ts))
                    ==> restart_num_of(nm, spec_base_stem(*config, *ts)) < restart_num_of(
                    t@,
                    spec_base_stem(*config, *ts),
                )),
            _ => true,
        },
        match r {
            Ok(Some(t)) => (!old(dir).has(
                config.file_spec.spec_path(Some(spec_timestamp_infix(*ts))),
            ) && (forall|nm: Seq<char>|
                old(dir).has(nm) ==> !(#[trigger] restart_sibling(
                    nm,
                    spec_base_stem(*config, *ts),
                )))) ==> t@ == config.file_spec.spec_path(Some(spec_timestamp_infix(*ts))),
            _ => true,
        },
        r matches Ok(Some(t)) ==> old(dir).has(config.file_spec.spec_path(Some(current_infix())))
            && !old(dir).has(t@) && t@ != config.file_spec.spec_path(Some(current_infix())),
        r matches Ok(Some(t)) ==> matches_rotated(t@, config.file_spec, config.file_spec.suffix@),
        r matches Ok(Some(t)) ==> !final(dir).has(
            config.file_spec.spec_path(Some(current_infix())),
        ) && final(dir).has(t@) && final(dir).content(t@) == old(dir).content(
            config.file_spec.spec_path(Some(current_infix())),
        ),
        r is Ok ==> final(dir).file_count() == old(dir).file_count(),
        match r {
            Ok(Some(t)) => untouched_except_pair(
                *old(dir),
                *final(dir),
                config.file_spec.spec_path(Some(current_infix())),
                t@,
            ),
            _ => true,
        },
        old(dir).has(config.file_spec.spec_path(Some(current_infix()))) && r is Ok ==> r matches Ok(
            Some(t),
        ),
{
    let current = config.file_spec.as_pathbuf(Some(current_infix_str()));
    if !dir.exists_file(current.as_str()) {
        return Ok(None);
    }
    let infix = timestamp_infix(ts);
    let base = config.file_spec.as_pathbuf(Some(infix.as_str()));
    let base_stem = stem_of_exec(base.as_str());
    proof {
        crate::filespec::lemma_timestamp_infix_chars(*ts);
        lemma_base_stem_shape(config.file_spec, spec_timestamp_infix(*ts));
        assert(base_stem@ == spec_base_stem(*config, *ts));
    }
    let mut pre = base_stem.clone();
    proof {
        reveal_strlit(".restart-");
    }
    pre.append(".restart-");
    proof {
        assert(pre@ =~= base_stem@ + seq!['.', 'r', 'e', 's', 't', 'a', 'r', 't', '-']);
    }
    let names = dir.file_names();
    let n = names.len();
    let mut found = false;
    let mut maxn: u32 = 0;
    let mut i: usize = 0;
    while i < n
        invariant
            0 <= i <= n,
            n == names@.len(),
            dir.wf(),
            n == dir.names().len(),
            pre@ == base_stem@ + seq!['.', 'r', 'e', 's', 't', 'a', 'r', 't', '-'],
            forall|j: int| 0 <= j < n ==> #[trigger] views(names@)[j] == dir.names()[j],
            found ==> forall|j: int|
                0 <= j < i && restart_sibling(#[trigger] views(names@)[j], base_stem@)
                    ==> restart_num_of(views(names@)[j], base_stem@) <= maxn,
            found ==> exists|j: int|
                0 <= j < i && restart_sibling(#[trigger] views(names@)[j], base_stem@)
                    && restart_num_of(views(names@)[j], base_stem@) == maxn,
            !found ==> forall|j: int|
                0 <= j < i ==> !restart_sibling(#[trigger] views(names@)[j], base_stem@),
        decreases n - i,
    {
        let name = &names[i];
        let mut is_sib = starts_with(name.as_str(), pre.as_str());
        if is_sib {
            let plen = pre.as_str().unicode_len();
            let nlen = name.as_str().unicode_len();
            let mut k: usize = plen;
            while k < nlen
                invariant
                    plen <= k <= nlen,
                    nlen == name@.len(),
                    plen == pre@.len(),
                    spec_starts_with(name@, pre@),
                    is_sib == (forall|j: int| plen <= j < k ==> #[trigger] name@[j] != '/'),
                decreases nlen - k,
            {
                if name.as_str().get_char(k) == '/' {
                    proof {
                        assert(name@[k as int] == '/');
                    }
                    is_sib = false;
                }
                k = k + 1;
            }
        }
        proof {
            assert(views(names@)[i as int] == name@);
            if is_sib {
                assert(restart_sibling(name@, base_stem@));
            } else {
                assert(!restart_sibling(name@, base_stem@));
            }
        }
        if is_sib {
            let stem = stem_of_exec(name.as_str());
            let slen = stem.as_str().unicode_len();
            let blen = base_stem.as_str().unicode_len();
            let num: u32 = if slen >= blen + 9 && blen < usize::MAX - 9 {
                let tail = stem.as_str().substring_char(blen + 9, slen);
                let v = parse_u32_or_zero_exec(tail);
                proof {
                    assert(stem@.subrange(blen + 9, slen as int) =~= stem_of(name@).skip(
                        base_stem@.len() + 9 as int,
                    ));
                }
                v
            } else {
                proof {
                    assert(name@.len() >= pre@.len());
                }
                0
            };
            proof {
                assert(num == restart_num_of(name@, base_stem@));
            }
            if !found || num > maxn {
                maxn = num;
            }
            found = true;
            proof {
                let m = views(names@);
                if num == maxn {
                    assert(0 <= i < i + 1 && restart_sibling(m[i as int], base_stem@)
                        && restart_num_of(m[i as int], base_stem@) == maxn);
                } else {
                    let j = choose|j: int|
                        0 <= j < i && restart_sibling(#[trigger] m[j], base_stem@)
                            && restart_num_of(m[j], base_stem@) == maxn;
                    assert(0 <= j < i + 1 && restart_sibling(m[j], base_stem@) && restart_num_of(
                        m[j],
                        base_stem@,
                    ) == maxn);
                }
            }
        }
        i = i + 1;
    }
    proof {
        if found {
            // every tie-breaker on disk is at most the scanned maximum,
            // and some file realizes it
            assert forall|nm: Seq<char>|
                dir.has(nm) && restart_sibling(nm, base_stem@) implies restart_num_of(
                nm,
                base_stem@,
            ) <= maxn by {
                let j = choose|j: int| 0 <= j < dir.names().len() && dir.names()[j] == nm;
                assert(views(names@)[j] == nm);
            }
            let jw = choose|j: int|
                0 <= j < n && restart_sibling(#[trigger] views(names@)[j], base_stem@)
                    && restart_num_of(views(names@)[j], base_stem@) == maxn;
            assert(dir.names().contains(dir.names()[jw]));
            assert(dir.has(views(names@)[jw]));
        } else {
            assert forall|nm: Seq<char>| dir.has(nm) implies !restart_sibling(
                nm,
                base_stem@,
            ) by {
                let j = choose|j: int| 0 <= j < dir.names().len() && dir.names()[j] == nm;
                assert(views(names@)[j] == nm);
            }
            assert(!restart_exhausted(*old(dir), *config, *ts));
        }
    }
    let base_exists = dir.exists_file(base.as_str());
    if !base_exists && !found {
        proof {
            lemma_timestamp_target_ok(config.file_spec, *ts);
            assert(!restart_exhausted(*old(dir), *config, *ts));
        }
        dir.rename_file(current.as_str(), base.as_str());
        proof {
            let cur = config.file_spec.spec_path(Some(current_infix()));
            let tgt = base@;
            assert(matches_rotated(tgt, config.file_spec, config.file_spec.suffix@));
            assert forall|nm: Seq<char>|
                nm != cur && nm != tgt implies #[trigger] dir.has(nm) == old(dir).has(nm) && (old(
                dir,
            ).has(nm) ==> dir.content(nm) == old(dir).content(nm)) by {
                assert(nm != current@ && nm != base@);
                assert(dir.has(nm) == old(dir).has(nm));
                assert(old(dir).has(nm) ==> dir.content(nm) == old(dir).content(nm));
            }
            assert(untouched_except_pair(*old(dir), *dir, cur, tgt));
            assert(dir.file_count() == old(dir).file_count());
        }
        return Ok(Some(base));
    }
    let m: u32 = if found {
        if maxn == u32::MAX {
            proof {
                let jw = choose|j: int|
                    0 <= j < n && restart_sibling(#[trigger] views(names@)[j], base_stem@)
                        && restart_num_of(views(names@)[j], base_stem@) == maxn;
                assert(old(dir).has(views(names@)[jw]));
                assert(restart_exhausted(*old(dir), *config, *ts));
            }
            return Err(FlexiLoggerError::Io);
        }
        maxn + 1
    } else {
        0
    };
    proof {
        if found {
            assert(!restart_exhausted(*old(dir), *config, *ts)) by {
                if restart_exhausted(*old(dir), *config, *ts) {
                    let nm = choose|nm: Seq<char>|
                        old(dir).has(nm) && #[trigger] restart_sibling(
                            nm,
                            spec_base_stem(*config, *ts),
                        ) && restart_num_of(nm, spec_base_stem(*config, *ts)) == u32::MAX;
                    assert(restart_num_of(nm, base_stem@) <= maxn);
                }
            }
        } else {
            assert(!restart_exhausted(*old(dir), *config, *ts));
        }
    }
    let mut infix2 = infix;
    push_restart_suffix(&mut infix2, m);
    let target = config.file_spec.as_pathbuf(Some(infix2.as_str()));
    proof {
        lemma_restart_target_shape(config.file_spec, *ts, m);
        assert(target@ == config.file_spec.spec_path(
            Some(spec_timestamp_infix(*ts) + spec_restart_suffix(m)),
        ));
        // the chosen tie-breaker number is above every taken one, so the
        // name is fresh
        if dir.has(target@) {
            assert(restart_sibling(target@, base_stem@));
            let j = choose|j: int| 0 <= j < dir.names().len() && dir.names()[j] == target@;
            assert(views(names@)[j] == target@);
            assert(found);
            assert(restart_num_of(target@, base_stem@) <= maxn);
            assert(restart_num_of(target@, base_stem@) == m);
            assert(false);
        }
    }
    dir.rename_file(current.as_str(), target.as_str());
    proof {
        let cur = config.file_spec.spec_path(Some(current_infix()));
        let tgt = target@;
        assert(matches_rotated(tgt, config.file_spec, config.file_spec.suffix@));
        assert(restart_sibling(tgt, spec_base_stem(*config, *ts)));
        assert(restart_num_of(tgt, spec_base_stem(*config, *ts)) == m);
        assert forall|nm: Seq<char>|
            old(dir).has(nm) && #[trigger] restart_sibling(
                nm,
                spec_base_stem(*config, *ts),
            ) implies restart_num_of(nm, spec_base_stem(*config, *ts)) < m by {
            assert(found);
            assert(restart_num_of(nm, base_stem@) <= maxn);
        }
        assert forall|nm: Seq<char>|
            nm != cur && nm != tgt implies #[trigger] dir.has(nm) == old(dir).has(nm) && (old(
            dir,
        ).has(nm) ==> dir.content(nm) == old(dir).content(nm)) by {
            assert(nm != current@ && nm != target@);
            assert(dir.has(nm) == old(dir).has(nm));
            assert(old(dir).has(nm) ==> dir.content(nm) == old(dir).content(nm));
        }
        assert(untouched_except_pair(*old(dir), *dir, cur, tgt));
        assert(dir.file_count() == old(dir).file_count());
        assert(old(dir).has(cur));
        assert(!old(dir).has(tgt));
        assert(tgt != cur);
        assert(!dir.has(cur));
        assert(dir.has(tgt));
        assert(dir.content(tgt) == old(dir).content(cur));
    }
    Ok(Some(target))
}

impl State {
    /// Well-formedness: a workable suffix and valid instants and ages.
    pub open spec fn wf(self) -> bool {
        &&& config_wf(self.config)
        &&& match self.inner {
            Inner::Initial(Some(rc), _) => criterion_wf(rc.criterion),
            Inner::Initial(None, _) => true,
            Inner::Active(Some(rs)) => roll_state_wf(rs.roll_state) && rs.created_at.wf()
                && rs.created_at.year >= 0,
            Inner::Active(None) => true,
        }
    }

    /// Whether the sink rotates, in either phase.
    pub open spec fn spec_uses_rotation(self) -> bool {
        match self.inner {
            Inner::Initial(o_rotation_config, _) => o_rotation_config is Some,
            Inner::Active(o_rotation_state) => o_rotation_state is Some,
        }
    }

    /// The path of the file the sink writes into: with the `_rCURRENT`
    /// infix when rotation is configured, plain otherwise.
    pub open spec fn spec_current_path(self) -> Seq<char> {
        self.config.file_spec.spec_path(
            if self.spec_uses_rotation() {
                Some(current_infix())
            } else {
                None
            },
        )
    }

    /// A sink in its initial phase, before any file is opened.
    pub fn try_new(
        config: Config,
        o_rotation_config: Option<RotationConfig>,
        cleanup_in_background_thread: bool,
    ) -> (r: State)
        requires
            config_wf(config),
            o_rotation_config matches Some(rc) ==> criterion_wf(rc.criterion),
        ensures
            r.wf(),
            r.config == config,
            r.inner == Inner::Initial(o_rotation_config, cleanup_in_background_thread),
    {
        State { config, inner: Inner::Initial(o_rotation_config, cleanup_in_background_thread) }
    }

    /// The fixed configuration.
    pub fn config(&self) -> (r: &Config)
        ensures
            *r == self.config,
    {
        &self.config
    }

    /// Flushing is the identity here: the model keeps no buffer, every
    /// write is already in its file.
    pub fn flush(&mut self) -> (r: Result<(), FlexiLoggerError>)
        ensures
            *final(self) == *old(self),
            r == Ok::<(), FlexiLoggerError>(()),
    {
        Ok(())
    }

    /// The path that is (or would be) the active file.
    pub fn current_filename(&self) -> (r: String)
        ensures
            r@ == self.spec_current_path(),
    {
        let with_rotation = match &self.inner {
            Inner::Initial(o_rotation_config, _) => o_rotation_config.is_some(),
            Inner::Active(o_rotation_state) => o_rotation_state.is_some(),
        };
        if with_rotation {
            self.config.file_spec.as_pathbuf(Some(current_infix_str()))
        } else {
            self.config.file_spec.as_pathbuf(None)
        }
    }

    /// Releases the retention worker and flushes.  Everything else stays;
    /// a second call finds nothing left to do.
    pub fn shutdown(&mut self)
        ensures
            *final(self) == spec_shutdown(*old(self)),
    {
        let mut inner = Inner::Active(None);
        core::mem::swap(&mut inner, &mut self.inner);
        match inner {
            Inner::Active(Some(rs)) => {
                self.inner = Inner::Active(
                    Some(RotationState { retention_active: false, ..rs }),
                );
            },
            other => {
                self.inner = other;
            },
        }
    }
}

/// The path the sink opens: with the `_rCURRENT` infix when rotating.
pub open spec fn spec_open_path(config: Config, with_rotation: bool) -> Seq<char> {
    config.file_spec.spec_path(
        if with_rotation {
            Some(current_infix())
        } else {
            None
        },
    )
}

/// Opens the sink's file: it exists afterwards, emptied unless the
/// configuration appends, and nothing else in the directory moves.
fn open_log_file(dir: &mut Directory, config: &Config, with_rotation: bool)
    requires
        old(dir).wf(),
    ensures
        final(dir).wf(),
        final(dir).has(spec_open_path(*config, with_rotation)),
        final(dir).content(spec_open_path(*config, with_rotation)) == (if config.append && old(
            dir,
        ).has(spec_open_path(*config, with_rotation)) {
            old(dir).content(spec_open_path(*config, with_rotation))
        } else {
            Seq::<u8>::empty()
        }),
        forall|nm: Seq<char>|
            nm != spec_open_path(*config, with_rotation) ==> #[trigger] final(dir).has(nm) == old(
                dir,
            ).has(nm) && (old(dir).has(nm) ==> final(dir).content(nm) == old(dir).content(nm)),
        final(dir).file_count() == old(dir).file_count() + (if old(dir).has(
            spec_open_path(*config, with_rotation),
        ) {
            0int
        } else {
            1int
        }),
{
    let path = if with_rotation {
        config.file_spec.as_pathbuf(Some(current_infix_str()))
    } else {
        config.file_spec.as_pathbuf(None)
    };
    proof {
        assert(path@ == spec_open_path(*config, with_rotation));
    }
    if config.append {
        if !dir.exists_file(path.as_str()) {
            dir.create_or_truncate(path.as_str());
            proof {
                assert(dir.content(path@) =~= Seq::<u8>::empty());
            }
        }
    } else {
        dir.create_or_truncate(path.as_str());
        proof {
            assert(dir.content(path@) =~= Seq::<u8>::empty());
        }
    }
    proof {
        assert forall|nm: Seq<char>|
            nm != spec_open_path(*config, with_rotation) implies #[trigger] dir.has(nm) == old(
            dir,
        ).has(nm) && (old(dir).has(nm) ==> dir.content(nm) == old(dir).content(nm)) by {
            assert(nm != path@);
            assert(dir.has(nm) == old(dir).has(nm));
            assert(old(dir).has(nm) ==> dir.content(nm) == old(dir).content(nm));
        }
    }
}

impl State {
    /// The idempotent transition from the initial phase to the active one:
    /// for number naming, discover the highest taken index; unless
    /// appending, rotate a left-over active file aside; open the active
    /// file; seed the size counter from what the file already holds; run
    /// retention once.  An already active sink is left exactly as it is.
    #[verifier::rlimit(100)]
    pub fn initialize(&mut self, dir: &mut Directory, now: &Timestamp) -> (r: Result<
        (),
        FlexiLoggerError,
    >)
        requires
            old(self).wf(),
            old(dir).wf(),
            now.wf(),
            now.year >= 0,
        ensures
            final(self).wf(),
            final(dir).wf(),
            final(self).config == old(self).config,
            old(self).inner is Active ==> *final(self) == *old(self) && *final(dir) == *old(dir)
                && r == Ok::<(), FlexiLoggerError>(()),
            r is Err ==> *final(self) == *old(self) && *final(dir) == *old(dir) && r == Err::<
                (),
                FlexiLoggerError,
            >(FlexiLoggerError::Io),
            r is Err <==> (match old(self).inner {
                Inner::Initial(Some(rc), _) => !old(self).config.append && old(dir).has(
                    spec_open_path(old(self).config, true),
                ) && rotation_blocked(*old(dir), old(self).config, rc.naming, *now),
                _ => false,
            }),
            match old(self).inner {
                Inner::Initial(Some(rc), _) => r is Ok && rc.naming is Numbers ==> (match final(self).inner {
                    Inner::Active(Some(rs)) => match rs.naming_state {
                        NamingState::IdxState(s) => {
                            &&& (old(self).config.append || !old(dir).has(
                                spec_open_path(old(self).config, true),
                            ) ==> is_highest_idx(s, *old(dir), old(self).config.file_spec))
                            &&& (!old(self).config.append && old(dir).has(
                                spec_open_path(old(self).config, true),
                            ) ==> idx_advanced_from(s, *old(dir), old(self).config.file_spec))
                        },
                        _ => false,
                    },
                    _ => false,
                }),
                _ => true,
            },
            match old(self).inner {
                Inner::Initial(Some(rc), _) => r is Ok && !old(self).config.append && old(
                    dir,
                ).has(spec_open_path(old(self).config, true)) && rc.cleanup is Never
                    ==> bytes_live_on(*old(dir), *final(dir), old(self).config),
                _ => true,
            },
            match old(self).inner {
                Inner::Initial(Some(rc), _) => r is Ok && old(self).config.append && rc.cleanup
                    is Never ==> untouched_except(
                    *old(dir),
                    *final(dir),
                    spec_open_path(old(self).config, true),
                ),
                _ => true,
            },
            match old(self).inner {
                Inner::Initial(Some(rc), _) => r is Ok && !old(dir).has(
                    spec_open_path(old(self).config, true),
                ) && rc.cleanup is Never ==> untouched_except(
                    *old(dir),
                    *final(dir),
                    spec_open_path(old(self).config, true),
                ) && final(dir).file_count() == old(dir).file_count() + 1,
                _ => true,
            },
            match old(self).inner {
                Inner::Initial(Some(rc), _) => r is Ok && !old(self).config.append && old(
                    dir,
                ).has(spec_open_path(old(self).config, true)) && rc.cleanup is Never ==> (
                match final(self).inner {
                    Inner::Active(Some(rs)) => match rs.naming_state {
                        NamingState::IdxState(s) => match s {
                            IdxState::Idx(k) => rotated_to_number_name(
                                *old(dir),
                                *final(dir),
                                old(self).config,
                                k,
                            ),
                            IdxState::Start => false,
                        },
                        NamingState::CreatedAt => rotated_to_timestamp_name(
                            *old(dir),
                            *final(dir),
                            old(self).config,
                            *now,
                        ),
                    },
                    _ => false,
                }),
                _ => true,
            },
            match old(self).inner {
                Inner::Initial(Some(rc), _) => r is Ok && !(rc.cleanup is Never)
                    ==> crate::cleanup::rotated_set(
                    *final(dir),
                    old(self).config.file_spec,
                    old(self).config.file_spec.suffix@,
                ).finite() && crate::cleanup::rotated_set(
                    *final(dir),
                    old(self).config.file_spec,
                    old(self).config.file_spec.suffix@,
                ).len() <= crate::cleanup::spec_limits(rc.cleanup).0,
                _ => true,
            },
            (old(self).inner matches Inner::Initial(None, _)) ==> r == Ok::<(), FlexiLoggerError>(
                (),
            ) && final(self).inner == Inner::Active(None) && final(dir).has(
                spec_open_path(old(self).config, false),
            ) && final(dir).content(spec_open_path(old(self).config, false)) == (if old(
                self,
            ).config.append && old(dir).has(spec_open_path(old(self).config, false)) {
                old(dir).content(spec_open_path(old(self).config, false))
            } else {
                Seq::<u8>::empty()
            }),
            (old(self).inner matches Inner::Initial(None, _)) && r is Ok
                ==> ordinary_files_untouched(
                *old(dir),
                *final(dir),
                old(self).config.file_spec,
                spec_open_path(old(self).config, false),
            ),
            (old(self).inner matches Inner::Initial(Some(_), _)) && r is Ok
                ==> ordinary_files_untouched(
                *old(dir),
                *final(dir),
                old(self).config.file_spec,
                spec_open_path(old(self).config, true),
            ),
            match old(self).inner {
                Inner::Initial(Some(rc), bg) => r is Ok ==> (match final(self).inner {
                    Inner::Active(Some(rs)) => post_init_rotation(
                        *old(self),
                        rs,
                        *final(dir),
                        rc,
                        bg,
                        *now,
                    ),
                    _ => false,
                }) && final(dir).has(spec_open_path(old(self).config, true)) && final(dir).content(spec_open_path(old(self).config, true)) == (if old(self).config.append
                    && old(dir).has(spec_open_path(old(self).config, true)) {
                    old(dir).content(spec_open_path(old(self).config, true))
                } else {
                    Seq::<u8>::empty()
                }) && (
                rc.cleanup is Never && !old(self).config.append ==> final(dir).file_count() == old(
                    dir,
                ).file_count() + 1) && (rc.cleanup is Never && old(self).config.append ==> final(dir).file_count() == old(dir).file_count() + (if old(dir).has(
                    spec_open_path(old(self).config, true),
                ) {
                    0int
                } else {
                    1int
                })),
                _ => true,
            },
    {
        let is_active = match &self.inner {
            Inner::Active(_) => true,
            Inner::Initial(_, _) => false,
        };
        if is_active {
            return Ok(());
        }
        let mut inner = Inner::Active(None);
        core::mem::swap(&mut inner, &mut self.inner);
        let (o_rotation_config, cleanup_in_background) = match inner {
            Inner::Initial(o_rc, bg) => (o_rc, bg),
            Inner::Active(_) => {
                proof {
                    assert(false);
                }
                (None, false)
            },
        };
        match o_rotation_config {
            None => {
                open_log_file(dir, &self.config, false);
                proof {
                    let path = spec_open_path(self.config, false);
                    assert forall|nm: Seq<char>|
                        !matches_any_rotated(nm, self.config.file_spec) && nm != path implies #[trigger] dir.has(
                        nm,
                    ) == old(dir).has(nm) && (old(dir).has(nm) ==> dir.content(nm) == old(
                        dir,
                    ).content(nm)) by {
                        assert(dir.has(nm) == old(dir).has(nm));
                        assert(old(dir).has(nm) ==> dir.content(nm) == old(dir).content(nm));
                    }
                    assert(ordinary_files_untouched(
                        *old(dir),
                        *dir,
                        self.config.file_spec,
                        path,
                    ));
                }
                self.inner = Inner::Active(None);
                Ok(())
            },
            Some(rotate_config) => {
                let ghost dir_in = *dir;
                let naming_state = match rotate_before_open(
                    dir,
                    &self.config,
                    &rotate_config.naming,
                    now,
                ) {
                    Ok(ns) => ns,
                    Err(e) => {
                        self.inner = Inner::Initial(Some(rotate_config), cleanup_in_background);
                        return Err(e);
                    },
                };
                let ghost dir_rotated = *dir;
                proof {
                    assert(dir_rotated.file_count() == dir_in.file_count());
                    let p = spec_open_path(self.config, true);
                    assert forall|nm: Seq<char>|
                        !matches_any_rotated(nm, self.config.file_spec) && nm != p implies dir_rotated.has(
                        nm,
                    ) == dir_in.has(nm) && (dir_in.has(nm) ==> dir_rotated.content(nm)
                        == dir_in.content(nm)) by {}
                }
                open_log_file(dir, &self.config, true);
                let ghost dir_opened = *dir;
                proof {
                    let p = spec_open_path(self.config, true);
                    assert forall|nm: Seq<char>| nm != p implies dir.has(nm) == dir_rotated.has(
                        nm,
                    ) && (dir_rotated.has(nm) ==> dir.content(nm) == dir_rotated.content(nm)) by {}
                }
                let active = self.config.file_spec.as_pathbuf(Some(current_infix_str()));
                let written_bytes: u64 = if self.config.append {
                    match dir.read(active.as_str()) {
                        Some(content) => content.len() as u64,
                        None => {
                            proof {
                                assert(false);
                            }
                            0
                        },
                    }
                } else {
                    0
                };
                let roll_state = match &rotate_config.criterion {
                    Criterion::Age(age) => RollState::Age(age.clone()),
                    Criterion::Size(size) => RollState::Size(*size, written_bytes),
                    Criterion::AgeOrSize(age, size) => {
                        RollState::AgeOrSize(age.clone(), *size, written_bytes)
                    },
                };
                let do_cleanup = rotate_config.cleanup.do_cleanup();
                if do_cleanup {
                    remove_or_compress_too_old_logfiles_impl(
                        dir,
                        &rotate_config.cleanup,
                        &self.config.file_spec,
                    );
                }
                proof {
                    crate::siblings::lemma_current_not_rotated(
                        self.config.file_spec,
                        self.config.file_spec.suffix@,
                    );
                    crate::siblings::lemma_current_not_rotated(
                        self.config.file_spec,
                        seq!['g', 'z'],
                    );
                    crate::siblings::lemma_current_not_rotated(
                        self.config.file_spec,
                        seq!['z', 'i', 'p'],
                    );
                    assert(!matches_any_rotated(
                        spec_open_path(self.config, true),
                        self.config.file_spec,
                    ));
                }
                proof {
                    let path = spec_open_path(self.config, true);
                    // the active file survives retention untouched
                    assert(dir.has(path));
                    assert(dir.content(path) == dir_opened.content(path));
                    if self.config.append {
                        assert(dir_rotated == dir_in);
                        assert(dir.content(path) == (if self.config.append && dir_in.has(path) {
                            dir_in.content(path)
                        } else {
                            Seq::<u8>::empty()
                        }));
                    } else {
                        assert(!dir_rotated.has(path));
                        assert(dir_opened.content(path) =~= Seq::<u8>::empty());
                    }
                    // every other ordinary file is exactly as it was
                    assert forall|nm: Seq<char>|
                        !matches_any_rotated(nm, self.config.file_spec) && nm != path implies #[trigger] dir.has(
                        nm,
                    ) == dir_in.has(nm) && (dir_in.has(nm) ==> dir.content(nm) == dir_in.content(
                        nm,
                    )) by {
                        assert(dir_rotated.has(nm) == dir_in.has(nm) && (dir_in.has(nm)
                            ==> dir_rotated.content(nm) == dir_in.content(nm)));
                        assert(dir_opened.has(nm) == dir_rotated.has(nm) && (dir_rotated.has(nm)
                            ==> dir_opened.content(nm) == dir_rotated.content(nm)));
                        assert(dir.has(nm) == dir_opened.has(nm) && (dir_opened.has(nm)
                            ==> dir.content(nm) == dir_opened.content(nm)));
                    }
                    assert(ordinary_files_untouched(
                        *old(dir),
                        *dir,
                        self.config.file_spec,
                        path,
                    ));
                    if self.config.append && rotate_config.cleanup is Never {
                        assert(dir_rotated == dir_in);
                        assert(*dir == dir_opened);
                        assert forall|nm: Seq<char>| nm != path implies #[trigger] dir.has(nm)
                            == dir_in.has(nm) && (dir_in.has(nm) ==> dir.content(nm)
                            == dir_in.content(nm)) by {
                            assert(dir.has(nm) == dir_rotated.has(nm));
                            assert(dir_rotated.has(nm) ==> dir.content(nm) == dir_rotated.content(
                                nm,
                            ));
                        }
                        assert(untouched_except(dir_in, *dir, path));
                    }
                    if rotate_config.cleanup is Never {
                        assert(*dir == dir_opened);
                        if self.config.append {
                            assert(dir.file_count() == dir_in.file_count() + (if dir_in.has(path) {
                                0int
                            } else {
                                1int
                            }));
                        } else {
                            assert(dir.file_count() == dir_in.file_count() + 1);
                        }
                        if !dir_in.has(path) {
                            // nothing to rotate: the only change is the
                            // freshly opened active file
                            assert(dir_rotated == dir_in);
                            assert forall|nm: Seq<char>| nm != path implies #[trigger] dir.has(nm)
                                == dir_in.has(nm) && (dir_in.has(nm) ==> dir.content(nm)
                                == dir_in.content(nm)) by {
                                assert(dir.has(nm) == dir_rotated.has(nm));
                                assert(dir_rotated.has(nm) ==> dir.content(nm)
                                    == dir_rotated.content(nm));
                            }
                            assert(untouched_except(dir_in, *dir, path));
                        }
                        if !self.config.append && dir_in.has(path) {
                            // the rename target carries the old bytes and
                            // nothing after the rotation touched it
                            match naming_state {
                                NamingState::IdxState(s) => {
                                    match s {
                                        IdxState::Idx(k) => {
                                            let tgt = self.config.file_spec.spec_path(
                                                Some(spec_number_infix(k)),
                                            );
                                            lemma_number_path_matches(self.config.file_spec, k);
                                            assert(tgt != path);
                                            assert(dir_rotated.has(tgt) && dir_rotated.content(
                                                tgt,
                                            ) == dir_in.content(path));
                                            assert(dir.has(tgt) == dir_rotated.has(tgt));
                                            assert(dir_rotated.has(tgt) ==> dir.content(tgt)
                                                == dir_rotated.content(tgt));
                                            assert(rotated_to_number_name(
                                                dir_in,
                                                *dir,
                                                self.config,
                                                k,
                                            ));
                                        },
                                        IdxState::Start => {
                                            assert(false);
                                        },
                                    }
                                },
                                NamingState::CreatedAt => {
                                    let t = choose|t: Seq<char>|
                                        dir_rotated.has(t) && #[trigger] dir_rotated.content(t)
                                            == dir_in.content(path) && timestamp_target_name(
                                            t,
                                            dir_in,
                                            self.config,
                                            *now,
                                        );
                                    assert(dir_rotated.has(t) && dir_rotated.content(t)
                                        == dir_in.content(path) && timestamp_target_name(
                                        t,
                                        dir_in,
                                        self.config,
                                        *now,
                                    ));
                                    assert(t != path);
                                    assert(dir.has(t) == dir_rotated.has(t));
                                    assert(dir_rotated.has(t) ==> dir.content(t)
                                        == dir_rotated.content(t));
                                    assert(rotated_to_timestamp_name(
                                        dir_in,
                                        *dir,
                                        self.config,
                                        *now,
                                    ));
                                },
                            }
                        }
                    }
                }
                let retention_active = do_cleanup && cleanup_in_background;
                self.inner = Inner::Active(
                    Some(
                        RotationState {
                            naming_state,
                            roll_state,
                            created_at: *now,
                            cleanup: rotate_config.cleanup,
                            retention_active,
                        },
                    ),
                );
                Ok(())
            },
        }
    }
}

/// Every file that is neither a rotated sibling nor the active file is
/// exactly as it was.
pub open spec fn ordinary_files_untouched(
    pre: Directory,
    post: Directory,
    fs: FileSpec,
    active: Seq<char>,
) -> bool {
    forall|nm: Seq<char>|
        !(#[trigger] matches_any_rotated(nm, fs)) && nm != active ==> post.has(nm) == pre.has(nm)
            && (pre.has(nm) ==> post.content(nm) == pre.content(nm))
}

/// Leaving the ordinary files alone twice over leaves them alone.
proof fn lemma_untouched_trans(
    a: Directory,
    b: Directory,
    c: Directory,
    fs: FileSpec,
    active: Seq<char>,
)
    requires
        ordinary_files_untouched(a, b, fs, active),
        ordinary_files_untouched(b, c, fs, active),
    ensures
        ordinary_files_untouched(a, c, fs, active),
{
    assert forall|nm: Seq<char>|
        !matches_any_rotated(nm, fs) && nm != active implies #[trigger] c.has(nm) == a.has(nm) && (
        a.has(nm) ==> c.content(nm) == a.content(nm)) by {
        assert(b.has(nm) == a.has(nm) && (a.has(nm) ==> b.content(nm) == a.content(nm)));
        assert(c.has(nm) == b.has(nm) && (b.has(nm) ==> c.content(nm) == b.content(nm)));
    }
}

/// A rotated numbered path is itself a rotated sibling.
proof fn lemma_number_path_matches(fs: FileSpec, k: u32)
    requires
        suffix_fit_for_retention(fs.suffix@),
        forall|i: int| 0 <= i < fs.suffix@.len() ==> #[trigger] fs.suffix@[i] != '/',
    ensures
        matches_rotated(fs.spec_path(Some(spec_number_infix(k))), fs, fs.suffix@),
{
    let infix = spec_number_infix(k);
    let path = fs.spec_path(Some(infix));
    let prefix = crate::siblings::rotated_prefix(fs);
    let head = fs.directory@ + seq!['/'] + fs.basename@ + (match fs.o_discriminant {
        Some(d) => seq!['_'] + d@,
        None => Seq::<char>::empty(),
    });
    let digits = padded_digits(k as nat, 5);
    lemma_parse_padded_roundtrip(k as nat, 5);
    assert(path =~= head + seq!['_', 'r'] + digits + seq!['.'] + fs.suffix@);
    assert(prefix =~= head + seq!['_', 'r']);
    assert forall|i: int| 0 <= i < prefix.len() implies #[trigger] path[i] == prefix[i] by {
        if i < head.len() {
            assert(path[i] == head[i] && prefix[i] == head[i]);
        } else {
            assert(path[i] == seq!['_', 'r'][i - head.len()]);
            assert(prefix[i] == seq!['_', 'r'][i - head.len()]);
        }
    }
    assert(path.take(prefix.len() as int) =~= prefix);
    assert(path[prefix.len() as int] == digits[0]);
    assert(path.subrange(path.len() - (seq!['.'] + fs.suffix@).len(), path.len() as int) =~= seq![
        '.',
    ] + fs.suffix@);
    assert forall|i: int|
        prefix.len() <= i < path.len() - fs.suffix@.len() - 1 implies #[trigger] path[i] != '/' by {
        assert(path[i] == digits[i - prefix.len()]);
        assert(crate::strutil::is_dec_digit(digits[i - prefix.len()]));
    }
    assert(matches_rotated(path, fs, fs.suffix@));
}

/// Moves a left-over active file aside before the first open, per the
/// naming scheme, unless the sink appends.  On success the active file's
/// name is free, its bytes live on under a rotated sibling's name, nothing
/// else moved, and the naming state is seeded: the discovered highest
/// index for number naming, the creation instant for timestamps.
fn rotate_before_open(dir: &mut Directory, config: &Config, naming: &Naming, now: &Timestamp) -> (r:
    Result<NamingState, FlexiLoggerError>)
    requires
        old(dir).wf(),
        config_wf(*config),
        now.wf(),
        now.year >= 0,
    ensures
        final(dir).wf(),
        r is Err ==> *final(dir) == *old(dir) && r == Err::<NamingState, FlexiLoggerError>(
            FlexiLoggerError::Io,
        ),
        r is Err <==> !config.append && old(dir).has(spec_open_path(*config, true))
            && rotation_blocked(*old(dir), *config, *naming, *now),
        r is Ok ==> {
            &&& (naming matches Naming::Timestamps(_) ==> r == Ok::<
                NamingState,
                FlexiLoggerError,
            >(NamingState::CreatedAt))
            &&& (naming is Numbers ==> r matches Ok(NamingState::IdxState(_)))
            &&& (!config.append ==> !final(dir).has(spec_open_path(*config, true)))
            &&& (config.append ==> *final(dir) == *old(dir))
            &&& (!old(dir).has(spec_open_path(*config, true)) ==> *final(dir) == *old(dir))
            &&& final(dir).file_count() == old(dir).file_count()
            &&& (!config.append && old(dir).has(spec_open_path(*config, true)) ==> match r {
                Ok(NamingState::IdxState(s)) => match s {
                    IdxState::Idx(k) => rotated_to_number_name(*old(dir), *final(dir), *config, k),
                    IdxState::Start => false,
                },
                Ok(NamingState::CreatedAt) => rotated_to_timestamp_name(
                    *old(dir),
                    *final(dir),
                    *config,
                    *now,
                ),
                _ => true,
            })
            &&& (old(dir).has(spec_open_path(*config, true)) && !config.append ==> exists|
                t: Seq<char>|
                final(dir).has(t) && #[trigger] final(dir).content(t) == old(dir).content(
                    spec_open_path(*config, true),
                ) && matches_rotated(t, config.file_spec, config.file_spec.suffix@))
            &&& (match r {
                Ok(NamingState::IdxState(s)) => {
                    &&& (config.append || !old(dir).has(spec_open_path(*config, true))
                        ==> is_highest_idx(s, *old(dir), config.file_spec))
                    &&& (!config.append && old(dir).has(spec_open_path(*config, true))
                        ==> idx_advanced_from(s, *old(dir), config.file_spec))
                },
                _ => true,
            })
        },
        r is Ok ==> ordinary_files_untouched(
            *old(dir),
            *final(dir),
            config.file_spec,
            spec_open_path(*config, true),
        ),
{
    let ghost active = spec_open_path(*config, true);
    match naming {
        Naming::Timestamps(_) => {
            if !config.append {
                let rotated = match rotate_output_file_to_date(dir, config, now) {
                    Ok(o) => o,
                    Err(e) => {
                        return Err(e);
                    },
                };
                proof {
                    match rotated {
                        Some(t) => {
                            assert(!dir.has(active));
                            assert(dir.has(t@) && dir.content(t@) == old(dir).content(active));
                        },
                        None => {
                            assert(!old(dir).has(active));
                        },
                    }
                }
            }
            proof {
                assert forall|nm: Seq<char>|
                    !(#[trigger] matches_any_rotated(nm, config.file_spec)) && nm != active implies dir.has(
                    nm,
                ) == old(dir).has(nm) && (old(dir).has(nm) ==> dir.content(nm) == old(dir).content(
                    nm,
                )) by {
                    assert(dir.has(nm) == old(dir).has(nm));
                    assert(old(dir).has(nm) ==> dir.content(nm) == old(dir).content(nm));
                }
                assert(ordinary_files_untouched(*old(dir), *dir, config.file_spec, active));
            }
            Ok(NamingState::CreatedAt)
        },
        Naming::Numbers => {
            let mut idx_state = get_highest_rotate_idx(dir, &config.file_spec);
            proof {
                // the discovered index tops out exactly when some sibling
                // already carries the largest representable index
                if idx_state == IdxState::Idx(u32::MAX) {
                    let nm = choose|nm: Seq<char>|
                        dir.has(nm) && matches_any_rotated(nm, config.file_spec) && idx_of_name(
                            nm,
                        ) == u32::MAX;
                    assert(idx_exhausted(*old(dir), config.file_spec));
                } else {
                    if idx_exhausted(*old(dir), config.file_spec) {
                        let nm = choose|nm: Seq<char>|
                            old(dir).has(nm) && #[trigger] matches_any_rotated(
                                nm,
                                config.file_spec,
                            ) && idx_of_name(nm) == u32::MAX;
                        assert(idx_of_name(nm) <= idx_state->Idx_0);
                        assert(false);
                    }
                }
            }
            if !config.append {
                let ghost dominated = idx_state;
                if dir.exists_file(config.file_spec.as_pathbuf(Some(current_infix_str())).as_str())
                {
                    proof {
                        // the next index names a file nobody holds yet
                        let next = spec_next_idx(idx_state) as u32;
                        let target = config.file_spec.spec_path(Some(spec_number_infix(next)));
                        if idx_state != IdxState::Idx(u32::MAX) && dir.has(target) {
                            lemma_number_path_matches(config.file_spec, next);
                            lemma_idx_of_number_path(config.file_spec, next);
                            assert(idx_of_name(target) <= idx_state->Idx_0);
                            assert(false);
                        }
                    }
                }
                match rotate_output_file_to_idx(dir, config, idx_state) {
                    Ok(next) => {
                        proof {
                            if old(dir).has(active) {
                                lemma_number_path_matches(
                                    config.file_spec,
                                    spec_next_idx(dominated) as u32,
                                );
                            }
                        }
                        idx_state = next;
                    },
                    Err(e) => {
                        return Err(e);
                    },
                }
            }
            proof {
                assert forall|nm: Seq<char>|
                    !(#[trigger] matches_any_rotated(nm, config.file_spec)) && nm != active implies dir.has(
                    nm,
                ) == old(dir).has(nm) && (old(dir).has(nm) ==> dir.content(nm) == old(dir).content(
                    nm,
                )) by {
                    assert(dir.has(nm) == old(dir).has(nm));
                    assert(old(dir).has(nm) ==> dir.content(nm) == old(dir).content(nm));
                }
                assert(ordinary_files_untouched(*old(dir), *dir, config.file_spec, active));
            }
            Ok(NamingState::IdxState(idx_state))
        },
    }
}

/// How the roll state looks right after a rotation: the criterion and its
/// limits stand, any size counter is back at zero.
pub open spec fn roll_state_reset(pre: RollState, post: RollState) -> bool {
    match (pre, post) {
        (RollState::Size(m1, _), RollState::Size(m2, c2)) => m1 == m2 && c2 == 0,
        (RollState::Age(a1), RollState::Age(a2)) => a1 == a2,
        (RollState::AgeOrSize(a1, m1, _), RollState::AgeOrSize(a2, m2, c2)) => a1 == a2 && m1 == m2
            && c2 == 0,
        _ => false,
    }
}

/// How the roll state looks after more bytes went out: the criterion and
/// its limits stand, any size counter grew by the written length, capped at
/// the largest representable size.
pub open spec fn roll_state_grown(pre: RollState, post: RollState, len: nat) -> bool {
    match (pre, post) {
        (RollState::Size(m1, c1), RollState::Size(m2, c2)) => m1 == m2 && c2 == (if c1 + len
            <= u64::MAX {
            (c1 + len) as u64
        } else {
            u64::MAX
        }),
        (RollState::Age(a1), RollState::Age(a2)) => a1 == a2,
        (RollState::AgeOrSize(a1, m1, c1), RollState::AgeOrSize(a2, m2, c2)) => a1 == a2 && m1
            == m2 && c2 == (if c1 + len <= u64::MAX {
            (c1 + len) as u64
        } else {
            u64::MAX
        }),
        _ => false,
    }
}

/// What a completed rotation leaves behind: the same configuration with a
/// fresh creation instant and a reset size counter, an empty active file,
/// and, without retention, the old active bytes under some rotated
/// sibling's name.
pub open spec fn spec_rotated_outcome(
    pre_state: State,
    post_state: State,
    pre_dir: Directory,
    post_dir: Directory,
    now: Timestamp,
) -> bool {
    let active = spec_open_path(pre_state.config, true);
    match (pre_state.inner, post_state.inner) {
        (Inner::Active(Some(rs)), Inner::Active(Some(rs2))) => {
            &&& rs2.cleanup == rs.cleanup
            &&& rs2.retention_active == rs.retention_active
            &&& rs2.created_at == now
            &&& roll_state_reset(rs.roll_state, rs2.roll_state)
            &&& (rs.naming_state is CreatedAt <==> rs2.naming_state is CreatedAt)
            &&& post_dir.has(active)
            &&& post_dir.content(active) == Seq::<u8>::empty()
            &&& ordinary_files_untouched(pre_dir, post_dir, pre_state.config.file_spec, active)
            &&& (rs.cleanup is Never && pre_dir.has(active) ==> bytes_live_on(
                pre_dir,
                post_dir,
                pre_state.config,
            ))
            &&& (rs.cleanup is Never && pre_dir.has(active) ==> match (
            rs.naming_state,
            rs2.naming_state,
            ) {
                (NamingState::IdxState(_), NamingState::IdxState(s2)) => match s2 {
                    IdxState::Idx(k2) => rotated_to_number_name(
                        pre_dir,
                        post_dir,
                        pre_state.config,
                        k2,
                    ),
                    IdxState::Start => false,
                },
                (NamingState::CreatedAt, _) => rotated_to_timestamp_name(
                    pre_dir,
                    post_dir,
                    pre_state.config,
                    rs.created_at,
                ),
                _ => true,
            })
            &&& (rs.cleanup is Never ==> pre_dir.file_count() <= post_dir.file_count()
                <= pre_dir.file_count() + 1)
            &&& (rs.cleanup is Never && rs.naming_state is CreatedAt ==> post_dir.file_count()
                == pre_dir.file_count() + 1)
        },
        _ => false,
    }
}

/// The exact shape the timestamped rename chooses for an instant: the
/// base name, or the base name with a tie-breaker strictly above every
/// one taken; and the base name itself whenever it and its tie-breakers
/// were all free.
pub open spec fn timestamp_target_name(
    t: Seq<char>,
    pre: Directory,
    config: Config,
    ts: Timestamp,
) -> bool {
    let base = config.file_spec.spec_path(Some(spec_timestamp_infix(ts)));
    &&& (t == base || t == config.file_spec.spec_path(
        Some(
            spec_timestamp_infix(ts) + spec_restart_suffix(
                restart_num_of(t, spec_base_stem(config, ts)),
            ),
        ),
    ))
    &&& (t != base ==> restart_sibling(t, spec_base_stem(config, ts)) && (forall|nm: Seq<char>|
        pre.has(nm) && #[trigger] restart_sibling(nm, spec_base_stem(config, ts))
            ==> restart_num_of(nm, spec_base_stem(config, ts)) < restart_num_of(
            t,
            spec_base_stem(config, ts),
        )))
    &&& ((!pre.has(base) && (forall|nm: Seq<char>|
        pre.has(nm) ==> !(#[trigger] restart_sibling(nm, spec_base_stem(config, ts))))) ==> t
        == base)
}

/// The old active bytes moved to the numbered sibling with this index.
pub open spec fn rotated_to_number_name(
    pre: Directory,
    post: Directory,
    config: Config,
    k: u32,
) -> bool {
    let target = config.file_spec.spec_path(Some(spec_number_infix(k)));
    post.has(target) && post.content(target) == pre.content(spec_open_path(config, true))
}

/// The old active bytes moved to the timestamped name for `ts`, of the
/// exact shape the rename protocol chooses.
pub open spec fn rotated_to_timestamp_name(
    pre: Directory,
    post: Directory,
    config: Config,
    ts: Timestamp,
) -> bool {
    exists|t: Seq<char>|
        post.has(t) && #[trigger] post.content(t) == pre.content(spec_open_path(config, true))
            && t != spec_open_path(config, true) && timestamp_target_name(t, pre, config, ts)
}

/// The bytes of the old active file live on under a rotated sibling's
/// name.
pub open spec fn bytes_live_on(pre_dir: Directory, post_dir: Directory, config: Config) -> bool {
    exists|t: Seq<char>|
        post_dir.has(t) && #[trigger] post_dir.content(t) == pre_dir.content(
            spec_open_path(config, true),
        ) && matches_rotated(t, config.file_spec, config.file_spec.suffix@)
}

impl State {
    /// Performs the rename protocol when the rotation policy asks for it:
    /// move the active file to its rotated name, reopen a fresh active
    /// file, reset the counters, run retention.  Exact when the criterion
    /// consults no shared state; a size overflow rotates in any case.
    #[verifier::rlimit(100)]
    fn mount_next_file_if_necessary(&mut self, dir: &mut Directory, now: &Timestamp) -> (r: Result<
        (),
        FlexiLoggerError,
    >)
        requires
            old(self).wf(),
            old(dir).wf(),
            now.wf(),
            now.year >= 0,
        ensures
            final(self).wf(),
            final(dir).wf(),
            final(self).config == old(self).config,
            r is Err ==> r == Err::<(), FlexiLoggerError>(FlexiLoggerError::Io) && *final(self)
                == *old(self) && *final(dir) == *old(dir),
            r is Err ==> (match old(self).inner {
                Inner::Active(Some(rs)) => old(dir).has(spec_open_path(old(self).config, true))
                    && mount_blocked(rs, *old(dir), old(self).config),
                _ => false,
            }),
            match old(self).inner {
                Inner::Active(Some(rs)) => roll_deterministic(rs.roll_state) ==> (r is Err
                    <==> spec_roll_due(rs.roll_state, rs.created_at, *now) && old(dir).has(
                    spec_open_path(old(self).config, true),
                ) && mount_blocked(rs, *old(dir), old(self).config)),
                _ => true,
            },
            !(old(self).inner matches Inner::Active(Some(_))) ==> *final(self) == *old(self)
                && *final(dir) == *old(dir) && r == Ok::<(), FlexiLoggerError>(()),
            match old(self).inner {
                Inner::Active(Some(rs)) => {
                    &&& (roll_deterministic(rs.roll_state) && !spec_roll_due(
                        rs.roll_state,
                        rs.created_at,
                        *now,
                    ) ==> *final(self) == *old(self) && *final(dir) == *old(dir) && r == Ok::<
                        (),
                        FlexiLoggerError,
                    >(()))
                    &&& (roll_deterministic(rs.roll_state) && spec_roll_due(
                        rs.roll_state,
                        rs.created_at,
                        *now,
                    ) && r is Ok ==> spec_rotated_outcome(
                        *old(self),
                        *final(self),
                        *old(dir),
                        *final(dir),
                        *now,
                    ))
                    &&& (!roll_deterministic(rs.roll_state) && r is Ok ==> (*final(self) == *old(
                        self,
                    ) && *final(dir) == *old(dir)) || spec_rotated_outcome(
                        *old(self),
                        *final(self),
                        *old(dir),
                        *final(dir),
                        *now,
                    ))
                },
                _ => true,
            },
    {
        let is_due = match &self.inner {
            Inner::Active(Some(rs)) => rs.rotation_necessary(now),
            _ => false,
        };
        if !is_due {
            return Ok(());
        }
        let mut inner = Inner::Active(None);
        core::mem::swap(&mut inner, &mut self.inner);
        let rs = match inner {
            Inner::Active(Some(rs)) => rs,
            other => {
                proof {
                    assert(false);
                }
                self.inner = other;
                return Ok(());
            },
        };
        let ghost dir_in = *dir;
        let ghost active = spec_open_path(self.config, true);
        let naming_state = match &rs.naming_state {
            NamingState::CreatedAt => {
                match rotate_output_file_to_date(dir, &self.config, &rs.created_at) {
                    Ok(_) => NamingState::CreatedAt,
                    Err(e) => {
                        self.inner = Inner::Active(Some(rs));
                        return Err(e);
                    },
                }
            },
            NamingState::IdxState(idx_ref) => {
                let idx_state = *idx_ref;
                match rotate_output_file_to_idx(dir, &self.config, idx_state) {
                    Ok(next) => {
                        proof {
                            if dir_in.has(active) && idx_state != IdxState::Idx(u32::MAX) {
                                lemma_number_path_matches(
                                    self.config.file_spec,
                                    spec_next_idx(idx_state) as u32,
                                );
                            }
                        }
                        NamingState::IdxState(next)
                    },
                    Err(e) => {
                        self.inner = Inner::Active(Some(rs));
                        return Err(e);
                    },
                }
            },
        };
        let ghost dir_rotated = *dir;
        proof {
            crate::siblings::lemma_current_not_rotated(
                self.config.file_spec,
                self.config.file_spec.suffix@,
            );
            crate::siblings::lemma_current_not_rotated(self.config.file_spec, seq!['g', 'z']);
            crate::siblings::lemma_current_not_rotated(self.config.file_spec, seq!['z', 'i', 'p']);
            assert(!matches_any_rotated(active, self.config.file_spec));
            assert forall|nm: Seq<char>|
                !matches_any_rotated(nm, self.config.file_spec) && nm != active implies #[trigger] dir_rotated.has(
                nm,
            ) == dir_in.has(nm) && (dir_in.has(nm) ==> dir_rotated.content(nm) == dir_in.content(
                nm,
            )) by {
                assert(dir_rotated.has(nm) == dir_in.has(nm));
                assert(dir_in.has(nm) ==> dir_rotated.content(nm) == dir_in.content(nm));
            }
            assert(ordinary_files_untouched(
                dir_in,
                dir_rotated,
                self.config.file_spec,
                active,
            ));
        }
        open_log_file(dir, &self.config, true);
        let ghost dir_opened = *dir;
        proof {
            assert forall|nm: Seq<char>|
                !matches_any_rotated(nm, self.config.file_spec) && nm != active implies #[trigger] dir_opened.has(
                nm,
            ) == dir_rotated.has(nm) && (dir_rotated.has(nm) ==> dir_opened.content(nm)
                == dir_rotated.content(nm)) by {
                assert(dir_opened.has(nm) == dir_rotated.has(nm));
                assert(dir_rotated.has(nm) ==> dir_opened.content(nm) == dir_rotated.content(nm));
            }
            assert(ordinary_files_untouched(
                dir_rotated,
                dir_opened,
                self.config.file_spec,
                active,
            ));
            assert forall|nm: Seq<char>|
                nm != active implies #[trigger] dir_opened.has(nm) == dir_rotated.has(nm) && (
                dir_rotated.has(nm) ==> dir_opened.content(nm) == dir_rotated.content(nm)) by {
                assert(dir_opened.has(nm) == dir_rotated.has(nm));
                assert(dir_rotated.has(nm) ==> dir_opened.content(nm) == dir_rotated.content(nm));
            }
            assert(!dir_rotated.has(active) || !dir_in.has(active));
            if dir_in.has(active) {
                assert(dir.content(active) =~= Seq::<u8>::empty());
            } else {
                assert(dir.content(active) =~= Seq::<u8>::empty());
            }
        }
        let roll_state = match rs.roll_state {
            RollState::Size(max_size, _) => RollState::Size(max_size, 0),
            RollState::Age(age) => RollState::Age(age),
            RollState::AgeOrSize(age, max_size, _) => RollState::AgeOrSize(age, max_size, 0),
        };
        let do_cleanup = rs.cleanup.do_cleanup();
        if do_cleanup {
            remove_or_compress_too_old_logfiles_impl(dir, &rs.cleanup, &self.config.file_spec);
        }
        proof {
            assert(dir.has(active));
            assert(dir.content(active) == dir_opened.content(active));
            assert forall|nm: Seq<char>|
                !matches_any_rotated(nm, self.config.file_spec) && nm != active implies #[trigger] dir.has(
                nm,
            ) == dir_opened.has(nm) && (dir_opened.has(nm) ==> dir.content(nm)
                == dir_opened.content(nm)) by {
                assert(dir.has(nm) == dir_opened.has(nm));
                assert(dir_opened.has(nm) ==> dir.content(nm) == dir_opened.content(nm));
            }
            assert(ordinary_files_untouched(dir_opened, *dir, self.config.file_spec, active));
            lemma_untouched_trans(
                dir_in,
                dir_rotated,
                dir_opened,
                self.config.file_spec,
                active,
            );
            lemma_untouched_trans(dir_in, dir_opened, *dir, self.config.file_spec, active);
            if rs.cleanup is Never && dir_in.has(active) {
                // the rename protocol moved the old bytes to a rotated name
                // that nothing touched afterwards
                assert(*dir == dir_opened);
                let t = choose|t: Seq<char>|
                    dir_rotated.has(t) && #[trigger] dir_rotated.content(t) == dir_in.content(
                        active,
                    ) && matches_rotated(t, self.config.file_spec, self.config.file_spec.suffix@)
                        && t != active;
                assert(dir_rotated.has(t) && dir_rotated.content(t) == dir_in.content(active)
                    && matches_rotated(t, self.config.file_spec, self.config.file_spec.suffix@)
                    && t != active);
                assert(dir_opened.has(t) == dir_rotated.has(t));
                assert(dir_rotated.has(t) ==> dir_opened.content(t) == dir_rotated.content(t));
                assert(dir.has(t) && dir.content(t) == dir_in.content(active));
                assert(bytes_live_on(dir_in, *dir, self.config));
                match &naming_state {
                    NamingState::IdxState(s2) => {
                        match s2 {
                            IdxState::Idx(k2) => {
                                let tgt = self.config.file_spec.spec_path(
                                    Some(spec_number_infix(*k2)),
                                );
                                assert(tgt != active);
                                assert(dir_rotated.has(tgt) && dir_rotated.content(tgt)
                                    == dir_in.content(active));
                                assert(dir_opened.has(tgt) == dir_rotated.has(tgt));
                                assert(dir_rotated.has(tgt) ==> dir_opened.content(tgt)
                                    == dir_rotated.content(tgt));
                                assert(rotated_to_number_name(dir_in, *dir, self.config, *k2));
                            },
                            IdxState::Start => {
                                assert(false);
                            },
                        }
                    },
                    NamingState::CreatedAt => {
                        let tn = choose|tn: Seq<char>|
                            dir_rotated.has(tn) && #[trigger] dir_rotated.content(tn)
                                == dir_in.content(active) && timestamp_target_name(
                                tn,
                                dir_in,
                                self.config,
                                rs.created_at,
                            );
                        assert(dir_rotated.has(tn) && dir_rotated.content(tn) == dir_in.content(
                            active,
                        ) && timestamp_target_name(tn, dir_in, self.config, rs.created_at));
                        assert(tn != active);
                        assert(dir_opened.has(tn) == dir_rotated.has(tn));
                        assert(dir_rotated.has(tn) ==> dir_opened.content(tn)
                            == dir_rotated.content(tn));
                        assert(rotated_to_timestamp_name(
                            dir_in,
                            *dir,
                            self.config,
                            rs.created_at,
                        ));
                    },
                }
            }
        }
        self.inner = Inner::Active(
            Some(
                RotationState {
                    naming_state,
                    roll_state,
                    created_at: *now,
                    cleanup: rs.cleanup,
                    retention_active: rs.retention_active,
                },
            ),
        );
        Ok(())
    }
}

/// The state after a shutdown: the retention worker is released,
/// everything else stays.
pub open spec fn spec_shutdown(s: State) -> State {
    match s.inner {
        Inner::Active(Some(rs)) => State {
            config: s.config,
            inner: Inner::Active(Some(RotationState { retention_active: false, ..rs })),
        },
        _ => s,
    }
}

/// Shutting down is idempotent: a second shutdown changes nothing.
pub proof fn lemma_shutdown_idempotent(s: State)
    ensures
        spec_shutdown(spec_shutdown(s)) == spec_shutdown(s),
{
}

/// Whether `tail` is the tail end of `content`.
pub open spec fn content_ends_with(content: Seq<u8>, tail: Seq<u8>) -> bool {
    content.len() >= tail.len() && content.subrange(
        content.len() - tail.len(),
        content.len() as int,
    ) == tail
}

/// How the roll state looks after one write of `len` bytes: with a
/// rotation first the counter holds just those bytes, without one it grew
/// by them; saturating at the largest representable size either way.
pub open spec fn roll_state_after_write(
    pre: RollState,
    post: RollState,
    len: nat,
    rotated: bool,
) -> bool {
    if rotated {
        exists|mid: RollState|
            #[trigger] roll_state_reset(pre, mid) && roll_state_grown(mid, post, len)
    } else {
        roll_state_grown(pre, post, len)
    }
}

impl State {
    /// Accepts one formatted record: initialize on first use, rotate when
    /// due, append the bytes to the active file, and grow the size
    /// counter.  A write that finds the active file gone recreates it, so
    /// every accepted byte stands in a file.
    #[verifier::rlimit(100)]
    pub fn write_buffer(&mut self, dir: &mut Directory, now: &Timestamp, buf: &[u8]) -> (r: Result<
        (),
        FlexiLoggerError,
    >)
        requires
            old(self).wf(),
            old(dir).wf(),
            now.wf(),
            now.year >= 0,
        ensures
            final(self).wf(),
            final(dir).wf(),
            final(self).config == old(self).config,
            r is Err ==> r == Err::<(), FlexiLoggerError>(FlexiLoggerError::Io),
            !old(self).spec_uses_rotation() ==> r == Ok::<(), FlexiLoggerError>(()),
            match old(self).inner {
                Inner::Active(Some(rs)) => !mount_blocked(rs, *old(dir), old(self).config) ==> r
                    is Ok,
                _ => true,
            },
            match old(self).inner {
                Inner::Initial(Some(rc), _) => criterion_deterministic(rc.criterion) && rc.cleanup
                    is Never && !rotation_blocked(*old(dir), old(self).config, rc.naming, *now)
                    ==> r is Ok,
                _ => true,
            },
            match old(self).inner {
                Inner::Initial(Some(rc), _) => r is Ok && !old(self).config.append
                    && criterion_deterministic(rc.criterion) ==> final(dir).content(
                    spec_open_path(old(self).config, true),
                ) == buf@,
                _ => true,
            },
            match old(self).inner {
                Inner::Initial(Some(rc), _) => r is Ok && !old(self).config.append
                    && criterion_deterministic(rc.criterion) ==> ordinary_files_untouched(
                    *old(dir),
                    *final(dir),
                    old(self).config.file_spec,
                    spec_open_path(old(self).config, true),
                ),
                _ => true,
            },
            match old(self).inner {
                Inner::Initial(Some(rc), _) => r is Ok && !old(self).config.append
                    && criterion_deterministic(rc.criterion) && rc.cleanup is Never ==> final(dir).file_count() == old(dir).file_count() + 1,
                _ => true,
            },
            match old(self).inner {
                Inner::Initial(Some(rc), _) => r is Ok && !old(self).config.append
                    && criterion_deterministic(rc.criterion) && rc.cleanup is Never && !old(
                    dir,
                ).has(spec_open_path(old(self).config, true)) ==> siblings_untouched(
                    *old(dir),
                    *final(dir),
                    old(self).config.file_spec,
                ),
                _ => true,
            },
            match old(self).inner {
                Inner::Initial(Some(rc), _) => r is Ok && !old(self).config.append
                    && criterion_deterministic(rc.criterion) && rc.cleanup is Never && old(
                    dir,
                ).has(spec_open_path(old(self).config, true)) ==> (match final(self).inner {
                    Inner::Active(Some(rs2)) => match rs2.naming_state {
                        NamingState::IdxState(s2) => match s2 {
                            IdxState::Idx(k2) => rotated_to_number_name(
                                *old(dir),
                                *final(dir),
                                old(self).config,
                                k2,
                            ),
                            IdxState::Start => false,
                        },
                        NamingState::CreatedAt => rotated_to_timestamp_name(
                            *old(dir),
                            *final(dir),
                            old(self).config,
                            *now,
                        ),
                    },
                    _ => false,
                }),
                _ => true,
            },
            r is Ok ==> final(self).inner is Active && final(self).spec_uses_rotation() == old(
                self,
            ).spec_uses_rotation() && final(dir).has(final(self).spec_current_path())
                && content_ends_with(
                final(dir).content(final(self).spec_current_path()),
                buf@,
            ),
            match old(self).inner {
                Inner::Active(Some(rs)) => r is Ok && roll_deterministic(rs.roll_state) ==> {
                    let due = spec_roll_due(rs.roll_state, rs.created_at, *now);
                    let active = spec_open_path(old(self).config, true);
                    &&& (match final(self).inner {
                        Inner::Active(Some(rs2)) => {
                            &&& roll_state_after_write(rs.roll_state, rs2.roll_state, buf@.len(), due)
                            &&& rs2.cleanup == rs.cleanup
                            &&& rs2.retention_active == rs.retention_active
                            &&& rs2.created_at == (if due {
                                *now
                            } else {
                                rs.created_at
                            })
                        },
                        _ => false,
                    })
                    &&& final(dir).content(active) == (if due {
                        Seq::<u8>::empty()
                    } else if old(dir).has(active) {
                        old(dir).content(active)
                    } else {
                        Seq::<u8>::empty()
                    }) + buf@
                    &&& (due ==> ordinary_files_untouched(
                        *old(dir),
                        *final(dir),
                        old(self).config.file_spec,
                        active,
                    ))
                    &&& (!due ==> ordinary_files_untouched(
                        *old(dir),
                        *final(dir),
                        old(self).config.file_spec,
                        active,
                    ) && siblings_untouched(*old(dir), *final(dir), old(self).config.file_spec))
                    &&& (due && rs.cleanup is Never && old(dir).has(active) ==> bytes_live_on(
                        *old(dir),
                        *final(dir),
                        old(self).config,
                    ))
                    &&& (due && rs.cleanup is Never && old(dir).has(active) ==> (match final(self).inner {
                        Inner::Active(Some(rs2)) => match (rs.naming_state, rs2.naming_state) {
                            (NamingState::IdxState(_), NamingState::IdxState(s2)) => match s2 {
                                IdxState::Idx(k2) => rotated_to_number_name(
                                    *old(dir),
                                    *final(dir),
                                    old(self).config,
                                    k2,
                                ),
                                IdxState::Start => false,
                            },
                            (NamingState::CreatedAt, _) => rotated_to_timestamp_name(
                                *old(dir),
                                *final(dir),
                                old(self).config,
                                rs.created_at,
                            ),
                            _ => true,
                        },
                        _ => false,
                    }))
                    &&& (due && rs.cleanup is Never ==> old(dir).file_count() <= final(dir).file_count() <= old(dir).file_count() + 1)
                    &&& (due && rs.cleanup is Never && rs.naming_state is CreatedAt ==> final(dir).file_count() == old(dir).file_count() + 1)
                    &&& (!due ==> final(dir).file_count() == old(dir).file_count() + (if old(
                        dir,
                    ).has(active) {
                        0int
                    } else {
                        1int
                    }))
                },
                _ => true,
            },
    {
        let is_initial = match &self.inner {
            Inner::Initial(_, _) => true,
            Inner::Active(_) => false,
        };
        if is_initial {
            match self.initialize(dir, now) {
                Ok(()) => {},
                Err(e) => {
                    return Err(e);
                },
            }
        }
        let ghost self_init = *self;
        let ghost dir_init = *dir;
        match self.mount_next_file_if_necessary(dir, now) {
            Ok(()) => {},
            Err(e) => {
                proof {
                    // a first write on a workable configuration cannot run
                    // out of names: the discovery bound carries over
                    if is_initial {
                        match old(self).inner {
                            Inner::Initial(Some(rc), _) => {
                                if criterion_deterministic(rc.criterion) && rc.cleanup is Never
                                    && !rotation_blocked(
                                    *old(dir),
                                    old(self).config,
                                    rc.naming,
                                    *now,
                                ) {
                                    match self_init.inner {
                                        Inner::Active(Some(rs1)) => {
                                            assert(mount_blocked(rs1, dir_init, self.config));
                                            if !self.config.append {
                                                assert(!spec_roll_due(
                                                    rs1.roll_state,
                                                    rs1.created_at,
                                                    *now,
                                                ));
                                                assert(false);
                                            } else {
                                                match rc.naming {
                                                    Naming::Numbers => {
                                                        match rs1.naming_state {
                                                            NamingState::IdxState(st) => {
                                                                assert(is_highest_idx(
                                                                    st,
                                                                    *old(dir),
                                                                    self.config.file_spec,
                                                                ));
                                                                assert(st == IdxState::Idx(
                                                                    u32::MAX,
                                                                ));
                                                                assert(idx_exhausted(
                                                                    *old(dir),
                                                                    self.config.file_spec,
                                                                ));
                                                                assert(false);
                                                            },
                                                            _ => {
                                                                assert(false);
                                                            },
                                                        }
                                                    },
                                                    Naming::Timestamps(_) => {
                                                        assert(rs1.created_at == *now);
                                                        assert(restart_exhausted(
                                                            dir_init,
                                                            self.config,
                                                            *now,
                                                        ));
                                                        let nm = choose|nm: Seq<char>|
                                                            dir_init.has(nm)
                                                                && #[trigger] restart_sibling(
                                                                nm,
                                                                spec_base_stem(self.config, *now),
                                                            ) && restart_num_of(
                                                                nm,
                                                                spec_base_stem(self.config, *now),
                                                            ) == u32::MAX;
                                                        lemma_current_not_restart_sibling(
                                                            self.config,
                                                            *now,
                                                        );
                                                        assert(nm != spec_open_path(
                                                            self.config,
                                                            true,
                                                        ));
                                                        assert(old(dir).has(nm));
                                                        assert(restart_exhausted(
                                                            *old(dir),
                                                            self.config,
                                                            *now,
                                                        ));
                                                        assert(false);
                                                    },
                                                }
                                            }
                                        },
                                        _ => {
                                            assert(false);
                                        },
                                    }
                                }
                            },
                            _ => {},
                        }
                    }
                }
                return Err(e);
            },
        }
        let ghost self_mounted = *self;
        let ghost dir_mounted = *dir;
        let active = self.current_filename();
        if !dir.exists_file(active.as_str()) {
            dir.create_or_truncate(active.as_str());
        }
        let ghost dir_created = *dir;
        dir.append_file(active.as_str(), buf);
        proof {
            assert(dir.content(active@).subrange(
                dir.content(active@).len() - buf@.len(),
                dir.content(active@).len() as int,
            ) =~= buf@);
            assert(content_ends_with(dir.content(active@), buf@));
        }
        let mut inner = Inner::Active(None);
        core::mem::swap(&mut inner, &mut self.inner);
        match inner {
            Inner::Active(Some(rs)) => {
                let ghost pre_roll = rs.roll_state;
                let roll_state = match rs.roll_state {
                    RollState::Size(max_size, current_size) => {
                        let grown = if current_size <= u64::MAX - (buf.len() as u64) {
                            current_size + (buf.len() as u64)
                        } else {
                            u64::MAX
                        };
                        RollState::Size(max_size, grown)
                    },
                    RollState::Age(age) => RollState::Age(age),
                    RollState::AgeOrSize(age, max_size, current_size) => {
                        let grown = if current_size <= u64::MAX - (buf.len() as u64) {
                            current_size + (buf.len() as u64)
                        } else {
                            u64::MAX
                        };
                        RollState::AgeOrSize(age, max_size, grown)
                    },
                };
                proof {
                    assert(roll_state_grown(pre_roll, roll_state, buf@.len()));
                    match self_init.inner {
                        Inner::Active(Some(rs0)) => {
                            if roll_deterministic(rs0.roll_state) && spec_roll_due(
                                rs0.roll_state,
                                rs0.created_at,
                                *now,
                            ) {
                                assert(roll_state_reset(rs0.roll_state, pre_roll));
                                assert(roll_state_after_write(
                                    rs0.roll_state,
                                    roll_state,
                                    buf@.len(),
                                    true,
                                ));
                            }
                        },
                        _ => {},
                    }
                }
                self.inner = Inner::Active(
                    Some(
                        RotationState {
                            naming_state: rs.naming_state,
                            roll_state,
                            created_at: rs.created_at,
                            cleanup: rs.cleanup,
                            retention_active: rs.retention_active,
                        },
                    ),
                );
            },
            other => {
                self.inner = other;
            },
        }
        proof {
            if is_initial {
                match old(self).inner {
                    Inner::Initial(Some(rc), _) => {
                        if !self.config.append && criterion_deterministic(rc.criterion) {
                            let act = spec_open_path(self.config, true);
                            match self_init.inner {
                                Inner::Active(Some(rs1)) => {
                                    assert(dir_init.content(act) == Seq::<u8>::empty());
                                    assert(roll_deterministic(rs1.roll_state));
                                    assert(!spec_roll_due(rs1.roll_state, rs1.created_at, *now));
                                    assert(dir_mounted == dir_init);
                                    assert(dir_created == dir_mounted);
                                    assert(active@ == act);
                                    assert(dir.content(act) == dir_created.content(act) + buf@);
                                    assert(Seq::<u8>::empty() + buf@ =~= buf@);
                                    assert(dir.content(act) == buf@);
                                    let fs1 = self.config.file_spec;
                                    crate::siblings::lemma_current_not_rotated(fs1, fs1.suffix@);
                                    crate::siblings::lemma_current_not_rotated(
                                        fs1,
                                        seq!['g', 'z'],
                                    );
                                    crate::siblings::lemma_current_not_rotated(
                                        fs1,
                                        seq!['z', 'i', 'p'],
                                    );
                                    assert(!matches_any_rotated(act, fs1));
                                    assert forall|nm: Seq<char>|
                                        !(#[trigger] matches_any_rotated(nm, fs1)) && nm
                                            != act implies dir.has(nm) == old(dir).has(nm) && (
                                        old(dir).has(nm) ==> dir.content(nm) == old(dir).content(
                                            nm,
                                        )) by {
                                        assert(dir_init.has(nm) == old(dir).has(nm));
                                        assert(old(dir).has(nm) ==> dir_init.content(nm) == old(
                                            dir,
                                        ).content(nm));
                                        assert(dir.has(nm) == dir_init.has(nm));
                                        assert(dir_init.has(nm) ==> dir.content(nm)
                                            == dir_init.content(nm));
                                    }
                                    assert(ordinary_files_untouched(*old(dir), *dir, fs1, act));
                                    match old(self).inner {
                                        Inner::Initial(Some(rc0), _) => {
                                            if rc0.cleanup is Never {
                                                assert(dir_init.file_count() == old(
                                                    dir,
                                                ).file_count() + 1);
                                                assert(dir.file_count()
                                                    == dir_created.file_count());
                                                if !old(dir).has(act) {
                                                    assert forall|nm: Seq<char>|
                                                        #[trigger] matches_any_rotated(
                                                        nm,
                                                        fs1,
                                                    ) implies dir.has(nm) == old(dir).has(nm) && (
                                                    old(dir).has(nm) ==> dir.content(nm) == old(
                                                        dir,
                                                    ).content(nm)) by {
                                                        assert(nm != act);
                                                        assert(dir_init.has(nm) == old(
                                                            dir,
                                                        ).has(nm));
                                                        assert(old(dir).has(nm)
                                                            ==> dir_init.content(nm) == old(
                                                            dir,
                                                        ).content(nm));
                                                        assert(dir.has(nm) == dir_init.has(nm));
                                                        assert(dir_init.has(nm) ==> dir.content(
                                                            nm,
                                                        ) == dir_init.content(nm));
                                                    }
                                                    assert(siblings_untouched(
                                                        *old(dir),
                                                        *dir,
                                                        fs1,
                                                    ));
                                                }
                                                if old(dir).has(act) {
                                                    match rs1.naming_state {
                                                        NamingState::IdxState(s2) => {
                                                            match s2 {
                                                                IdxState::Idx(k2) => {
                                                                    let tgt = fs1.spec_path(
                                                                        Some(
                                                                            spec_number_infix(k2),
                                                                        ),
                                                                    );
                                                                    lemma_number_path_matches(
                                                                        fs1,
                                                                        k2,
                                                                    );
                                                                    assert(tgt != act);
                                                                    assert(dir_init.has(tgt));
                                                                    assert(dir_init.content(tgt)
                                                                        == old(dir).content(act));
                                                                    assert(dir.has(tgt));
                                                                    assert(dir.content(tgt)
                                                                        == dir_init.content(tgt));
                                                                    assert(rotated_to_number_name(
                                                                        *old(dir),
                                                                        *dir,
                                                                        self.config,
                                                                        k2,
                                                                    ));
                                                                },
                                                                IdxState::Start => {
                                                                    assert(false);
                                                                },
                                                            }
                                                        },
                                                        NamingState::CreatedAt => {
                                                            let tn = choose|tn: Seq<char>|
                                                                dir_init.has(tn)
                                                                    && #[trigger] dir_init.content(
                                                                    tn,
                                                                ) == old(dir).content(act) && tn
                                                                    != act
                                                                    && timestamp_target_name(
                                                                    tn,
                                                                    *old(dir),
                                                                    self.config,
                                                                    *now,
                                                                );
                                                            assert(dir_init.has(tn)
                                                                && dir_init.content(tn) == old(
                                                                dir,
                                                            ).content(act) && tn != act
                                                                && timestamp_target_name(
                                                                tn,
                                                                *old(dir),
                                                                self.config,
                                                                *now,
                                                            ));
                                                            assert(dir.has(tn));
                                                            assert(dir.content(tn)
                                                                == dir_init.content(tn));
                                                            assert(rotated_to_timestamp_name(
                                                                *old(dir),
                                                                *dir,
                                                                self.config,
                                                                *now,
                                                            ));
                                                        },
                                                    }
                                                }
                                            }
                                        },
                                        _ => {},
                                    }
                                },
                                _ => {
                                    assert(false);
                                },
                            }
                        }
                    },
                    _ => {},
                }
            }
            match self_init.inner {
                Inner::Active(Some(rs0)) => {
                    if !is_initial && roll_deterministic(rs0.roll_state) {
                        let fs = self.config.file_spec;
                        let act = spec_open_path(self.config, true);
                        assert(active@ == act);
                        crate::siblings::lemma_current_not_rotated(fs, fs.suffix@);
                        crate::siblings::lemma_current_not_rotated(fs, seq!['g', 'z']);
                        crate::siblings::lemma_current_not_rotated(fs, seq!['z', 'i', 'p']);
                        assert(!matches_any_rotated(act, fs));
                        // the write itself touched the active file alone
                        assert forall|nm: Seq<char>| nm != act implies #[trigger] dir.has(nm)
                            == dir_mounted.has(nm) && (dir_mounted.has(nm) ==> dir.content(nm)
                            == dir_mounted.content(nm)) by {
                            assert(dir_created.has(nm) == dir_mounted.has(nm));
                            assert(dir_mounted.has(nm) ==> dir_created.content(nm)
                                == dir_mounted.content(nm));
                            assert(dir.has(nm) == dir_created.has(nm));
                            assert(dir_created.has(nm) ==> dir.content(nm) == dir_created.content(
                                nm,
                            ));
                        }
                        let due = spec_roll_due(rs0.roll_state, rs0.created_at, *now);
                        assert(dir_created.content(act) == (if dir_mounted.has(act) {
                            dir_mounted.content(act)
                        } else {
                            Seq::<u8>::empty()
                        }));
                        assert(dir.content(act) == dir_created.content(act) + buf@);
                        if due {
                            assert(dir_mounted.content(act) == Seq::<u8>::empty());
                            assert(dir.content(act) == Seq::<u8>::empty() + buf@);
                            assert forall|nm: Seq<char>|
                                !(#[trigger] matches_any_rotated(nm, fs)) && nm != act implies dir.has(
                                nm,
                            ) == old(dir).has(nm) && (old(dir).has(nm) ==> dir.content(nm) == old(
                                dir,
                            ).content(nm)) by {
                                assert(dir_mounted.has(nm) == old(dir).has(nm));
                                assert(old(dir).has(nm) ==> dir_mounted.content(nm) == old(
                                    dir,
                                ).content(nm));
                                assert(dir.has(nm) == dir_mounted.has(nm));
                                assert(dir_mounted.has(nm) ==> dir.content(nm)
                                    == dir_mounted.content(nm));
                            }
                            assert(ordinary_files_untouched(*old(dir), *dir, fs, act));
                            if rs0.cleanup is Never && old(dir).has(act) {
                                let t = choose|t: Seq<char>|
                                    dir_mounted.has(t) && #[trigger] dir_mounted.content(t) == old(
                                        dir,
                                    ).content(act) && matches_rotated(t, fs, fs.suffix@);
                                assert(dir_mounted.has(t) && dir_mounted.content(t) == old(
                                    dir,
                                ).content(act) && matches_rotated(t, fs, fs.suffix@));
                                assert(t != act);
                                assert(dir.has(t));
                                assert(dir.content(t) == dir_mounted.content(t));
                                assert(bytes_live_on(*old(dir), *dir, self.config));
                                match (self_init.inner, self_mounted.inner) {
                                    (
                                        Inner::Active(Some(rsa)),
                                        Inner::Active(Some(rsb)),
                                    ) => {
                                        match (rsa.naming_state, rsb.naming_state) {
                                            (
                                                NamingState::IdxState(_),
                                                NamingState::IdxState(s2),
                                            ) => {
                                                match s2 {
                                                    IdxState::Idx(k2) => {
                                                        let tgt = fs.spec_path(
                                                            Some(spec_number_infix(k2)),
                                                        );
                                                        lemma_number_path_matches(fs, k2);
                                                        assert(tgt != act);
                                                        assert(dir_mounted.has(tgt)
                                                            && dir_mounted.content(tgt) == old(
                                                            dir,
                                                        ).content(act));
                                                        assert(dir.has(tgt));
                                                        assert(dir.content(tgt)
                                                            == dir_mounted.content(tgt));
                                                        assert(rotated_to_number_name(
                                                            *old(dir),
                                                            *dir,
                                                            self.config,
                                                            k2,
                                                        ));
                                                    },
                                                    IdxState::Start => {
                                                        assert(false);
                                                    },
                                                }
                                            },
                                            (NamingState::CreatedAt, _) => {
                                                let tn = choose|tn: Seq<char>|
                                                    dir_mounted.has(tn)
                                                        && #[trigger] dir_mounted.content(tn)
                                                        == old(dir).content(act) && tn != act
                                                        && timestamp_target_name(
                                                        tn,
                                                        *old(dir),
                                                        self.config,
                                                        rsa.created_at,
                                                    );
                                                assert(dir_mounted.has(tn)
                                                    && dir_mounted.content(tn) == old(
                                                    dir,
                                                ).content(act) && tn != act
                                                    && timestamp_target_name(
                                                    tn,
                                                    *old(dir),
                                                    self.config,
                                                    rsa.created_at,
                                                ));
                                                assert(dir.has(tn));
                                                assert(dir.content(tn) == dir_mounted.content(
                                                    tn,
                                                ));
                                                assert(rotated_to_timestamp_name(
                                                    *old(dir),
                                                    *dir,
                                                    self.config,
                                                    rsa.created_at,
                                                ));
                                            },
                                            _ => {},
                                        }
                                    },
                                    _ => {
                                        assert(false);
                                    },
                                }
                            }
                        } else {
                            assert(dir_mounted == *old(dir));
                            assert forall|nm: Seq<char>|
                                !(#[trigger] matches_any_rotated(nm, fs)) && nm != act implies dir.has(
                                nm,
                            ) == old(dir).has(nm) && (old(dir).has(nm) ==> dir.content(nm) == old(
                                dir,
                            ).content(nm)) by {
                                assert(dir.has(nm) == dir_mounted.has(nm));
                                assert(dir_mounted.has(nm) ==> dir.content(nm)
                                    == dir_mounted.content(nm));
                            }
                            assert(ordinary_files_untouched(*old(dir), *dir, fs, act));
                            assert forall|nm: Seq<char>|
                                #[trigger] matches_any_rotated(nm, fs) implies dir.has(nm) == old(
                                dir,
                            ).has(nm) && (old(dir).has(nm) ==> dir.content(nm) == old(
                                dir,
                            ).content(nm)) by {
                                assert(nm != act);
                                assert(dir.has(nm) == dir_mounted.has(nm));
                                assert(dir_mounted.has(nm) ==> dir.content(nm)
                                    == dir_mounted.content(nm));
                            }
                            assert(siblings_untouched(*old(dir), *dir, fs));
                        }
                    }
                },
                _ => {},
            }
        }
        Ok(())
    }
}

/// What the rotation state holds right after initialization: the cleanup
/// policy and retention mode as configured, the creation instant of the
/// freshly opened file, the size counter seeded from the file's bytes, and
/// the naming state fit for the naming scheme.
pub open spec fn post_init_rotation(
    pre: State,
    rs: RotationState,
    dir_post: Directory,
    rc: RotationConfig,
    bg: bool,
    now: Timestamp,
) -> bool {
    &&& rs.cleanup == rc.cleanup
    &&& rs.retention_active == (bg && !(rc.cleanup is Never))
    &&& rs.created_at == now
    &&& match rc.criterion {
        Criterion::Size(s) => rs.roll_state matches RollState::Size(m, c) && m == s && c
            == dir_post.content(spec_open_path(pre.config, true)).len(),
        Criterion::Age(a) => rs.roll_state == RollState::Age(a),
        Criterion::AgeOrSize(a, s) => rs.roll_state matches RollState::AgeOrSize(a2, m, c) && a2
            == a && m == s && c == dir_post.content(spec_open_path(pre.config, true)).len(),
    }
    &&& (rc.naming matches Naming::Timestamps(_) ==> rs.naming_state is CreatedAt)
    &&& (rc.naming is Numbers ==> rs.naming_state is IdxState)
}

} // verus!
