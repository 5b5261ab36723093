//! The decisions of a run: what each operation hands the text engine, when a
//! read asks for confirmation, and which preconditions stop a run.
use vstd::prelude::*;
use crate::config::{
    model_of, resolve_settings, resolved, settings_of, starting, starting_hashes,
    DuplicateMode, Metadata, Operation, ReadMode, Settings,
};
use crate::ranges::{FFlags, SkipEvents, SkipMaps};
use crate::text::{trim_end, trim_end_str};
use crate::title::{classify, get_game_type, lower_of, GameType};

verus! {

/// The options every operation shares.
#[derive(Debug, Clone)]
pub struct SharedArgs {
    pub read_mode: ReadMode,
    pub trim: bool,
    pub romanize: bool,
    pub disable_custom_processing: bool,
    pub skip_files: FFlags,
    pub skip_maps: SkipMaps,
    pub skip_events: SkipEvents,
    pub map_events: bool,
    pub duplicate_mode: DuplicateMode,
}

impl SharedArgs {
    /// The settings as the command line gives them.
    pub open spec fn cli_settings(&self) -> Settings {
        Settings {
            romanize: self.romanize,
            trim: self.trim,
            disable_custom_processing: self.disable_custom_processing,
            duplicate_mode: self.duplicate_mode,
        }
    }
}

/// The options of a read.
#[derive(Debug, Clone)]
pub struct ReadArgs {
    pub silent: bool,
    pub ignore: bool,
    pub shared: SharedArgs,
}

/// The options of a purge.
#[derive(Debug, Clone)]
pub struct PurgeArgs {
    pub create_ignore: bool,
    pub shared: SharedArgs,
}

/// A precondition of an operation that does not hold.
#[derive(Clone, Copy, Debug, PartialEq, Eq, Structural)]
pub enum RunError {
    TranslationMissing,
    IgnoreFileMissing,
}

/// The text shown for each error.
pub open spec fn run_error_text(e: RunError) -> Seq<char> {
    match e {
        RunError::TranslationMissing => "`translation` directory in the input directory does not exist."@,
        RunError::IgnoreFileMissing => "`.rvpacker-ignore` file does not exist. Aborting execution."@,
    }
}

impl RunError {
    pub fn message(&self) -> (r: &'static str)
        ensures
            r@ == run_error_text(*self),
    {
        match self {
            RunError::TranslationMissing => "`translation` directory in the input directory does not exist.",
            RunError::IgnoreFileMissing => "`.rvpacker-ignore` file does not exist. Aborting execution.",
        }
    }
}

/// Everything the text engine is handed for one operation.
#[derive(Debug, Clone)]
pub struct Job {
    pub settings: Settings,
    pub game_type: GameType,
    /// File kinds left out, as `FileFlags` bits.
    pub skip_files: u16,
    pub skip_maps: Vec<u16>,
    pub skip_events: Vec<(String, Vec<u16>)>,
    pub map_events: bool,
    pub read_mode: ReadMode,
    pub ignore: bool,
    pub create_ignore: bool,
    pub hashes: Vec<u128>,
}

/// The job's settings are the resolved ones, the profile follows from them
/// and the title, and the selections are the command line's.
pub open spec fn job_follows(
    job: Job,
    shared: SharedArgs,
    title: Seq<char>,
    record: Option<Settings>,
    op: Operation,
) -> bool {
    &&& job.settings == resolved(shared.cli_settings(), record, op)
    &&& job.game_type == classify(lower_of(title), job.settings.disable_custom_processing)
    &&& job.skip_files == shared.skip_files.0
    &&& job.skip_maps@ == shared.skip_maps.0@
    &&& job.skip_events@ == shared.skip_events.0@
    &&& job.read_mode == shared.read_mode
}

fn job_for(
    shared: SharedArgs,
    title: &str,
    record: Option<&Metadata>,
    op: Operation,
) -> (job: Job)
    ensures
        job_follows(job, shared, title@, settings_of(record), op),
        job.map_events == shared.map_events,
        !job.ignore,
        !job.create_ignore,
        job.hashes@.len() == 0,
{
    let cli = Settings {
        romanize: shared.romanize,
        trim: shared.trim,
        disable_custom_processing: shared.disable_custom_processing,
        duplicate_mode: shared.duplicate_mode,
    };
    let settings = resolve_settings(cli, record, op);
    let game_type = get_game_type(title, settings.disable_custom_processing);
    Job {
        settings,
        game_type,
        skip_files: shared.skip_files.0,
        skip_maps: shared.skip_maps.0,
        skip_events: shared.skip_events.0,
        map_events: shared.map_events,
        read_mode: shared.read_mode,
        ignore: false,
        create_ignore: false,
        hashes: Vec::new(),
    }
}

/// Only a forced read that is not silent asks before it overwrites.
pub fn needs_confirmation(mode: ReadMode, silent: bool) -> (r: bool)
    ensures
        r == (mode == ReadMode::Force && !silent),
{
    mode.is_force() && !silent
}

/// The answer goes ahead only when it is exactly `Y`, trailing whitespace
/// (the line break) aside.
pub fn is_confirmed(line: &str) -> (r: bool)
    ensures
        r == (trim_end(line@) == "Y"@),
{
    let t = trim_end_str(line);
    proof {
        reveal_strlit("Y");
    }
    if t.unicode_len() != 1 {
        return false;
    }
    let c = t.get_char(0);
    proof {
        if c == 'Y' {
            assert(t@ =~= "Y"@);
        }
    }
    c == 'Y'
}

/// A packed archive is unpacked once: while the system descriptor is absent.
pub fn should_unpack(has_archive: bool, system_exists: bool) -> (r: bool)
    ensures
        r == (has_archive && !system_exists),
{
    has_archive && !system_exists
}

/// Whether a read with `mode` and the ignore option is refused for want of
/// an ignore file.
pub open spec fn ignore_file_missing(mode: ReadMode, ignore: bool, exists: bool) -> bool {
    mode.spec_is_append() && ignore && !exists
}

/// What a read hands the text engine, given the title, the persisted record
/// (consulted in incremental mode only) and whether an ignore file exists.
pub fn plan_read(
    args: ReadArgs,
    title: &str,
    record: Option<&Metadata>,
    ignore_file_exists: bool,
) -> (r: Result<Job, RunError>)
    ensures
        ignore_file_missing(args.shared.read_mode, args.ignore, ignore_file_exists) ==> r
            == Err::<Job, RunError>(RunError::IgnoreFileMissing),
        !ignore_file_missing(args.shared.read_mode, args.ignore, ignore_file_exists) ==> r is Ok,
        r matches Ok(job) ==> {
            &&& job_follows(
                job,
                args.shared,
                title@,
                settings_of(record),
                Operation::Read(args.shared.read_mode),
            )
            &&& job.map_events == args.shared.map_events
            &&& job.ignore == args.ignore
            &&& !job.create_ignore
            &&& job.hashes@ == starting(model_of(record), args.shared.read_mode)
        },
{
    let mode = args.shared.read_mode;
    if mode.is_append() && args.ignore && !ignore_file_exists {
        return Err(RunError::IgnoreFileMissing);
    }
    let hashes = starting_hashes(record, mode);
    let mut job = job_for(args.shared, title, record, Operation::Read(mode));
    job.ignore = args.ignore;
    job.hashes = hashes;
    Ok(job)
}

/// The record a successful read leaves: the job's settings and the
/// fingerprints the reader returned.
pub fn record_after_read(job: &Job, hashes: Vec<u128>) -> (r: Metadata)
    ensures
        r.model() == (job.settings, Some(hashes@)),
{
    Metadata::after_read(job.settings, hashes)
}

/// What a write hands the text engine; the translation must exist.
pub fn plan_write(
    args: SharedArgs,
    translation_exists: bool,
    title: &str,
    record: Option<&Metadata>,
) -> (r: Result<Job, RunError>)
    ensures
        !translation_exists ==> r == Err::<Job, RunError>(RunError::TranslationMissing),
        translation_exists ==> r is Ok,
        r matches Ok(job) ==> {
            &&& job_follows(job, args, title@, settings_of(record), Operation::Write)
            &&& !job.map_events
            &&& !job.ignore
            &&& !job.create_ignore
            &&& job.hashes@.len() == 0
        },
{
    if !translation_exists {
        return Err(RunError::TranslationMissing);
    }
    let mut job = job_for(args, title, record, Operation::Write);
    job.map_events = false;
    Ok(job)
}

/// What a purge hands the text engine; the translation must exist.
pub fn plan_purge(
    args: PurgeArgs,
    translation_exists: bool,
    title: &str,
    record: Option<&Metadata>,
) -> (r: Result<Job, RunError>)
    ensures
        !translation_exists ==> r == Err::<Job, RunError>(RunError::TranslationMissing),
        translation_exists ==> r is Ok,
        r matches Ok(job) ==> {
            &&& job_follows(job, args.shared, title@, settings_of(record), Operation::Purge)
            &&& !job.map_events
            &&& !job.ignore
            &&& job.create_ignore == args.create_ignore
            &&& job.hashes@.len() == 0
        },
{
    if !translation_exists {
        return Err(RunError::TranslationMissing);
    }
    let mut job = job_for(args.shared, title, record, Operation::Purge);
    job.map_events = false;
    job.create_ignore = args.create_ignore;
    Ok(job)
}

/// The JSON subcommands for older engines.
#[derive(Clone, Copy, Debug, PartialEq, Eq, Structural)]
pub enum JsonSubcommand {
    Generate { read_mode: ReadMode },
    Write,
}

/// Generation overwrites existing JSON only in the forced mode; `None` for
/// the write subcommand.
pub fn json_generate_force(sub: JsonSubcommand) -> (r: Option<bool>)
    ensures
        match sub {
            JsonSubcommand::Generate { read_mode } => r == Some(read_mode == ReadMode::Force),
            JsonSubcommand::Write => r is None,
        },
{
    match sub {
        JsonSubcommand::Generate { read_mode } => Some(read_mode.is_force()),
        JsonSubcommand::Write => None,
    }
}

} // verus!
