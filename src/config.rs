//! The settings a run works with, and how a persisted record of them takes
//! precedence over the command line.
use vstd::prelude::*;

verus! {

/// How a read treats translation files that already exist.
#[derive(Clone, Copy, Debug, PartialEq, Eq, Structural)]
pub enum ReadMode {
    /// Refuse when translation files exist.
    Default,
    /// Merge new text into the existing translation.
    Append,
    /// Overwrite existing translation files.
    Force,
    /// Merge, bypassing the unchanged-file check.
    ForceAppend,
}

impl ReadMode {
    pub open spec fn spec_is_append(self) -> bool {
        self == ReadMode::Append || self == ReadMode::ForceAppend
    }

    /// The incremental modes.
    #[verifier::when_used_as_spec(spec_is_append)]
    pub fn is_append(self) -> (r: bool)
        ensures
            r == self.spec_is_append(),
    {
        match self {
            ReadMode::Append | ReadMode::ForceAppend => true,
            _ => false,
        }
    }

    /// The destructive overwrite mode, which asks for confirmation.
    pub fn is_force(self) -> (r: bool)
        ensures
            r == (self == ReadMode::Force),
    {
        match self {
            ReadMode::Force => true,
            _ => false,
        }
    }
}

/// How repeated source lines are handled.
#[derive(Clone, Copy, Debug, PartialEq, Eq, Structural)]
pub enum DuplicateMode {
    Allow,
    Remove,
}

/// The flags fixed for the life of a translation project.
#[derive(Clone, Copy, Debug, PartialEq, Eq, Structural)]
pub struct Settings {
    pub romanize: bool,
    pub trim: bool,
    pub disable_custom_processing: bool,
    pub duplicate_mode: DuplicateMode,
}

/// The record kept beside the translation: the settings of the last read,
/// and the content fingerprints it produced.
#[derive(Clone, Debug)]
pub struct Metadata {
    pub romanize: bool,
    pub disable_custom_processing: bool,
    pub trim: bool,
    pub duplicate_mode: DuplicateMode,
    pub hashes: Option<Vec<u128>>,
}

impl Metadata {
    pub open spec fn spec_settings(&self) -> Settings {
        Settings {
            romanize: self.romanize,
            trim: self.trim,
            disable_custom_processing: self.disable_custom_processing,
            duplicate_mode: self.duplicate_mode,
        }
    }

    /// The record as values: its settings and its fingerprints.
    pub open spec fn model(&self) -> (Settings, Option<Seq<u128>>) {
        (
            self.spec_settings(),
            match self.hashes {
                Some(h) => Some(h@),
                None => None,
            },
        )
    }

    /// The settings the record holds, fingerprints aside.
    #[verifier::when_used_as_spec(spec_settings)]
    pub fn settings(&self) -> (r: Settings)
        ensures
            r == self.spec_settings(),
    {
        Settings {
            romanize: self.romanize,
            trim: self.trim,
            disable_custom_processing: self.disable_custom_processing,
            duplicate_mode: self.duplicate_mode,
        }
    }

    /// The record a read leaves behind: its settings and the fingerprints the
    /// reader returned.
    pub fn after_read(settings: Settings, hashes: Vec<u128>) -> (r: Metadata)
        ensures
            r.model() == (settings, Some(hashes@)),
    {
        Metadata {
            romanize: settings.romanize,
            disable_custom_processing: settings.disable_custom_processing,
            trim: settings.trim,
            duplicate_mode: settings.duplicate_mode,
            hashes: Some(hashes),
        }
    }
}

/// The three operations on a translation.
#[derive(Clone, Copy, Debug, PartialEq, Eq, Structural)]
pub enum Operation {
    Read(ReadMode),
    Write,
    Purge,
}

/// Whether a persisted record, when present, decides the settings: always
/// for write and purge, which must match how the text was extracted, and for
/// incremental reads; other reads take the command line.
pub open spec fn record_governs(op: Operation) -> bool {
    match op {
        Operation::Read(m) => m.spec_is_append(),
        _ => true,
    }
}

/// Whether the persisted record is consulted at all.
pub fn consults_record(op: Operation) -> (r: bool)
    ensures
        r == record_governs(op),
{
    match op {
        Operation::Read(m) => m.is_append(),
        _ => true,
    }
}

/// The settings a run uses, from the command line's and the record's.
pub open spec fn resolved(cli: Settings, record: Option<Settings>, op: Operation) -> Settings {
    match record {
        Some(s) => if record_governs(op) {
            s
        } else {
            cli
        },
        None => cli,
    }
}

/// Applies the precedence: a record that governs replaces every
/// command-line setting; without one, the command line stands in full.
pub fn resolve_settings(cli: Settings, record: Option<&Metadata>, op: Operation) -> (r: Settings)
    ensures
        r == resolved(
            cli,
            match record {
                Some(m) => Some(m.spec_settings()),
                None => None,
            },
            op,
        ),
{
    match record {
        Some(m) => if consults_record(op) {
            m.settings()
        } else {
            cli
        },
        None => cli,
    }
}

/// The fingerprints a read starts from: the record's, when the mode is
/// incremental and the record holds some; otherwise none.
pub open spec fn starting(record: Option<(Settings, Option<Seq<u128>>)>, mode: ReadMode) -> Seq<
    u128,
> {
    match record {
        Some(m) => if mode.spec_is_append() && m.1 is Some {
            m.1->0
        } else {
            Seq::empty()
        },
        None => Seq::empty(),
    }
}

pub open spec fn model_of(record: Option<&Metadata>) -> Option<(Settings, Option<Seq<u128>>)> {
    match record {
        Some(m) => Some(m.model()),
        None => None,
    }
}

pub open spec fn settings_of(record: Option<&Metadata>) -> Option<Settings> {
    match record {
        Some(m) => Some(m.spec_settings()),
        None => None,
    }
}

pub fn starting_hashes(record: Option<&Metadata>, mode: ReadMode) -> (r: Vec<u128>)
    ensures
        r@ == starting(model_of(record), mode),
{
    match record {
        Some(m) => {
            if mode.is_append() {
                match &m.hashes {
                    Some(h) => {
                        let mut out: Vec<u128> = Vec::new();
                        let mut i: usize = 0;
                        while i < h.len()
                            invariant
                                i <= h.len(),
                                out@ == h@.take(i as int),
                            decreases h.len() - i,
                        {
                            out.push(h[i]);
                            i = i + 1;
                            assert(out@ =~= h@.take(i as int));
                        }
                        assert(h@.take(h.len() as int) =~= h@);
                        out
                    },
                    None => Vec::new(),
                }
            } else {
                Vec::new()
            }
        },
        None => Vec::new(),
    }
}

/// In incremental mode a persisted record decides every setting, whatever the
/// command line says.
pub proof fn lemma_append_follows_record(cli: Settings, record: Settings, mode: ReadMode)
    requires
        mode.spec_is_append(),
    ensures
        resolved(cli, Some(record), Operation::Read(mode)) == record,
{
}

/// Write and purge follow a persisted record whatever the command line says.
pub proof fn lemma_write_purge_follow_record(cli: Settings, record: Settings)
    ensures
        resolved(cli, Some(record), Operation::Write) == record,
        resolved(cli, Some(record), Operation::Purge) == record,
{
}

/// Without a record the command line decides, in every operation.
pub proof fn lemma_no_record_follows_cli(cli: Settings, op: Operation)
    ensures
        resolved(cli, None, op) == cli,
{
}

/// An incremental read over unchanged game data leaves the record as it
/// found it: the reader starts from the recorded fingerprints, and when it
/// hands the same ones back, the record written equals the one read.
pub proof fn lemma_incremental_read_stable(
    cli: Settings,
    record: (Settings, Option<Seq<u128>>),
    mode: ReadMode,
)
    requires
        mode.spec_is_append(),
        record.1 is Some,
    ensures
        (resolved(cli, Some(record.0), Operation::Read(mode)), Some(
            starting(Some(record), mode),
        )) == record,
{
}

} // verus!
