//! Where a game keeps its data, and which engine made it: the first existing
//! candidate wins, in a fixed order.
use vstd::prelude::*;

verus! {

/// The engine generations this tool reads, in the order they are probed.
#[derive(Clone, Copy, Debug, PartialEq, Eq, Structural)]
pub enum Engine {
    /// MV and MZ, with JSON data.
    New,
    VXAce,
    VX,
    XP,
}

/// The engine probed at position `i`.
pub open spec fn engine_at(i: int) -> Engine {
    if i == 0 {
        Engine::New
    } else if i == 1 {
        Engine::VXAce
    } else if i == 2 {
        Engine::VX
    } else {
        Engine::XP
    }
}

impl Engine {
    /// The system descriptor's file name inside the data directory.
    pub fn system_file_name(&self) -> (r: &'static str)
        ensures
            r@ == match *self {
                Engine::New => "System.json"@,
                Engine::VXAce => "System.rvdata2"@,
                Engine::VX => "System.rvdata"@,
                Engine::XP => "System.rxdata"@,
            },
    {
        match self {
            Engine::New => "System.json",
            Engine::VXAce => "System.rvdata2",
            Engine::VX => "System.rvdata",
            Engine::XP => "System.rxdata",
        }
    }

    /// The packed archive's file name beside the data directory; the JSON
    /// engine has none.
    pub fn archive_file_name(&self) -> (r: Option<&'static str>)
        ensures
            match *self {
                Engine::New => r is None,
                Engine::VXAce => r is Some && r->0@ == "Game.rgss3a"@,
                Engine::VX => r is Some && r->0@ == "Game.rgss2a"@,
                Engine::XP => r is Some && r->0@ == "Game.rgssad"@,
            },
    {
        match self {
            Engine::New => None,
            Engine::VXAce => Some("Game.rgss3a"),
            Engine::VX => Some("Game.rgss2a"),
            Engine::XP => Some("Game.rgssad"),
        }
    }

    /// The engine probed at position `i`.
    pub fn at(i: usize) -> (r: Engine)
        requires
            i < 4,
        ensures
            r == engine_at(i as int),
    {
        if i == 0 {
            Engine::New
        } else if i == 1 {
            Engine::VXAce
        } else if i == 2 {
            Engine::VX
        } else {
            Engine::XP
        }
    }
}

/// A layout that cannot be worked on.
#[derive(Clone, Copy, Debug, PartialEq, Eq, Structural)]
pub enum SetupError {
    InputMissing,
    OutputMissing,
    DirectoryNotFound,
    EngineUndetermined,
}

/// The text shown for each error.
pub open spec fn setup_error_text(e: SetupError) -> Seq<char> {
    match e {
        SetupError::InputMissing => "Input directory does not exist."@,
        SetupError::OutputMissing => "Output directory does not exist."@,
        SetupError::DirectoryNotFound => "Could not find `original` or `data`/`Data` directory."@,
        SetupError::EngineUndetermined => "Couldn't determine game engine. Check the existence of `System` file inside `original` or `data`/`Data` directory, or `.rgss` archive."@,
    }
}

impl SetupError {
    pub fn message(&self) -> (r: &'static str)
        ensures
            r@ == setup_error_text(*self),
    {
        match self {
            SetupError::InputMissing => "Input directory does not exist.",
            SetupError::OutputMissing => "Output directory does not exist.",
            SetupError::DirectoryNotFound => "Could not find `original` or `data`/`Data` directory.",
            SetupError::EngineUndetermined => "Couldn't determine game engine. Check the existence of `System` file inside `original` or `data`/`Data` directory, or `.rgss` archive.",
        }
    }
}

/// The candidate data directories, in the order they are probed.
pub fn source_dir_name(i: usize) -> (r: &'static str)
    requires
        i < 3,
    ensures
        r@ == if i == 0 {
            "original"@
        } else if i == 1 {
            "data"@
        } else {
            "Data"@
        },
{
    if i == 0 {
        "original"
    } else if i == 1 {
        "data"
    } else {
        "Data"
    }
}

/// The input root must exist, and so must the output root.
pub fn check_roots(input_exists: bool, output_exists: bool) -> (r: Result<(), SetupError>)
    ensures
        !input_exists ==> r == Err::<(), SetupError>(SetupError::InputMissing),
        input_exists && !output_exists ==> r == Err::<(), SetupError>(SetupError::OutputMissing),
        input_exists && output_exists ==> r is Ok,
{
    if !input_exists {
        Err(SetupError::InputMissing)
    } else if !output_exists {
        Err(SetupError::OutputMissing)
    } else {
        Ok(())
    }
}

/// `i` is the first of `exists` that holds.
pub open spec fn first_true(exists: Seq<bool>, i: int) -> bool {
    0 <= i < exists.len() && exists[i] && forall|j: int| 0 <= j < i ==> !exists[j]
}

/// Picks the first candidate data directory that exists (`exists[i]` for
/// `source_dir_name(i)`).
pub fn choose_source_dir(exists: &[bool; 3]) -> (r: Result<usize, SetupError>)
    ensures
        match r {
            Ok(i) => first_true(exists@, i as int),
            Err(e) => e == SetupError::DirectoryNotFound && forall|j: int|
                0 <= j < 3 ==> !exists@[j],
        },
{
    let mut i: usize = 0;
    while i < 3
        invariant
            i <= 3,
            exists@.len() == 3,
            forall|j: int| 0 <= j < i ==> !exists@[j],
        decreases 3 - i,
    {
        if exists[i] {
            return Ok(i);
        }
        i = i + 1;
    }
    Err(SetupError::DirectoryNotFound)
}

/// Engine `i` matches when its system descriptor exists, or its archive does
/// (the JSON engine has no archive).
pub open spec fn engine_matches(system: Seq<bool>, archive: Seq<bool>, i: int) -> bool {
    system[i] || (i > 0 && archive[i])
}

/// The engine that resolution picks: the first that matches, in probe order.
pub open spec fn engine_choice(system: Seq<bool>, archive: Seq<bool>) -> Option<Engine> {
    if exists|i: int| 0 <= i < 4 && engine_matches(system, archive, i) {
        let i = choose|i: int|
            0 <= i < 4 && engine_matches(system, archive, i) && forall|j: int|
                0 <= j < i ==> !engine_matches(system, archive, j);
        Some(engine_at(i))
    } else {
        None
    }
}

proof fn lemma_engine_choice_first(system: Seq<bool>, archive: Seq<bool>, i: int)
    requires
        0 <= i < 4,
        engine_matches(system, archive, i),
        forall|j: int| 0 <= j < i ==> !engine_matches(system, archive, j),
    ensures
        engine_choice(system, archive) == Some(engine_at(i)),
{
    let k = choose|k: int|
        0 <= k < 4 && engine_matches(system, archive, k) && forall|j: int|
            0 <= j < k ==> !engine_matches(system, archive, j);
    assert(0 <= k < 4 && engine_matches(system, archive, k) && forall|j: int|
        0 <= j < k ==> !engine_matches(system, archive, j));
    if k < i {
        assert(!engine_matches(system, archive, k));
    } else if i < k {
        assert(!engine_matches(system, archive, i));
    }
}

/// Picks the engine from what exists: `system[i]` for engine `i`'s system
/// descriptor, `archive[i]` for its archive (ignored for the JSON engine).
pub fn choose_engine(system: &[bool; 4], archive: &[bool; 4]) -> (r: Result<Engine, SetupError>)
    ensures
        match r {
            Ok(e) => engine_choice(system@, archive@) == Some(e),
            Err(e) => e == SetupError::EngineUndetermined && engine_choice(system@, archive@)
                is None,
        },
{
    let mut i: usize = 0;
    while i < 4
        invariant
            i <= 4,
            system@.len() == 4,
            archive@.len() == 4,
            forall|j: int| 0 <= j < i ==> !engine_matches(system@, archive@, j),
        decreases 4 - i,
    {
        if system[i] || (i > 0 && archive[i]) {
            proof {
                lemma_engine_choice_first(system@, archive@, i as int);
            }
            return Ok(Engine::at(i));
        }
        i = i + 1;
    }
    Err(SetupError::EngineUndetermined)
}

/// Probing order decides: wherever the VX Ace system descriptor exists and
/// the JSON one does not, VX Ace is chosen, whatever else (an XP archive, say)
/// is present.
pub proof fn lemma_vxace_descriptor_wins(system: Seq<bool>, archive: Seq<bool>)
    requires
        system.len() == 4,
        archive.len() == 4,
        !system[0],
        system[1],
    ensures
        engine_choice(system, archive) == Some(Engine::VXAce),
{
    lemma_engine_choice_first(system, archive, 1);
}

} // verus!
