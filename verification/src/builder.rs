use vstd::prelude::*;

use crate::editor::modes::{spec_mode_from_path, EditorMode};
use crate::text::starts_with_char;

verus! {

/// How many editor files the asset build skipped, failed on and built.
#[derive(Clone, Copy, Debug, PartialEq, Eq, Structural)]
pub struct Statistics {
    pub skipped: u32,
    pub failed: u32,
    pub succeeded: u32,
}

impl Default for Statistics {
    fn default() -> (r: Statistics)
        ensures
            r.skipped == 0 && r.failed == 0 && r.succeeded == 0,
    {
        Statistics { skipped: 0, failed: 0, succeeded: 0 }
    }
}

/// What became of one editor file during the build.
#[derive(Clone, Copy, Debug, PartialEq, Eq, Structural)]
pub enum FileOutcome {
    /// Not meant for the environment being built.
    Skipped,
    /// Could not be read, parsed or built.
    Failed,
    /// Built into the asset collection.
    Built,
}

impl Statistics {
    /// Counts one file's outcome.
    pub fn record(&mut self, outcome: FileOutcome)
        requires
            old(self).skipped < u32::MAX,
            old(self).failed < u32::MAX,
            old(self).succeeded < u32::MAX,
        ensures
            final(self).skipped == old(self).skipped + if outcome == FileOutcome::Skipped { 1int } else { 0int },
            final(self).failed == old(self).failed + if outcome == FileOutcome::Failed { 1int } else { 0int },
            final(self).succeeded == old(self).succeeded + if outcome == FileOutcome::Built { 1int } else { 0int },
    {
        match outcome {
            FileOutcome::Skipped => {
                self.skipped = self.skipped + 1;
            },
            FileOutcome::Failed => {
                self.failed = self.failed + 1;
            },
            FileOutcome::Built => {
                self.succeeded = self.succeeded + 1;
            },
        }
    }
}

/// The build produced output exactly when at least one file was built.
pub fn check_build_statistics(stats: &Statistics) -> (r: bool)
    ensures
        r == (stats.succeeded > 0),
{
    stats.succeeded > 0
}

/// The message logged at the end of a build.
pub open spec fn spec_build_message(stats: Statistics) -> Seq<char> {
    if stats.succeeded > 0 {
        if stats.failed > 0 {
            "build succeeded with failures"@
        } else {
            "build succeeded"@
        }
    } else {
        "build failed (no output)"@
    }
}

pub fn build_message(stats: &Statistics) -> (r: String)
    ensures
        r@ == spec_build_message(*stats),
{
    let mut message = String::from_str("build");
    proof {
        reveal_strlit("build");
        reveal_strlit(" succeeded");
        reveal_strlit(" with failures");
        reveal_strlit(" failed (no output)");
        reveal_strlit("build succeeded with failures");
        reveal_strlit("build succeeded");
        reveal_strlit("build failed (no output)");
    }
    if stats.succeeded > 0 {
        message.append(" succeeded");
        if stats.failed > 0 {
            message.append(" with failures");
        }
    } else {
        message.append(" failed (no output)");
    }
    proof {
        assert(message@ =~= spec_build_message(*stats));
    }
    message
}

/// How the asset builder exits.
#[derive(Clone, Copy, Debug, PartialEq, Eq, Structural)]
pub enum Code {
    Success,
    BuildError,
    NoOutput,
    WriteError,
}

impl Code {
    /// The process exit status of this outcome.
    pub fn exit_status(&self) -> (r: i32)
        ensures
            r == match *self {
                Code::Success => 0i32,
                Code::BuildError => 1i32,
                Code::NoOutput => 2i32,
                Code::WriteError => 3i32,
            },
    {
        match self {
            Code::Success => 0,
            Code::BuildError => 1,
            Code::NoOutput => 2,
            Code::WriteError => 3,
        }
    }

    /// Whether the outcome is logged as an error before exiting.
    pub fn is_error(&self) -> (r: bool)
        ensures
            r == (*self != Code::Success),
    {
        *self != Code::Success
    }
}

/// The file format of the built archive; only CBOR is read by the game.
#[derive(Clone, Copy, Debug, PartialEq, Eq, Structural)]
pub enum Format {
    Cbor,
    Ron,
}

impl Format {
    pub open spec fn spec_extension(self) -> Seq<char> {
        match self {
            Format::Cbor => "cbor"@,
            Format::Ron => "ron"@,
        }
    }

    pub fn extension(&self) -> (r: &'static str)
        ensures
            r@ == self.spec_extension(),
    {
        match self {
            Format::Cbor => "cbor",
            Format::Ron => "ron",
        }
    }
}

/// The environment assets are built for.
#[derive(Clone, Copy, Debug, PartialEq, Eq, Structural)]
pub enum Environment {
    Development,
    Staging,
    Production,
}

impl Environment {
    pub open spec fn spec_name(self) -> Seq<char> {
        match self {
            Environment::Development => "development"@,
            Environment::Staging => "staging"@,
            Environment::Production => "production"@,
        }
    }

    /// The environment's name in lower case.
    pub fn name(&self) -> (r: &'static str)
        ensures
            r@ == self.spec_name(),
    {
        match self {
            Environment::Development => "development",
            Environment::Staging => "staging",
            Environment::Production => "production",
        }
    }
}

/// The archive's file name: `<name>.<environment>.<format>`.
pub fn archive_file_name(name: &str, env: Environment, format: Format) -> (r: String)
    ensures
        r@ == name@ + "."@ + env.spec_name() + "."@ + format.spec_extension(),
{
    let mut s = String::from_str(name);
    s.append(".");
    s.append(env.name());
    s.append(".");
    s.append(format.extension());
    s
}

/// Why an input file is left out of the build.
#[derive(Clone, Copy, Debug, PartialEq, Eq, Structural)]
pub enum SkipReason {
    Directory,
    InvalidFilename,
    Hidden,
    NotEditorFile,
}

/// Which input files the build keeps: files (not directories) with a readable name that
/// does not start with `.` and a path naming an editor mode.
pub fn classify_input(is_dir: bool, file_name: Option<&str>, path: &str) -> (r: Result<EditorMode, SkipReason>)
    ensures
        is_dir ==> r == Err::<EditorMode, SkipReason>(SkipReason::Directory),
        !is_dir ==> match file_name {
            None => r == Err::<EditorMode, SkipReason>(SkipReason::InvalidFilename),
            Some(n) => r == if n@.len() > 0 && n@[0] == '.' {
                Err(SkipReason::Hidden)
            } else {
                match spec_mode_from_path(path@) {
                    Ok(m) => Ok(m),
                    Err(_) => Err(SkipReason::NotEditorFile),
                }
            },
        },
{
    if is_dir {
        return Err(SkipReason::Directory);
    }
    let name = match file_name {
        Some(n) => n,
        None => {
            return Err(SkipReason::InvalidFilename);
        },
    };
    if starts_with_char(name, '.') {
        return Err(SkipReason::Hidden);
    }
    match EditorMode::from_path(path) {
        Ok(m) => Ok(m),
        Err(_) => Err(SkipReason::NotEditorFile),
    }
}

} // verus!
