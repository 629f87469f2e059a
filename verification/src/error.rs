//! The errors of `cargo with`, and the message that each one prints.

use vstd::prelude::*;

use crate::cargo::{target_kind_name, TargetKind};

verus! {

/// A build artifact that could be examined, as listed when there is more
/// than one of them.
#[derive(Debug, Clone)]
pub struct Candidate {
    /// Name of the artifact's target.
    pub name: String,
    /// First kind of the artifact's target.
    pub kind: TargetKind,
}

/// Everything that can go wrong while running `cargo with`.
#[derive(Debug)]
pub enum Error {
    /// The command line did not hold the `with` subcommand.
    SubcommandMissing,
    /// The command line did not hold the command to run the artifact with.
    WithCommandMissing,
    /// The command line did not hold the cargo command.
    CargoCommandMissing,
    /// The cargo command was empty.
    EmptyCargoCommand,
    /// The first word of the cargo command is not a supported subcommand.
    UnknownSubcommand(String),
    /// `cargo` could not be started; holds the arguments it was given.
    CargoSpawnFailed(String),
    /// `cargo` ran and failed, with the given standard error and output.
    CargoFailed { stderr: String, stdout: String },
    /// The output of `cargo` was not UTF-8; holds the arguments it was given.
    InvalidCargoOutput(String),
    /// No build artifact fits the command.
    NoCandidates,
    /// More than one build artifact fits the command; `test` when the command
    /// selects by the test profile, `terminated` when every listed
    /// candidate ends with a line feed (otherwise line feeds only separate
    /// them).
    MultipleCandidates { candidates: Vec<Candidate>, test: bool, terminated: bool },
    /// The path of the artifact is not UTF-8.
    ArtifactPathNotUtf8,
    /// The path of the binary is not UTF-8.
    BinaryPathNotUtf8,
    /// The command to run the artifact with is empty.
    EmptyWithCommand,
    /// No child command was given.
    NoChildCommand,
}

/// The line that lists a candidate: `\t- name (kind)`.
pub open spec fn candidate_line(c: Candidate) -> Seq<char> {
    "\t- "@ + c.name@ + " ("@ + target_kind_name(c.kind) + ")"@
}

/// The lines that list the candidates, one each; each followed by a line
/// feed when `terminated`, else separated by line feeds.
pub open spec fn candidate_lines(cs: Seq<Candidate>, terminated: bool) -> Seq<char>
    decreases cs.len(),
{
    if cs.len() == 0 {
        seq![]
    } else if terminated {
        candidate_lines(cs.drop_last(), terminated) + candidate_line(cs.last()) + "\n"@
    } else if cs.len() == 1 {
        candidate_line(cs.last())
    } else {
        candidate_lines(cs.drop_last(), terminated) + "\n"@ + candidate_line(cs.last())
    }
}

/// The text printed for an error.
pub open spec fn error_message(e: Error) -> Seq<char> {
    match e {
        Error::SubcommandMissing => "Failed to parse the correct subcommand"@,
        Error::WithCommandMissing => "Failed to parse the command to run with the artifact"@,
        Error::CargoCommandMissing => "Failed to parse the cargo command producing the artifact"@,
        Error::EmptyCargoCommand => "Empty cargo command"@,
        Error::UnknownSubcommand(s) => "Unable to convert '"@ + s@ + "' into a cargo subcommand"@,
        Error::CargoSpawnFailed(a) => "Unable to run cargo command: `cargo "@ + a@ + "`"@,
        Error::CargoFailed { stderr, stdout } => stderr@ + "\n"@ + stdout@
            + "\nCargo subcommand failed. Try running the original cargo command (without cargo-with)"@,
        Error::InvalidCargoOutput(a) => "Output of `cargo "@ + a@
            + "` contained invalid UTF-8 characters"@,
        Error::NoCandidates => "Found no possible candidates"@,
        Error::MultipleCandidates { candidates, test, terminated } =>
            "Found more than one possible candidate:\n\n"@ + candidate_lines(candidates@, terminated)
            + if test {
            "\n\nPlease use `--test`, `--example`, `--bin` or `--lib` to specify exactly what binary you want to examine"@
        } else {
            "\n\nPlease use `--example` or `--bin` to specify exactly what binary you want to examine"@
        },
        Error::ArtifactPathNotUtf8 => "Filename of artifact contains non-valid UTF-8 characters"@,
        Error::BinaryPathNotUtf8 => "Binary path is not valid utf-8"@,
        Error::EmptyWithCommand => "Empty with command"@,
        Error::NoChildCommand => "No child command given."@,
    }
}

/// A string holding the characters of a literal.
fn owned(s: &str) -> (res: String)
    ensures
        res@ == s@,
{
    s.to_owned()
}

/// The lines that list the candidates.
fn candidates_text(cs: &Vec<Candidate>, terminated: bool) -> (res: String)
    ensures
        res@ == candidate_lines(cs@, terminated),
{
    let mut res = String::new();
    let mut i: usize = 0;
    while i < cs.len()
        invariant
            i <= cs@.len(),
            res@ == candidate_lines(cs@.take(i as int), terminated),
        decreases cs@.len() - i,
    {
        assert(cs@.take(i + 1).drop_last() =~= cs@.take(i as int));
        assert(cs@.take(i + 1).last() == cs@[i as int]);
        if !terminated && i > 0 {
            res.append("\n");
        }
        res.append("\t- ");
        res.append(cs[i].name.as_str());
        res.append(" (");
        res.append(cs[i].kind.name());
        res.append(")");
        if terminated {
            res.append("\n");
        }
        i = i + 1;
    }
    assert(cs@.take(cs@.len() as int) =~= cs@);
    res
}

impl Error {
    /// The text printed for this error.
    pub fn message(&self) -> (res: String)
        ensures
            res@ == error_message(*self),
    {
        match self {
            Error::SubcommandMissing => owned("Failed to parse the correct subcommand"),
            Error::WithCommandMissing => owned(
                "Failed to parse the command to run with the artifact",
            ),
            Error::CargoCommandMissing => owned(
                "Failed to parse the cargo command producing the artifact",
            ),
            Error::EmptyCargoCommand => owned("Empty cargo command"),
            Error::UnknownSubcommand(s) => {
                let mut res = owned("Unable to convert '");
                res.append(s.as_str());
                res.append("' into a cargo subcommand");
                res
            },
            Error::CargoSpawnFailed(a) => {
                let mut res = owned("Unable to run cargo command: `cargo ");
                res.append(a.as_str());
                res.append("`");
                res
            },
            Error::CargoFailed { stderr, stdout } => {
                let mut res = owned(stderr.as_str());
                res.append("\n");
                res.append(stdout.as_str());
                res.append(
                    "\nCargo subcommand failed. Try running the original cargo command (without cargo-with)",
                );
                res
            },
            Error::InvalidCargoOutput(a) => {
                let mut res = owned("Output of `cargo ");
                res.append(a.as_str());
                res.append("` contained invalid UTF-8 characters");
                res
            },
            Error::NoCandidates => owned("Found no possible candidates"),
            Error::MultipleCandidates { candidates, test, terminated } => {
                let mut res = owned("Found more than one possible candidate:\n\n");
                let listed = candidates_text(candidates, *terminated);
                res.append(listed.as_str());
                if *test {
                    res.append(
                        "\n\nPlease use `--test`, `--example`, `--bin` or `--lib` to specify exactly what binary you want to examine",
                    );
                } else {
                    res.append(
                        "\n\nPlease use `--example` or `--bin` to specify exactly what binary you want to examine",
                    );
                }
                res
            },
            Error::ArtifactPathNotUtf8 => owned(
                "Filename of artifact contains non-valid UTF-8 characters",
            ),
            Error::BinaryPathNotUtf8 => owned("Binary path is not valid utf-8"),
            Error::EmptyWithCommand => owned("Empty with command"),
            Error::NoChildCommand => owned("No child command given."),
        }
    }
}

} // verus!
