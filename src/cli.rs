//! The command surface and the choice of output format.

use crate::error::SimulationError;
use vstd::prelude::*;

verus! {

/// The encodings a simulation can be written in.
#[derive(Clone, Copy, Debug, PartialEq, Eq, Structural)]
#[non_exhaustive]
pub enum SimulationFormat {
    Png,
    Dat,
}

/// The commands of the tool.
#[non_exhaustive]
pub enum Commands {
    /// Generate a simulation of the skylight polarization pattern.
    Simulate {
        /// Optional path to a parameter file; the default parameters when absent.
        params: Option<String>,
        /// File path for the simulated output.
        output: String,
        /// Output format; inferred from the output path's extension when absent.
        format: Option<SimulationFormat>,
    },
}

/// What a command says, with its paths as character sequences.
pub open spec fn command_view(c: Commands) -> (Option<Seq<char>>, Seq<char>, Option<SimulationFormat>) {
    match c {
        Commands::Simulate { params, output, format } => (
            match params {
                Some(p) => Some(p@),
                None => None,
            },
            output@,
            format,
        ),
    }
}

/// A parsed command line.
pub struct Cli {
    command: Commands,
}

impl Cli {
    pub closed spec fn spec_command(&self) -> Commands {
        self.command
    }

    pub fn new(command: Commands) -> (cli: Cli)
        ensures
            cli.spec_command() == command,
    {
        Cli { command }
    }

    /// A copy of the command.
    pub fn command(&self) -> (c: Commands)
        ensures
            command_view(c) == command_view(self.spec_command()),
    {
        match &self.command {
            Commands::Simulate { params, output, format } => {
                let params = match params {
                    Some(p) => Some(p.clone()),
                    None => None,
                };
                Commands::Simulate { params, output: output.clone(), format: *format }
            },
        }
    }
}

/// The format chosen for an explicit selector and a path extension: the
/// selector when given, else `png` or `dat` by the extension.
pub open spec fn format_choice(format: Option<SimulationFormat>, extension: Option<Seq<char>>) -> Result<SimulationFormat, SimulationError> {
    match format {
        Some(f) => Ok(f),
        None => match extension {
            Some(e) => if e == seq!['p', 'n', 'g'] {
                Ok(SimulationFormat::Png)
            } else if e == seq!['d', 'a', 't'] {
                Ok(SimulationFormat::Dat)
            } else {
                Err(SimulationError::UnsupportedFormat)
            },
            None => Err(SimulationError::UnsupportedFormat),
        },
    }
}

fn equals_word(s: &str, w: &str) -> (r: bool)
    ensures
        r == (s@ == w@),
{
    let n = s.unicode_len();
    if n != w.unicode_len() {
        return false;
    }
    let mut i: usize = 0;
    while i < n
        invariant
            n == s@.len() == w@.len(),
            i <= n,
            forall|j: int| 0 <= j < i ==> s@[j] == w@[j],
        decreases n - i,
    {
        if s.get_char(i) != w.get_char(i) {
            return false;
        }
        i = i + 1;
    }
    assert(s@ =~= w@);
    true
}

/// Picks the output format from an explicit selector and the extension of
/// the output path.
pub fn format_for_extension(format: Option<SimulationFormat>, extension: Option<&str>) -> (r: Result<SimulationFormat, SimulationError>)
    ensures
        r == format_choice(
            format,
            match extension {
                Some(e) => Some(e@),
                None => None,
            },
        ),
{
    match format {
        Some(f) => Ok(f),
        None => match extension {
            Some(e) => {
                proof {
                    reveal_strlit("png");
                    reveal_strlit("dat");
                    assert("png"@ =~= seq!['p', 'n', 'g']);
                    assert("dat"@ =~= seq!['d', 'a', 't']);
                }
                if equals_word(e, "png") {
                    Ok(SimulationFormat::Png)
                } else if equals_word(e, "dat") {
                    Ok(SimulationFormat::Dat)
                } else {
                    Err(SimulationError::UnsupportedFormat)
                }
            },
            None => Err(SimulationError::UnsupportedFormat),
        },
    }
}

/// The extension of a path as `std::path::Path::extension` finds it.
pub uninterp spec fn extension_of(path: Seq<char>) -> Option<Seq<char>>;

/// Relies on `std::path::Path::extension`: the part of the file name after its
/// last `.`, if any, which is valid UTF-8 since the path is.
#[verifier::external_body]
fn path_extension(path: &str) -> (r: Option<String>)
    ensures
        match r {
            Some(e) => extension_of(path@) == Some(e@),
            None => extension_of(path@) is None,
        },
{
    std::path::Path::new(path).extension().and_then(|e| e.to_str()).map(|e| e.to_string())
}

/// Picks the output format: the explicit selector when given, else the one
/// the output path's extension names (`png` or `dat`).
pub fn infer_format(format: Option<SimulationFormat>, output: &str) -> (r: Result<SimulationFormat, SimulationError>)
    ensures
        r == format_choice(format, extension_of(output@)),
{
    match format {
        Some(f) => Ok(f),
        None => {
            let extension = path_extension(output);
            match extension {
                Some(e) => format_for_extension(None, Some(e.as_str())),
                None => format_for_extension(None, None),
            }
        },
    }
}

} // verus!
