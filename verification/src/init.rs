//! The project initializer: plans the scaffolding of a new project as a
//! state machine, asking the host for each directory and file operation
//! and deciding from what the host reports.
//!
//! The planned layout is a directory named after the project, holding
//! `src/main.cpp` with a starter program and `lion.toml` with the default
//! configuration. An already existing directory fails the command rather
//! than merge into it.

use vstd::prelude::*;
use vstd::string::StringExecFns;

use crate::config::{Bin, BinView, Config, ConfigView, Pkg, PkgView};
use crate::errors::LionError;
use crate::format::{config_text, serialize_config};

verus! {

/// Where one project initialization currently stands.
#[derive(Clone, Copy, Debug, PartialEq, Eq)]
pub enum InitPhase {
    /// Asking the host whether the project directory exists.
    CheckingRoot,
    /// Asking the host to create the project directory.
    CreatingRoot,
    /// Asking the host whether the source subdirectory exists.
    CheckingSrc,
    /// Asking the host to create the source subdirectory.
    CreatingSrc,
    /// Asking the host to write the starter source file.
    WritingMain,
    /// Asking the host to write the default configuration file.
    WritingConfig,
    /// The project stands; no further step is taken.
    Finished,
}

/// An action the initializer asks the host to perform.
#[derive(Clone, Debug, PartialEq)]
pub enum InitStep {
    /// Report whether this directory exists.
    CheckDir(String),
    /// Create this directory.
    CreateDir(String),
    /// Write this text to this path (path first, contents second).
    WriteFile(String, String),
    /// Nothing is left to do.
    Done,
}

/// What the host reports back after performing an [`InitStep`].
#[derive(Clone, Debug, PartialEq)]
pub enum InitEvent {
    /// Whether the checked directory exists.
    DirExists(bool),
    /// The requested directory was created.
    DirCreated,
    /// The requested file was written.
    FileWritten,
    /// A filesystem operation failed, with its message.
    IoFailed(String),
}

/// The source subdirectory of a project.
pub open spec fn src_dir_of(n: Seq<char>) -> Seq<char> {
    n + "/src"@
}

/// The starter source file of a project.
pub open spec fn main_path_of(n: Seq<char>) -> Seq<char> {
    n + "/src/main.cpp"@
}

/// The configuration file of a project.
pub open spec fn config_path_of(n: Seq<char>) -> Seq<char> {
    n + "/lion.toml"@
}

/// The starter program: a minimal hello-number program, self-contained so
/// that it needs no headers.
pub open spec fn starter_text() -> Seq<char> {
    "int main() { __builtin_printf(\"%d\\n\", 23); }\n"@
}

/// The default configuration of a freshly scaffolded project: the project
/// name, an empty description, the starter file as the single source, and
/// the default output location spelled out.
pub open spec fn default_config_view(n: Seq<char>) -> ConfigView {
    ConfigView {
        pkg: PkgView { name: n, description: Some(Seq::empty()), long_description: None },
        bin: BinView {
            files: seq!["src/main.cpp"@],
            out_dir: Some("dist"@),
            out_file: Some("out.exe"@),
        },
    }
}

/// Builds the default configuration of a new project named `name`.
pub fn default_config(name: String) -> (r: Config)
    ensures
        r@ == default_config_view(name@),
{
    let mut files: Vec<String> = Vec::new();
    files.push("src/main.cpp".to_owned());
    let c = Config {
        pkg: Pkg { name, description: Some(String::new()), long_description: None },
        bin: Bin {
            files,
            out_dir: Some("dist".to_owned()),
            out_file: Some("out.exe".to_owned()),
        },
    };
    proof {
        assert(c.bin.files.deep_view() =~= seq!["src/main.cpp"@]);
        assert(c@ =~= default_config_view(c.pkg.name@));
    }
    c
}

/// Returns the starter source file contents.
pub fn starter_source() -> (r: String)
    ensures
        r@ == starter_text(),
{
    "int main() { __builtin_printf(\"%d\\n\", 23); }\n".to_owned()
}

/// Which events may answer which phase.
pub open spec fn init_accepts(phase: InitPhase, event: InitEvent) -> bool {
    match phase {
        InitPhase::CheckingRoot | InitPhase::CheckingSrc => event matches InitEvent::DirExists(_)
            || event matches InitEvent::IoFailed(_),
        InitPhase::CreatingRoot | InitPhase::CreatingSrc => event matches InitEvent::DirCreated
            || event matches InitEvent::IoFailed(_),
        InitPhase::WritingMain | InitPhase::WritingConfig => event
            matches InitEvent::FileWritten || event matches InitEvent::IoFailed(_),
        InitPhase::Finished => false,
    }
}

/// Begins scaffolding a project named `name`: the first thing the
/// initializer needs is whether the project directory already exists.
pub fn project_start(name: &String) -> (r: (InitPhase, InitStep))
    ensures
        r.0 is CheckingRoot,
        r.1 matches InitStep::CheckDir(d) && d@ == name@,
{
    (InitPhase::CheckingRoot, InitStep::CheckDir(name.clone()))
}

/// Advances the scaffolding by one step, consuming what the host reported.
///
/// A project or source directory found to exist fails the command with
/// `AlreadyExists` and nothing further is created or overwritten; the
/// directories are created before the files are written into them, the
/// starter source first and the default configuration last.
pub fn project_step(name: &String, phase: InitPhase, event: InitEvent) -> (r: Result<
    (InitPhase, InitStep),
    LionError,
>)
    requires
        init_accepts(phase, event),
    ensures
        match (phase, event) {
            (InitPhase::CheckingRoot, InitEvent::DirExists(true)) => (r matches Err(
                LionError::AlreadyExists(m),
            ) && m@ == "folder with name "@ + name@ + " already exists"@),
            (InitPhase::CheckingRoot, InitEvent::DirExists(false)) => (r matches Ok(
                (InitPhase::CreatingRoot, InitStep::CreateDir(d)),
            ) && d@ == name@),
            (InitPhase::CreatingRoot, InitEvent::DirCreated) => (r matches Ok(
                (InitPhase::CheckingSrc, InitStep::CheckDir(d)),
            ) && d@ == src_dir_of(name@)),
            (InitPhase::CheckingSrc, InitEvent::DirExists(true)) => (r matches Err(
                LionError::AlreadyExists(m),
            ) && m@ == "folder with name "@ + src_dir_of(name@) + " already exists"@),
            (InitPhase::CheckingSrc, InitEvent::DirExists(false)) => (r matches Ok(
                (InitPhase::CreatingSrc, InitStep::CreateDir(d)),
            ) && d@ == src_dir_of(name@)),
            (InitPhase::CreatingSrc, InitEvent::DirCreated) => (r matches Ok(
                (InitPhase::WritingMain, InitStep::WriteFile(p, c)),
            ) && p@ == main_path_of(name@) && c@ == starter_text()),
            (InitPhase::WritingMain, InitEvent::FileWritten) => (r matches Ok(
                (InitPhase::WritingConfig, InitStep::WriteFile(p, c)),
            ) && p@ == config_path_of(name@) && c@ == config_text(default_config_view(name@))),
            (InitPhase::WritingConfig, InitEvent::FileWritten) => (r matches Ok(
                (InitPhase::Finished, InitStep::Done),
            )),
            (_, InitEvent::IoFailed(m)) => (r matches Err(LionError::IoError(em)) && em@ == m@),
            _ => false,
        },
{
    match (phase, event) {
        (InitPhase::CheckingRoot, InitEvent::DirExists(true)) => {
            let mut m = "folder with name ".to_owned();
            m.append(name.as_str());
            m.append(" already exists");
            Err(LionError::AlreadyExists(m))
        },
        (InitPhase::CheckingRoot, InitEvent::DirExists(false)) => Ok(
            (InitPhase::CreatingRoot, InitStep::CreateDir(name.clone())),
        ),
        (InitPhase::CreatingRoot, InitEvent::DirCreated) => {
            let mut d = name.clone();
            d.append("/src");
            Ok((InitPhase::CheckingSrc, InitStep::CheckDir(d)))
        },
        (InitPhase::CheckingSrc, InitEvent::DirExists(true)) => {
            let mut m = "folder with name ".to_owned();
            m.append(name.as_str());
            m.append("/src");
            m.append(" already exists");
            proof {
                assert(m@ =~= "folder with name "@ + src_dir_of(name@) + " already exists"@);
            }
            Err(LionError::AlreadyExists(m))
        },
        (InitPhase::CheckingSrc, InitEvent::DirExists(false)) => {
            let mut d = name.clone();
            d.append("/src");
            Ok((InitPhase::CreatingSrc, InitStep::CreateDir(d)))
        },
        (InitPhase::CreatingSrc, InitEvent::DirCreated) => {
            let mut p = name.clone();
            p.append("/src/main.cpp");
            proof {
                assert(p@ =~= main_path_of(name@));
            }
            Ok((InitPhase::WritingMain, InitStep::WriteFile(p, starter_source())))
        },
        (InitPhase::WritingMain, InitEvent::FileWritten) => {
            let mut p = name.clone();
            p.append("/lion.toml");
            proof {
                assert(p@ =~= config_path_of(name@));
            }
            let contents = serialize_config(&default_config(name.clone()));
            Ok((InitPhase::WritingConfig, InitStep::WriteFile(p, contents)))
        },
        (InitPhase::WritingConfig, InitEvent::FileWritten) => Ok(
            (InitPhase::Finished, InitStep::Done),
        ),
        (_, InitEvent::IoFailed(m)) => Err(LionError::IoError(m)),
        _ => Err(LionError::IoError(String::new())),
    }
}

} // verus!
