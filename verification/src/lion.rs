//! The build orchestrator: derives a compiler invocation from a loaded
//! configuration and classifies the outcome of running it.
//!
//! The orchestrator itself never touches the filesystem or spawns a
//! process. It is a state machine: each step hands the host an action to
//! perform ([`BuildStep`]) and consumes the outcome ([`BuildEvent`]).

use vstd::prelude::*;
use vstd::string::StringExecFns;

use crate::config::{Config, ConfigView};
use crate::errors::LionError;

verus! {

/// Project manager built around one loaded configuration.
#[derive(Clone, Debug, PartialEq)]
pub struct Lion {
    config: Config,
}

/// Where one build currently stands.
#[derive(Clone, Copy, Debug, PartialEq, Eq)]
pub enum BuildPhase {
    /// Asking the host whether the output directory exists.
    CheckingDir,
    /// Asking the host to create the missing output directory.
    CreatingDir,
    /// Asking the host to run the compiler.
    Invoking,
    /// The build is over; no further step is taken.
    Finished,
}

/// An action the orchestrator asks the host to perform.
#[derive(Clone, Debug, PartialEq)]
pub enum BuildStep {
    /// Report whether this directory exists.
    CheckOutDir(String),
    /// Create this directory.
    CreateOutDir(String),
    /// Run the compiler executable with these arguments and capture its
    /// diagnostic stream.
    RunCompiler(Vec<String>),
    /// Nothing is left to do.
    Done,
}

/// What the host reports back after performing a [`BuildStep`].
#[derive(Clone, Debug, PartialEq)]
pub enum BuildEvent {
    /// Whether the checked directory exists.
    DirExists(bool),
    /// The requested directory was created.
    DirCreated,
    /// A filesystem operation failed, with its message.
    IoFailed(String),
    /// The compiler ran to completion; the captured diagnostic stream,
    /// decoded to text, is attached (empty when the compiler was silent).
    CompilerFinished(String),
    /// The compiler executable could not be spawned.
    LaunchFailed(String),
}

/// The resolved output directory: the configured one, or `dist` when the
/// configuration leaves it out.
pub open spec fn out_dir_of(c: ConfigView) -> Seq<char> {
    match c.bin.out_dir {
        Some(d) => d,
        None => "dist"@,
    }
}

/// The resolved output file name: the configured one, or `out.exe` when
/// the configuration leaves it out.
pub open spec fn out_file_of(c: ConfigView) -> Seq<char> {
    match c.bin.out_file {
        Some(f) => f,
        None => "out.exe"@,
    }
}

/// The resolved output path: directory joined with file name.
pub open spec fn out_path_of(c: ConfigView) -> Seq<char> {
    out_dir_of(c) + "/"@ + out_file_of(c)
}

/// The compiler argument list derived from a configuration: the source
/// files in order, then the output flag and the resolved output path.
pub open spec fn arg_list_of(c: ConfigView) -> Seq<Seq<char>> {
    c.bin.files + seq!["-o"@, out_path_of(c)]
}

/// Which events may answer which phase.
pub open spec fn phase_accepts(phase: BuildPhase, event: BuildEvent) -> bool {
    match phase {
        BuildPhase::CheckingDir => event matches BuildEvent::DirExists(_) || event matches BuildEvent::IoFailed(_),
        BuildPhase::CreatingDir => event matches BuildEvent::DirCreated || event matches BuildEvent::IoFailed(_),
        BuildPhase::Invoking => event matches BuildEvent::CompilerFinished(_) || event matches BuildEvent::LaunchFailed(_),
        BuildPhase::Finished => false,
    }
}

impl Lion {
    /// Constructs a new Lion instance around a loaded configuration.
    pub fn new(config: Config) -> (r: Self)
        ensures
            r@ == config@,
    {
        Self { config }
    }

    /// The configuration this instance was built around.
    pub closed spec fn view(&self) -> ConfigView {
        self.config@
    }

    /// The name of the compiler executable the orchestrator invokes.
    pub fn compiler_program() -> (r: String)
        ensures
            r@ == "clang++"@,
    {
        "clang++".to_owned()
    }

    /// Resolves the output directory, applying the `dist` default.
    pub fn resolved_out_dir(&self) -> (r: String)
        ensures
            r@ == out_dir_of(self@),
    {
        match &self.config.bin.out_dir {
            Some(d) => d.clone(),
            None => "dist".to_owned(),
        }
    }

    /// Resolves the full output path, applying the `dist` and `out.exe`
    /// defaults for the absent pieces.
    pub fn resolved_out_path(&self) -> (r: String)
        ensures
            r@ == out_path_of(self@),
    {
        let mut p = self.resolved_out_dir();
        p.append("/");
        match &self.config.bin.out_file {
            Some(f) => p.append(f.as_str()),
            None => p.append("out.exe"),
        }
        p
    }

    /// Derives the compiler argument list: every configured source file, in
    /// order, followed by `-o` and the resolved output path.
    pub fn compiler_args(&self) -> (r: Vec<String>)
        ensures
            r.deep_view() == arg_list_of(self@),
    {
        let mut args: Vec<String> = Vec::new();
        let n = self.config.bin.files.len();
        for i in 0..n
            invariant
                n == self.config.bin.files.len(),
                args@.len() == i,
                args.deep_view() =~= self.config.bin.files.deep_view().take(i as int),
        {
            let s = self.config.bin.files[i].clone();
            args.push(s);
            proof {
                assert(args.deep_view() =~= self.config.bin.files.deep_view().take(
                    i as int + 1,
                ));
            }
        }
        proof {
            assert(args.deep_view() =~= self.config.bin.files.deep_view());
        }
        let ghost dv0 = args.deep_view();
        let ghost v0 = args@;
        let flag = "-o".to_owned();
        args.push(flag);
        proof {
            assert(args@ == v0.push(args@[v0.len() as int]));
            assert(args.deep_view() =~= dv0.push("-o"@));
        }
        let ghost dv1 = args.deep_view();
        let ghost v1 = args@;
        let path = self.resolved_out_path();
        args.push(path);
        proof {
            assert(args@ == v1.push(args@[v1.len() as int]));
            assert(args.deep_view() =~= dv1.push(out_path_of(self@)));
            assert(args.deep_view() =~= arg_list_of(self@));
        }
        args
    }

    /// Classifies a finished compiler run. The invocation counts as failed
    /// exactly when the captured diagnostic stream is non-empty, whatever
    /// the exit status was; the diagnostic text is attached verbatim.
    pub fn classify_compiler_output(stderr: &String) -> (r: Result<(), LionError>)
        ensures
            stderr@.len() == 0 <==> r is Ok,
            r matches Err(e) ==> e matches LionError::CompileError(m) && m@ == "clang compilation error: "@
                + stderr@,
    {
        if stderr.as_str().is_empty() {
            Ok(())
        } else {
            let mut m = "clang compilation error: ".to_owned();
            m.append(stderr.as_str());
            Err(LionError::CompileError(m))
        }
    }

    /// Begins a build: the first thing the orchestrator needs is whether
    /// the resolved output directory exists.
    pub fn compile_start(&self) -> (r: (BuildPhase, BuildStep))
        ensures
            r.0 is CheckingDir,
            r.1 matches BuildStep::CheckOutDir(d) && d@ == out_dir_of(self@),
    {
        (BuildPhase::CheckingDir, BuildStep::CheckOutDir(self.resolved_out_dir()))
    }

    /// Advances a build by one step, consuming what the host reported.
    ///
    /// The output directory is created only when it was found missing, and
    /// the compiler is invoked only once the directory is known to exist;
    /// a pre-existing directory is never an error. A run whose diagnostic
    /// stream is empty finishes the build; a non-empty stream fails it.
    pub fn compile_step(&self, phase: BuildPhase, event: BuildEvent) -> (r: Result<
        (BuildPhase, BuildStep),
        LionError,
    >)
        requires
            phase_accepts(phase, event),
        ensures
            match (phase, event) {
                (BuildPhase::CheckingDir, BuildEvent::DirExists(false)) => (r matches Ok(
                    (BuildPhase::CreatingDir, BuildStep::CreateOutDir(d)),
                ) && d@ == out_dir_of(self@)),
                (BuildPhase::CheckingDir, BuildEvent::DirExists(true)) => (r matches Ok(
                    (BuildPhase::Invoking, BuildStep::RunCompiler(a)),
                ) && a.deep_view() == arg_list_of(self@)),
                (BuildPhase::CreatingDir, BuildEvent::DirCreated) => (r matches Ok(
                    (BuildPhase::Invoking, BuildStep::RunCompiler(a)),
                ) && a.deep_view() == arg_list_of(self@)),
                (BuildPhase::Invoking, BuildEvent::CompilerFinished(s)) => if s@.len() == 0 {
                    r matches Ok((BuildPhase::Finished, BuildStep::Done))
                } else {
                    r matches Err(LionError::CompileError(m)) && m@
                        == "clang compilation error: "@ + s@
                },
                (BuildPhase::Invoking, BuildEvent::LaunchFailed(m)) => (r matches Err(
                    LionError::ProcessLaunchError(em),
                ) && em@ == m@),
                (_, BuildEvent::IoFailed(m)) => (r matches Err(LionError::IoError(em)) && em@
                    == m@),
                _ => false,
            },
    {
        match (phase, event) {
            (BuildPhase::CheckingDir, BuildEvent::DirExists(false)) => Ok(
                (BuildPhase::CreatingDir, BuildStep::CreateOutDir(self.resolved_out_dir())),
            ),
            (BuildPhase::CheckingDir, BuildEvent::DirExists(true)) => Ok(
                (BuildPhase::Invoking, BuildStep::RunCompiler(self.compiler_args())),
            ),
            (BuildPhase::CreatingDir, BuildEvent::DirCreated) => Ok(
                (BuildPhase::Invoking, BuildStep::RunCompiler(self.compiler_args())),
            ),
            (BuildPhase::Invoking, BuildEvent::CompilerFinished(s)) => {
                match Self::classify_compiler_output(&s) {
                    Ok(()) => Ok((BuildPhase::Finished, BuildStep::Done)),
                    Err(e) => Err(e),
                }
            },
            (BuildPhase::Invoking, BuildEvent::LaunchFailed(m)) => Err(
                LionError::ProcessLaunchError(m),
            ),
            (_, BuildEvent::IoFailed(m)) => Err(LionError::IoError(m)),
            _ => Err(LionError::IoError(String::new())),
        }
    }

    /// Runs the current project. Running currently just compiles, so this
    /// begins the same build the host would drive through
    /// [`Lion::compile_step`].
    pub fn run(&self) -> (r: (BuildPhase, BuildStep))
        ensures
            r.0 is CheckingDir,
            r.1 matches BuildStep::CheckOutDir(d) && d@ == out_dir_of(self@),
    {
        self.compile_start()
    }
}

} // verus!
