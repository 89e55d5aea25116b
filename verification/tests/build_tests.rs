use lion::config::{Bin, Config, Pkg};
use lion::errors::LionError;
use lion::init::{default_config, project_start, project_step, starter_source, InitEvent, InitPhase, InitStep};
use lion::lion::{BuildEvent, BuildPhase, BuildStep, Lion};
use lion::format::serialize_config;
use lion::parse::parse_config_str;

fn bare_config() -> Config {
    Config {
        pkg: Pkg { name: "m".to_string(), description: None, long_description: None },
        bin: Bin { files: vec!["src/main.c".to_string()], out_dir: None, out_file: None },
    }
}

#[test]
fn test_compiler_args_with_defaults() {
    let lion = Lion::new(bare_config());
    assert_eq!(lion.resolved_out_dir(), "dist");
    assert_eq!(lion.resolved_out_path(), "dist/out.exe");
    assert_eq!(
        lion.compiler_args(),
        vec!["src/main.c".to_string(), "-o".to_string(), "dist/out.exe".to_string()]
    );
    assert_eq!(Lion::compiler_program(), "clang++");
}

#[test]
fn test_compiler_args_with_explicit_output() {
    let mut c = bare_config();
    c.bin.files.push("src/util.c".to_string());
    c.bin.out_dir = Some("build".to_string());
    c.bin.out_file = Some("app".to_string());
    let lion = Lion::new(c);
    assert_eq!(
        lion.compiler_args(),
        vec![
            "src/main.c".to_string(),
            "src/util.c".to_string(),
            "-o".to_string(),
            "build/app".to_string()
        ]
    );
}

#[test]
fn test_build_creates_missing_out_dir_before_invoking() {
    let lion = Lion::new(bare_config());
    let (phase, step) = lion.compile_start();
    assert_eq!(phase, BuildPhase::CheckingDir);
    assert_eq!(step, BuildStep::CheckOutDir("dist".to_string()));
    // the directory is missing: it is created before anything runs
    let (phase, step) = lion.compile_step(phase, BuildEvent::DirExists(false)).unwrap();
    assert_eq!(phase, BuildPhase::CreatingDir);
    assert_eq!(step, BuildStep::CreateOutDir("dist".to_string()));
    let (phase, step) = lion.compile_step(phase, BuildEvent::DirCreated).unwrap();
    assert_eq!(phase, BuildPhase::Invoking);
    assert!(matches!(step, BuildStep::RunCompiler(_)));
    // a silent compiler finishes the build
    let (phase, step) = lion
        .compile_step(phase, BuildEvent::CompilerFinished(String::new()))
        .unwrap();
    assert_eq!(phase, BuildPhase::Finished);
    assert_eq!(step, BuildStep::Done);
}

#[test]
fn test_build_accepts_existing_out_dir() {
    let lion = Lion::new(bare_config());
    let (phase, _) = lion.compile_start();
    // the directory already exists: no creation, no failure
    let (phase, step) = lion.compile_step(phase, BuildEvent::DirExists(true)).unwrap();
    assert_eq!(phase, BuildPhase::Invoking);
    assert_eq!(
        step,
        BuildStep::RunCompiler(vec![
            "src/main.c".to_string(),
            "-o".to_string(),
            "dist/out.exe".to_string()
        ])
    );
}

#[test]
fn test_compiler_diagnostics_fail_the_build() {
    let lion = Lion::new(bare_config());
    let diag = "src/main.c: file not found".to_string();
    let r = lion.compile_step(BuildPhase::Invoking, BuildEvent::CompilerFinished(diag));
    match r {
        Err(LionError::CompileError(m)) => {
            assert_eq!(m, "clang compilation error: src/main.c: file not found");
        },
        _ => panic!("a non-empty diagnostic stream must fail the build"),
    }
}

#[test]
fn test_classify_compiler_output() {
    assert!(Lion::classify_compiler_output(&String::new()).is_ok());
    assert!(matches!(
        Lion::classify_compiler_output(&"warning: unused".to_string()),
        Err(LionError::CompileError(_))
    ));
}

#[test]
fn test_launch_failure_is_reported() {
    let lion = Lion::new(bare_config());
    let r = lion.compile_step(
        BuildPhase::Invoking,
        BuildEvent::LaunchFailed("no such program".to_string()),
    );
    assert!(matches!(r, Err(LionError::ProcessLaunchError(_))));
}

#[test]
fn test_run_starts_a_build() {
    let lion = Lion::new(bare_config());
    assert_eq!(lion.run(), lion.compile_start());
}

#[test]
fn test_new_project_walkthrough() {
    let name = "demo".to_string();
    let (phase, step) = project_start(&name);
    assert_eq!(phase, InitPhase::CheckingRoot);
    assert_eq!(step, InitStep::CheckDir("demo".to_string()));
    let (phase, step) = project_step(&name, phase, InitEvent::DirExists(false)).unwrap();
    assert_eq!(phase, InitPhase::CreatingRoot);
    assert_eq!(step, InitStep::CreateDir("demo".to_string()));
    let (phase, step) = project_step(&name, phase, InitEvent::DirCreated).unwrap();
    assert_eq!(phase, InitPhase::CheckingSrc);
    assert_eq!(step, InitStep::CheckDir("demo/src".to_string()));
    let (phase, step) = project_step(&name, phase, InitEvent::DirExists(false)).unwrap();
    assert_eq!(phase, InitPhase::CreatingSrc);
    assert_eq!(step, InitStep::CreateDir("demo/src".to_string()));
    let (phase, step) = project_step(&name, phase, InitEvent::DirCreated).unwrap();
    assert_eq!(phase, InitPhase::WritingMain);
    assert_eq!(
        step,
        InitStep::WriteFile("demo/src/main.cpp".to_string(), starter_source())
    );
    let (phase, step) = project_step(&name, phase, InitEvent::FileWritten).unwrap();
    assert_eq!(phase, InitPhase::WritingConfig);
    match step {
        InitStep::WriteFile(path, contents) => {
            assert_eq!(path, "demo/lion.toml");
            assert_eq!(
                contents,
                "[pkg]\nname = \"demo\"\ndescription = \"\"\n\n[bin]\nfiles = [\"src/main.cpp\"]\nout_dir = \"dist\"\nout_file = \"out.exe\"\n"
            );
        },
        _ => panic!("the configuration file must be written last"),
    }
    let (phase, step) = project_step(&name, phase, InitEvent::FileWritten).unwrap();
    assert_eq!(phase, InitPhase::Finished);
    assert_eq!(step, InitStep::Done);
}

#[test]
fn test_existing_project_dir_already_exists() {
    let name = "test".to_string();
    let (phase, _) = project_start(&name);
    // the directory is already there: the command fails and creates nothing
    let r = project_step(&name, phase, InitEvent::DirExists(true));
    match r {
        Err(LionError::AlreadyExists(m)) => {
            assert_eq!(m, "folder with name test already exists");
        },
        _ => panic!("an existing project directory must fail the command"),
    }
}

#[test]
fn test_generated_config_loads_back() {
    // the scaffolded lion.toml loads into exactly the scaffolded config
    let c = default_config("demo".to_string());
    assert_eq!(c.pkg.name, "demo");
    assert_eq!(c.bin.files, vec!["src/main.cpp".to_string()]);
    assert_eq!(c.bin.out_dir, Some("dist".to_string()));
    assert_eq!(c.bin.out_file, Some("out.exe".to_string()));
    let text = serialize_config(&c);
    let back = parse_config_str(&text).unwrap();
    assert_eq!(back, c);
    // and it drives the expected compiler invocation
    let lion = Lion::new(back);
    assert_eq!(
        lion.compiler_args(),
        vec!["src/main.cpp".to_string(), "-o".to_string(), "dist/out.exe".to_string()]
    );
}

#[test]
fn test_io_failure_is_reported() {
    let name = "demo".to_string();
    let r = project_step(
        &name,
        InitPhase::CreatingRoot,
        InitEvent::IoFailed("disk full".to_string()),
    );
    match r {
        Err(LionError::IoError(m)) => assert_eq!(m, "disk full"),
        _ => panic!("a filesystem failure must be propagated"),
    }
}
