use cargo_with::{can_select, select_buildopt, BuildOpt, Cmd, CmdKind, Error, Profile, Target, TargetKind};

fn opt(name: &str, kinds: Vec<TargetKind>, test: bool, file: &str) -> BuildOpt {
    BuildOpt {
        features: vec![],
        filenames: vec![file.as_bytes().to_vec()],
        fresh: true,
        package_id: format!("{} 0.1.0 (path+file:///tmp/{})", name, name),
        profile: Profile {
            debug_assertions: true,
            debuginfo: Some(2),
            opt_level: "0".to_string(),
            overflow_checks: true,
            test,
        },
        reason: "compiler-artifact".to_string(),
        target: Target {
            crate_types: vec!["bin".to_string()],
            edition: "2015".to_string(),
            kind: kinds,
            name: name.to_string(),
            src_path: b"/tmp/src/main.rs".to_vec(),
        },
    }
}

#[test]
fn cmd_kind_from_str() {
    assert_eq!(CmdKind::from_str("run"), Some(CmdKind::Run));
    assert_eq!(CmdKind::from_str("test"), Some(CmdKind::Test));
    assert_eq!(CmdKind::from_str("bench"), Some(CmdKind::Bench));
    assert_eq!(CmdKind::from_str("build"), Some(CmdKind::Build));
    assert_eq!(CmdKind::from_str("check"), None);
    assert_eq!(CmdKind::from_str(""), None);
    assert_eq!(CmdKind::from_str("Run"), None);
}

#[test]
fn run_is_built_not_run() {
    assert_eq!(CmdKind::Run.as_artifact_cmd(), "build");
    assert_eq!(CmdKind::Test.as_artifact_cmd(), "test");
    assert_eq!(CmdKind::Bench.as_artifact_cmd(), "bench");
    assert_eq!(CmdKind::Build.as_artifact_cmd(), "build");
}

#[test]
fn target_kind_names() {
    assert_eq!(TargetKind::ProcMacro.name(), "proc-macro");
    assert_eq!(TargetKind::CustomBuild.name(), "custom-build");
    assert_eq!(TargetKind::Bin.name(), "bin");
    assert_eq!(TargetKind::Example.name(), "example");
}

#[test]
fn cmd_from_empty_strs() {
    let res = Cmd::from_strs(vec![]);
    assert!(matches!(res, Err(Error::EmptyCargoCommand)));
    assert_eq!(res.unwrap_err().message(), "Empty cargo command");
}

#[test]
fn cmd_from_unknown_subcommand() {
    let err = Cmd::from_strs(vec!["not-a-cargo-command", "--release"]).unwrap_err();
    assert_eq!(
        err.message(),
        "Unable to convert 'not-a-cargo-command' into a cargo subcommand"
    );
}

#[test]
fn cmd_args_for_test() {
    let cmd = Cmd::from_strs(vec!["test", "--release", "--lib"]).unwrap();
    assert_eq!(cmd.kind(), CmdKind::Test);
    assert_eq!(
        cmd.args(),
        vec!["test", "--message-format=json", "--quiet", "--release", "--lib"]
    );
    assert_eq!(
        cmd.args_str(),
        "test --message-format=json --quiet --release --lib"
    );
}

#[test]
fn cmd_args_for_run() {
    let cmd = Cmd::from_strs(vec!["run"]).unwrap();
    assert_eq!(cmd.kind(), CmdKind::Run);
    assert_eq!(cmd.args(), vec!["build", "--message-format=json", "--quiet"]);
    assert_eq!(cmd.args_str(), "build --message-format=json --quiet");
}

#[test]
fn read_output_lines() {
    let cmd = Cmd::from_strs(vec!["run"]).unwrap();
    let out = b"{\"a\":1}\r\n{\"b\":2}\n\nlast";
    let lines = cmd.read_output(true, out, b"").unwrap();
    assert_eq!(lines, vec!["{\"a\":1}", "{\"b\":2}", "", "last"]);
    let none = cmd.read_output(true, b"", b"").unwrap();
    assert!(none.is_empty());
}

#[test]
fn read_output_invalid_utf8() {
    let cmd = Cmd::from_strs(vec!["test", "--release"]).unwrap();
    let err = cmd.read_output(true, &[0x66, 0xff, 0x0a], b"").unwrap_err();
    assert_eq!(
        err.message(),
        "Output of `cargo test --message-format=json --quiet --release` contained invalid UTF-8 characters"
    );
}

#[test]
fn read_output_failure() {
    let cmd = Cmd::from_strs(vec!["run"]).unwrap();
    let err = cmd.read_output(false, b"out", b"error: no bin").unwrap_err();
    assert_eq!(
        err.message(),
        "error: no bin\nout\nCargo subcommand failed. Try running the original cargo command (without cargo-with)"
    );
}

#[test]
fn select_no_candidates() {
    let opts = vec![opt("mylib", vec![TargetKind::Lib], false, "/t/libmylib.rlib")];
    let err = select_buildopt(&opts, CmdKind::Run).unwrap_err();
    assert!(matches!(err, Error::NoCandidates));
    assert_eq!(err.message(), "Found no possible candidates");
    let none: Vec<BuildOpt> = vec![];
    assert!(matches!(select_buildopt(&none, CmdKind::Test), Err(Error::NoCandidates)));
}

#[test]
fn select_single_binary() {
    let opts = vec![
        opt("dep", vec![TargetKind::Lib], false, "/t/libdep.rlib"),
        opt("app", vec![TargetKind::Bin], false, "/t/app"),
        opt("build-script", vec![TargetKind::CustomBuild], false, "/t/build"),
    ];
    let chosen = select_buildopt(&opts, CmdKind::Run).unwrap();
    assert_eq!(chosen.target.name, "app");
    assert_eq!(chosen.artifact().unwrap(), b"/t/app".to_vec());
}

#[test]
fn select_for_test_uses_test_profile() {
    let opts = vec![
        opt("app", vec![TargetKind::Bin], false, "/t/app"),
        opt("app", vec![TargetKind::Bin], true, "/t/app-1234"),
    ];
    let chosen = select_buildopt(&opts, CmdKind::Test).unwrap();
    assert_eq!(chosen.filenames[0], b"/t/app-1234".to_vec());
}

#[test]
fn select_multiple_candidates_run() {
    let opts = vec![
        opt("first", vec![TargetKind::Bin], false, "/t/first"),
        opt("demo", vec![TargetKind::Example], false, "/t/demo"),
    ];
    let err = select_buildopt(&opts, CmdKind::Run).unwrap_err();
    assert_eq!(
        err.message(),
        "Found more than one possible candidate:\n\n\t- first (bin)\n\t- demo (example)\n\n\nPlease use `--example` or `--bin` to specify exactly what binary you want to examine"
    );
}

#[test]
fn select_multiple_candidates_test() {
    let opts = vec![
        opt("lib", vec![TargetKind::Lib], true, "/t/lib-1"),
        opt("it", vec![TargetKind::Test], true, "/t/it-2"),
        opt("app", vec![TargetKind::Bin], false, "/t/app"),
    ];
    let err = select_buildopt(&opts, CmdKind::Test).unwrap_err();
    match &err {
        Error::MultipleCandidates { candidates, test, terminated } => {
            assert!(*terminated);
            assert!(*test);
            assert_eq!(candidates.len(), 2);
            assert_eq!(candidates[0].name, "lib");
            assert_eq!(candidates[1].kind, TargetKind::Test);
        }
        _ => panic!("expected several candidates"),
    }
    assert_eq!(
        err.message(),
        "Found more than one possible candidate:\n\n\t- lib (lib)\n\t- it (test)\n\n\nPlease use `--test`, `--example`, `--bin` or `--lib` to specify exactly what binary you want to examine"
    );
}

#[test]
fn artifact_is_first_file() {
    let mut o = opt("app", vec![TargetKind::Bin], false, "/t/app");
    o.filenames.push(b"/t/app.dSYM".to_vec());
    assert_eq!(o.artifact().unwrap(), b"/t/app".to_vec());
}

#[test]
fn can_select_checks_what_selection_needs() {
    let good = vec![opt("app", vec![TargetKind::Bin], false, "/t/app")];
    assert!(can_select(&good, CmdKind::Run));
    let mut fileless = opt("app", vec![TargetKind::Bin], false, "/t/app");
    fileless.filenames.clear();
    assert!(!can_select(&vec![fileless.clone()], CmdKind::Run));
    // Without a single candidate, the missing file does not matter.
    assert!(can_select(&vec![fileless.clone(), fileless], CmdKind::Run));
    let kindless = vec![
        opt("a", vec![], true, "/t/a"),
        opt("b", vec![TargetKind::Test], true, "/t/b"),
    ];
    assert!(!can_select(&kindless, CmdKind::Test));
    assert!(can_select(&kindless[..1].to_vec(), CmdKind::Test));
    assert!(can_select(&vec![], CmdKind::Test));
}

#[test]
fn selection_ignores_order() {
    let mut opts = vec![
        opt("dep", vec![TargetKind::Lib], false, "/t/libdep.rlib"),
        opt("app", vec![TargetKind::Bin], false, "/t/app"),
        opt("build-script", vec![TargetKind::CustomBuild], false, "/t/build"),
    ];
    let first = select_buildopt(&opts, CmdKind::Run).unwrap().target.name.clone();
    opts.reverse();
    let second = select_buildopt(&opts, CmdKind::Run).unwrap().target.name.clone();
    assert_eq!(first, second);
}
