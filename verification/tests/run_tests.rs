use cargo_with::run::{expand_exact, expand_placeholders, split_at_separator};
use cargo_with::{
    cargo_command, child_for_run, child_for_runner, child_for_with, process_matches, BuildOpt,
    CmdKind, Error, Profile, Target, TargetKind,
};

fn opt(name: &str, kind: TargetKind, test: bool, file: &[u8]) -> BuildOpt {
    BuildOpt {
        features: vec![],
        filenames: vec![file.to_vec()],
        fresh: false,
        package_id: name.to_string(),
        profile: Profile {
            debug_assertions: true,
            debuginfo: None,
            opt_level: "0".to_string(),
            overflow_checks: true,
            test,
        },
        reason: "compiler-artifact".to_string(),
        target: Target {
            crate_types: vec![],
            edition: "2018".to_string(),
            kind: vec![kind],
            name: name.to_string(),
            src_path: vec![],
        },
    }
}

#[test]
fn parse_args() {
    let (with_cmd, cargo_cmd) = process_matches(
        true,
        Some("gdb --args {bin}"),
        Some(vec!["test", "--release", "--", "test2"]),
    )
    .unwrap();
    assert_eq!(cargo_cmd.kind(), CmdKind::Test);
    assert_eq!(
        cargo_cmd.args(),
        vec!["test", "--message-format=json", "--quiet", "--release"]
    );
    let c = with_cmd.child_command("/t/it-1").unwrap();
    assert_eq!(c.program, "gdb");
    assert_eq!(c.args, vec!["--args", "/t/it-1", "test2"]);
}

#[test]
fn process_matches_trims_with_command() {
    let (with_cmd, _) = process_matches(true, Some("  echo  "), Some(vec!["run"])).unwrap();
    let c = with_cmd.child_command("/t/app").unwrap();
    assert_eq!(c.program, "echo");
    assert_eq!(c.args, vec!["/t/app"]);
}

#[test]
fn process_matches_errors() {
    let e = process_matches(false, Some("echo"), Some(vec!["run"])).err().unwrap();
    assert_eq!(e.message(), "Failed to parse the correct subcommand");
    let e = process_matches(true, None, Some(vec!["run"])).err().unwrap();
    assert_eq!(e.message(), "Failed to parse the command to run with the artifact");
    let e = process_matches(true, Some("echo"), None).err().unwrap();
    assert_eq!(e.message(), "Failed to parse the cargo command producing the artifact");
    let e = process_matches(true, Some("echo"), Some(vec!["--", "run"])).err().unwrap();
    assert!(matches!(e, Error::EmptyCargoCommand));
    let e = process_matches(true, Some("echo"), Some(vec!["not-a-cargo-command"])).err().unwrap();
    assert!(matches!(e, Error::UnknownSubcommand(_)));
}

#[test]
fn process_matches_test_projects() {
    for w in ["echo", "echo {bin}", "echo {bin} {args}"] {
        for s in ["run", "test", "bench", "build"] {
            let (with_cmd, cargo_cmd) = process_matches(true, Some(w), Some(vec![s])).unwrap();
            assert_eq!(cargo_cmd.args()[1..], ["--message-format=json", "--quiet"]);
            let c = with_cmd.child_command("/t/app").unwrap();
            assert_eq!(c.program, "echo");
            assert_eq!(c.args, vec!["/t/app"]);
        }
    }
    let (_, cargo_cmd) = process_matches(true, Some("echo"), Some(vec!["bench"])).unwrap();
    assert_eq!(cargo_cmd.kind(), CmdKind::Bench);
    assert_eq!(cargo_cmd.args_str(), "bench --message-format=json --quiet");
}

#[test]
fn child_for_run_lists_candidates() {
    let opts = vec![
        opt("first", TargetKind::Bin, false, b"/t/first"),
        opt("demo", TargetKind::Example, false, b"/t/demo"),
    ];
    let e = child_for_run(&opts, CmdKind::Run, &vec!["gdb"], &vec![]).err().unwrap();
    assert_eq!(
        e.message(),
        "Found more than one possible candidate:\n\n\t- first (bin)\n\t- demo (example)\n\nPlease use `--example` or `--bin` to specify exactly what binary you want to examine"
    );
    let e = child_for_runner(&opts, CmdKind::Run, &vec!["gdb"], &vec![]).err().unwrap();
    assert_eq!(
        e.message(),
        "Found more than one possible candidate:\n\n\t- first (bin)\n\t- demo (example)\n\n\nPlease use `--example` or `--bin` to specify exactly what binary you want to examine"
    );
}

#[test]
fn bench_selects_by_test_profile() {
    let opts = vec![
        opt("app", TargetKind::Bin, false, b"/t/app"),
        opt("speed", TargetKind::Bench, true, b"/t/speed-1"),
    ];
    let c = child_for_runner(&opts, CmdKind::Bench, &vec!["perf", "record"], &vec![]).unwrap();
    assert_eq!(c.args, vec!["record", "/t/speed-1"]);
}

#[test]
fn separator_split() {
    let words = vec!["run", "--bin", "x", "--", "a", "--", "b"];
    let (before, after) = split_at_separator(&words);
    assert_eq!(before, vec!["run", "--bin", "x"]);
    assert_eq!(after, vec!["a", "--", "b"]);
    let (before, after) = split_at_separator(&vec!["test"]);
    assert_eq!(before, vec!["test"]);
    assert!(after.is_empty());
}

#[test]
fn cargo_command_and_trailing() {
    let (cmd, trailing) = cargo_command(&vec!["run", "--release", "--", "x", "y"]).unwrap();
    assert_eq!(cmd.args_str(), "build --message-format=json --quiet --release");
    assert_eq!(trailing, vec!["x", "y"]);
    let e = cargo_command(&vec![]).err().unwrap();
    assert!(matches!(e, Error::EmptyCargoCommand));
}

#[test]
fn exact_expansion() {
    let res = expand_exact(&vec!["{bin}", "-x", "{args}"], "/t/app", &vec!["a", "b"]);
    assert_eq!(res, vec!["/t/app", "-x", "a", "b"]);
    let res = expand_exact(&vec!["--log={bin}"], "/t/app", &vec!["a"]);
    assert_eq!(res, vec!["--log={bin}", "/t/app", "a"]);
    let res = expand_exact(&vec![], "/t/app", &vec!["a"]);
    assert_eq!(res, vec!["/t/app", "a"]);
}

#[test]
fn placeholder_expansion() {
    let res = expand_placeholders(&vec!["--log={bin}.log", "{args}"], "/t/app", &vec!["a"]);
    assert_eq!(res, vec!["--log=/t/app.log", "a"]);
    let res = expand_placeholders(&vec!["-q"], "/t/app", &vec!["a", "b"]);
    assert_eq!(res, vec!["-q", "/t/app", "a", "b"]);
}

#[test]
fn child_for_run_default() {
    let opts = vec![opt("app", TargetKind::Bin, false, b"/t/app")];
    let c = child_for_run(&opts, CmdKind::Run, &vec!["gdb", "--args"], &vec!["x"]).unwrap();
    assert_eq!(c.program, "gdb");
    assert_eq!(c.args, vec!["--args", "/t/app", "x"]);
}

#[test]
fn child_for_run_errors() {
    let opts = vec![opt("app", TargetKind::Bin, false, b"/t/app")];
    let e = child_for_run(&opts, CmdKind::Run, &vec![], &vec![]).err().unwrap();
    assert_eq!(e.message(), "Empty with command");
    let bad = vec![opt("app", TargetKind::Bin, false, &[0x2f, 0xc3, 0x28])];
    let e = child_for_run(&bad, CmdKind::Run, &vec!["gdb"], &vec![]).err().unwrap();
    assert_eq!(
        e.message(),
        "Filename of artifact contains non-valid UTF-8 characters"
    );
    let e = child_for_run(&opts, CmdKind::Test, &vec!["gdb"], &vec![]).err().unwrap();
    assert!(matches!(e, Error::NoCandidates));
}

#[test]
fn child_for_runner_replaces_inside() {
    let opts = vec![opt("it", TargetKind::Test, true, b"/t/it-9")];
    let c = child_for_runner(&opts, CmdKind::Test, &vec!["strace", "-o", "{bin}.trace"], &vec![])
        .unwrap();
    assert_eq!(c.program, "strace");
    assert_eq!(c.args, vec!["-o", "/t/it-9.trace"]);
}

#[test]
fn child_for_with_binary_path() {
    let (with_cmd, cmd) = process_matches(true, Some("echo {bin}"), Some(vec!["run"])).unwrap();
    let opts = vec![opt("app", TargetKind::Example, false, b"/t/examples/app")];
    let c = child_for_with(&opts, cmd.kind(), &with_cmd).unwrap();
    assert_eq!(c.program, "echo");
    assert_eq!(c.args, vec!["/t/examples/app"]);
    let bad = vec![opt("app", TargetKind::Bin, false, &[0xff])];
    let e = child_for_with(&bad, cmd.kind(), &with_cmd).err().unwrap();
    assert_eq!(e.message(), "Binary path is not valid utf-8");
}
