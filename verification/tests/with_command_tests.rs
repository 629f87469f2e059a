use cargo_with::{ChildCommand, Error, WithCmd};

fn run_with(raw: &str, trailing: &[&str], bin: &str) -> ChildCommand {
    WithCmd::new(raw, trailing).child_command(bin).unwrap()
}

#[test]
fn default_placement_appends_bin_and_args() {
    let c = run_with("gdb", &["--flag", "x"], "/t/app");
    assert_eq!(c.program, "gdb");
    assert_eq!(c.args, vec!["/t/app", "--flag", "x"]);
}

#[test]
fn default_placement_keeps_words() {
    let c = run_with("  gdb   --args  ", &[], "/t/app");
    assert_eq!(c.program, "gdb");
    assert_eq!(c.args, vec!["--args", "/t/app"]);
}

#[test]
fn placeholders_moved_around() {
    let c = run_with(
        "echo {args} {bin}",
        &["--argument1", "--argument2"],
        "/t/app",
    );
    assert_eq!(c.program, "echo");
    assert_eq!(c.args, vec!["--argument1", "--argument2", "/t/app"]);
}

#[test]
fn bin_placeholder_inside_word() {
    let c = run_with("valgrind --log={bin}.log", &["a"], "/t/app");
    assert_eq!(c.program, "valgrind");
    assert_eq!(c.args, vec!["--log=/t/app.log", "a"]);
}

#[test]
fn bin_placeholder_as_program() {
    let c = run_with("{bin} --help", &[], "/t/app");
    assert_eq!(c.program, "/t/app");
    assert_eq!(c.args, vec!["--help"]);
}

#[test]
fn gdb_args_with_placeholders() {
    let c = run_with("gdb --args {bin} {args}", &["test2"], "/t/app");
    assert_eq!(c.program, "gdb");
    assert_eq!(c.args, vec!["--args", "/t/app", "test2"]);
}

#[test]
fn trailing_args_replaced_too() {
    let c = run_with("echo", &["{bin}"], "/t/app");
    assert_eq!(c.args, vec!["/t/app", "/t/app"]);
}

#[test]
fn empty_raw_runs_the_artifact() {
    let c = run_with("   ", &["x"], "/t/app");
    assert_eq!(c.program, "/t/app");
    assert_eq!(c.args, vec!["x"]);
}

#[test]
fn no_child_command_message() {
    assert_eq!(Error::NoChildCommand.message(), "No child command given.");
}

#[test]
fn args_placeholder_inside_word() {
    let c = run_with("echo --x={args}", &["a"], "/p");
    assert_eq!(c.program, "echo");
    assert_eq!(c.args, vec!["--x=a", "/p"]);
    let c = run_with("sh -c {bin}_{args}", &["a", "b"], "/p");
    assert_eq!(c.args, vec!["-c", "/p_a b"]);
    let c = run_with("echo [{args}]", &[], "/p");
    assert_eq!(c.args, vec!["[]", "/p"]);
}

#[test]
fn every_command_runs_the_artifact() {
    for raw in ["", "   ", "{args}", "{args} {args}", "x{bin}y", "a  b"] {
        for trailing in [&[][..], &["t"][..]] {
            let c = WithCmd::new(raw, trailing).child_command("/p").unwrap();
            assert!(
                c.program.contains("/p") || c.args.iter().any(|a| a.contains("/p")),
                "{:?} {:?}",
                raw,
                trailing
            );
        }
    }
}
