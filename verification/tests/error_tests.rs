use cargo_with::Error;

#[test]
fn error_messages() {
    assert_eq!(
        Error::CargoSpawnFailed("build --message-format=json --quiet".to_string()).message(),
        "Unable to run cargo command: `cargo build --message-format=json --quiet`"
    );
    assert_eq!(
        Error::ArtifactPathNotUtf8.message(),
        "Filename of artifact contains non-valid UTF-8 characters"
    );
    assert_eq!(Error::EmptyWithCommand.message(), "Empty with command");
    assert_eq!(Error::BinaryPathNotUtf8.message(), "Binary path is not valid utf-8");
    assert_eq!(
        Error::MultipleCandidates { candidates: vec![], test: false, terminated: true }.message(),
        "Found more than one possible candidate:\n\n\n\nPlease use `--example` or `--bin` to specify exactly what binary you want to examine"
    );
}
