use pie::commands::handle_args;
use pie::commands::Command;
use pie::errors::ParseError;
use pie::versions::RangeOp;

fn args(xs: &[&str]) -> Vec<String> {
    xs.iter().map(|x| x.to_string()).collect()
}

#[test]
fn no_command_word_is_nothing_to_do() {
    assert!(matches!(handle_args(&args(&[])), Ok(None)));
    assert!(matches!(handle_args(&args(&["pie"])), Ok(None)));
}

#[test]
fn install_with_a_range_is_read_whole() {
    let cmd = handle_args(&args(&["pie", "install", "foo@^1.2.3"])).unwrap().unwrap();
    let Command::Install { package_name, package_version } = cmd;
    assert_eq!(package_name.as_str(), "foo");
    let range = package_version.unwrap();
    assert_eq!(range.op, RangeOp::Caret);
    assert_eq!((range.major, range.minor, range.patch), (1, Some(2), Some(3)));
}

#[test]
fn install_without_a_version_wants_the_newest() {
    let cmd = handle_args(&args(&["pie", "install", "foo"])).unwrap().unwrap();
    let Command::Install { package_name, package_version } = cmd;
    assert_eq!(package_name.as_str(), "foo");
    assert!(package_version.is_none());
}

#[test]
fn the_command_word_ignores_ascii_case() {
    assert!(matches!(handle_args(&args(&["pie", "INSTALL", "foo"])), Ok(Some(_))));
    assert!(matches!(handle_args(&args(&["pie", "Install", "foo"])), Ok(Some(_))));
}

#[test]
fn an_unknown_command_word_is_reported() {
    match handle_args(&args(&["pie", "remove", "foo"])) {
        Err(ParseError::CommandNotFound(w)) => assert_eq!(w.as_str(), "remove"),
        other => panic!("expected an unknown-command error, got {:?}", other),
    }
}

#[test]
fn install_without_a_package_is_missing_its_argument() {
    match handle_args(&args(&["pie", "install"])) {
        Err(ParseError::MissingArgument(x)) => assert_eq!(x.as_str(), "package_name"),
        other => panic!("expected a missing-argument error, got {:?}", other),
    }
}

#[test]
fn a_bad_package_spec_is_an_invalid_notation() {
    assert!(matches!(
        handle_args(&args(&["pie", "install", "foo@not a range"])),
        Err(ParseError::InvalidVersionNotation)
    ));
}
