use salus::argv::{
    help_or_version_args, requests_quiet, with_raw_tail, Grammar, LongOption, Subcommand,
};
use salus::entry::{parse_exit, prepare_args};
use salus::env_expand::Environment;
use salus::os_text::OsText;

fn option(long: &str, takes_value: bool) -> LongOption {
    LongOption {
        long: long.to_string(),
        takes_value,
        allow_hyphen_value: false,
        allow_negative_number: false,
    }
}

fn command(name: &str, options: Vec<LongOption>, trailing: bool) -> Subcommand {
    Subcommand {
        name: name.to_string(),
        aliases: Vec::new(),
        options,
        trailing,
    }
}

fn grammar() -> Grammar {
    let mut code = option("exit-code", true);
    code.allow_negative_number = true;
    let mut text = option("text", true);
    text.allow_hyphen_value = true;
    let mut alias = command("file", vec![option("path", true), option("max-age", true)], false);
    alias.aliases = vec!["f".to_string()];
    Grammar {
        options: vec![
            option("timeout", true),
            option("max-latency", true),
            option("quiet", false),
            option("verbose", false),
        ],
        commands: vec![
            command("http", vec![option("url", true), option("contains", true)], false),
            command("exec", vec![option("stdout-contains", true), code, text], true),
            alias,
        ],
    }
}

fn args(values: &[&str]) -> Vec<OsText> {
    let mut all = vec![OsText::new("salus")];
    all.extend(values.iter().map(|value| OsText::new(value)));
    all
}

fn texts(args: &[OsText]) -> Vec<String> {
    args.iter().map(|arg| arg.to_str().unwrap().to_string()).collect()
}

fn help(values: &[&str]) -> Option<Vec<String>> {
    help_or_version_args(&args(values), &grammar()).map(|args| texts(&args))
}

fn quiet(values: &[&str]) -> bool {
    requests_quiet(&args(values), &grammar())
}

fn strings(values: &[&str]) -> Option<Vec<String>> {
    Some(values.iter().map(|value| value.to_string()).collect())
}

#[test]
fn help_is_found_behind_options_and_their_values() {
    assert_eq!(help(&["--help"]), strings(&["salus", "--help"]));
    assert_eq!(
        help(&["http", "--url", "${MISSING}", "--help"]),
        strings(&["salus", "http", "--help"])
    );
    assert_eq!(
        help(&["--timeout=${MISSING}", "--quiet", "f", "-h"]),
        strings(&["salus", "file", "-h"])
    );
    assert_eq!(
        help(&["exec", "--stdout-contains", "x", "--help"]),
        strings(&["salus", "exec", "--help"])
    );
    assert_eq!(help(&[]), None);
    assert_eq!(help_or_version_args(&[], &grammar()).is_none(), true);
}

#[test]
fn the_version_is_asked_for_before_a_subcommand() {
    assert_eq!(
        help(&["--timeout", "${MISSING}", "--version"]),
        strings(&["salus", "--version"])
    );
    assert_eq!(help(&["-V"]), strings(&["salus", "-V"]));
    assert_eq!(help(&["http", "--url", "x", "--version"]), None);
    assert_eq!(help(&["exec", "--version"]), None);
}

#[test]
fn help_can_be_asked_for_by_its_name() {
    assert_eq!(
        help(&["help", "http", "--url", "${MISSING}"]),
        strings(&["salus", "help", "http"])
    );
    assert_eq!(help(&["help", "--help"]), strings(&["salus", "help", "help"]));
    assert_eq!(help(&["help", "-h"]), strings(&["salus", "help", "help"]));
    assert_eq!(help(&["--timeout", "x", "help"]), strings(&["salus", "help"]));
    assert_eq!(help(&["http", "help"]), None);
}

#[test]
fn arguments_of_a_command_ask_for_nothing() {
    assert_eq!(help(&["exec", "sh", "-h"]), None);
    assert_eq!(help(&["exec", "--", "sh", "--help"]), None);
    assert!(!quiet(&["exec", "sh", "--quiet", "${MISSING}"]));
    assert!(!quiet(&["exec", "-V", "--quiet"]));
    assert!(quiet(&["exec", "--quiet", "sh"]));
    assert!(quiet(&["exec", "--help", "--quiet"]));
    assert!(!quiet(&["http", "--help", "--quiet"]));
}

#[test]
fn option_values_are_not_taken_for_flags() {
    assert_eq!(help(&["file", "--max-age", "--help"]), None);
    assert!(!quiet(&["file", "--path", "/tmp/x", "--max-age", "--quiet"]));
    assert!(quiet(&["--quiet", "file", "--max-age", "--verbose"]));
    assert!(!quiet(&["--url", "x", "--quiet"]));
    assert!(quiet(&["http", "--url", "x", "--quiet"]));
}

#[test]
fn option_values_may_begin_with_a_dash_where_that_is_allowed() {
    assert!(quiet(&["exec", "--text", "-x", "--quiet"]));
    assert!(!quiet(&["exec", "--text", "--", "--quiet"]));
    for number in ["-1", "-", "-1.5", "-1e5", "-1.5E3", "-0"] {
        assert!(quiet(&["exec", "--exit-code", number, "--quiet"]), "{number}");
    }
    for text in ["-.5", "-e5", "-1e", "-1.2.3", "-1e2e3", "-1e5.", "-x"] {
        assert!(!quiet(&["exec", "--exit-code", text, "--quiet"]), "{text}");
    }
}

#[test]
fn silence_gives_way_to_detail() {
    assert!(quiet(&["--quiet"]));
    assert!(quiet(&["--quiet", "--bad-flag"]));
    assert!(!quiet(&["--quiet", "--verbose"]));
    assert!(!quiet(&["--verbose", "--quiet"]));
    assert!(!quiet(&["--bad-flag", "--quiet"]));
    assert!(!quiet(&["--quiet=yes"]));
    assert!(!quiet(&[]));
    assert!(!requests_quiet(&[], &grammar()));
}

#[test]
fn what_stands_behind_two_dashes_has_no_say() {
    for tail in [&["--help"][..], &["--quiet"], &["x", "--verbose"], &[]] {
        let mut values = vec!["--quiet", "http", "--"];
        values.extend(tail);
        assert!(quiet(&values));
        assert_eq!(help(&values), None);
    }
    assert!(!quiet(&["--", "--quiet"]));
}

#[test]
fn scanning_stops_at_what_is_no_text() {
    let raw = |position: usize, flag: &str| {
        let mut all = args(&["--quiet", "file", flag]);
        all.insert(position, OsText::from_bytes(vec![0xff]));
        all
    };

    assert!(!requests_quiet(&raw(1, "--quiet"), &grammar()));
    assert!(!requests_quiet(&raw(3, "--quiet"), &grammar()));
    assert!(help_or_version_args(&raw(3, "--help"), &grammar()).is_none());

    let mut value = args(&["file", "--path"]);
    value.push(OsText::from_bytes(vec![0xff]));
    value.push(OsText::new("--quiet"));
    assert!(requests_quiet(&value, &grammar()));
}

#[test]
fn a_tail_is_kept_behind_what_was_expanded() {
    assert_eq!(
        texts(&with_raw_tail(args(&["a"]), vec![OsText::new("${B}")])),
        vec!["salus", "a", "${B}"]
    );
}

fn environment() -> Environment {
    Environment {
        vars: vec![("Q".to_string(), OsText::new("--quiet"))],
    }
}

#[test]
fn help_does_not_require_environment_expansion() {
    let prepared = prepare_args(
        args(&["http", "--url", "${MISSING}", "--help"]),
        &environment(),
        &grammar(),
    )
    .unwrap();

    assert_eq!(texts(&prepared.args), vec!["salus", "http", "--help"]);
    assert!(!prepared.quiet);
}

#[test]
fn arguments_are_expanded_before_they_are_parsed() {
    let prepared =
        prepare_args(args(&["${Q}", "http", "--url", "$$x"]), &environment(), &grammar()).unwrap();

    assert_eq!(
        texts(&prepared.args),
        vec!["salus", "--quiet", "http", "--url", "$x"]
    );
    assert!(prepared.quiet);
}

#[test]
fn subcommand_version_does_not_skip_environment_expansion() {
    let exit = prepare_args(
        args(&["http", "--url", "${MISSING}", "--version"]),
        &environment(),
        &grammar(),
    )
    .unwrap_err();

    assert_eq!(exit.code, 3);
    assert_eq!(exit.line.unwrap(), "environment variable MISSING is not set");
}

#[test]
fn expanded_quiet_suppresses_later_environment_expansion_errors() {
    let exit = prepare_args(
        args(&["${Q}", "file", "--path", "${MISSING}"]),
        &environment(),
        &grammar(),
    )
    .unwrap_err();

    assert_eq!(exit.code, 3);
    assert!(exit.line.is_none());
}

#[test]
fn expanded_exec_command_arguments_do_not_enable_quiet_for_environment_errors() {
    let exit = prepare_args(
        args(&["exec", "sh", "${Q}", "${MISSING}"]),
        &environment(),
        &grammar(),
    )
    .unwrap_err();

    assert_eq!(exit.code, 3);
    assert!(exit.line.is_some());
}

#[test]
fn parse_errors_end_with_their_code() {
    let help = parse_exit(true, true);
    assert_eq!((help.code, help.print, help.to_stdout), (0, true, true));

    let error = parse_exit(false, false);
    assert_eq!((error.code, error.print, error.to_stdout), (3, true, false));

    let silent = parse_exit(false, true);
    assert_eq!((silent.code, silent.print), (3, false));
}
