use salus::env_expand::{expand_argv, expand_argv_with_partial, expand_text, Environment};
use salus::error::Result;
use salus::os_text::OsText;

fn environment(pairs: &[(&str, &str)]) -> Environment {
    Environment {
        vars: pairs
            .iter()
            .map(|(name, value)| (name.to_string(), OsText::new(value)))
            .collect(),
    }
}

fn expand_with(raw: &str, pairs: &[(&str, &str)]) -> Result<String> {
    expand_text(raw, &environment(pairs))
}

#[test]
fn expands_required_variables() {
    let expanded =
        expand_with("http://127.0.0.1:${PORT}/healthz", &[("PORT", "8080")]).unwrap();

    assert_eq!(expanded, "http://127.0.0.1:8080/healthz");
}

#[test]
fn expands_default_when_variable_is_missing() {
    let expanded = expand_with("${MODE:-ready}", &[]).unwrap();

    assert_eq!(expanded, "ready");
}

#[test]
fn leaves_dollar_variable_syntax_unchanged() {
    let expanded = expand_with("$PORT", &[("PORT", "8080")]).unwrap();

    assert_eq!(expanded, "$PORT");
}

#[test]
fn escapes_dollar_signs() {
    let expanded = expand_with("$${PORT}", &[("PORT", "8080")]).unwrap();

    assert_eq!(expanded, "${PORT}");
}

#[test]
fn does_not_expand_defaults_recursively() {
    let expanded = expand_with("${MODE:-${INNER}}", &[("INNER", "ready")]).unwrap();

    assert_eq!(expanded, "${INNER}");
}

#[test]
fn rejects_missing_variables_without_default() {
    let error = expand_with("${PORT}", &[]).unwrap_err();

    assert_eq!(error.to_string(), "environment variable PORT is not set");
}

#[test]
fn rejects_invalid_variable_names() {
    let error = expand_with("${1PORT}", &[]).unwrap_err();

    assert_eq!(
        error.to_string(),
        "invalid environment variable name \"1PORT\""
    );
}

#[test]
fn rejects_unterminated_expansions() {
    let error = expand_with("${PORT", &[("PORT", "8080")]).unwrap_err();

    assert_eq!(error.to_string(), "unterminated environment expansion");
}

#[test]
fn empty_variables_fall_back_to_their_default() {
    assert_eq!(expand_with("${A:-b}", &[("A", "")]).unwrap(), "b");
    assert_eq!(expand_with("${A:-b}", &[("A", "c")]).unwrap(), "c");
    assert_eq!(expand_with("<${A}>", &[("A", "")]).unwrap(), "<>");
    assert_eq!(expand_with("${A:-}", &[]).unwrap(), "");
}

#[test]
fn text_without_a_dollar_sign_is_left_alone() {
    for text in ["", "plain", "{a}", "a:-b", "\u{1F600}"] {
        assert_eq!(expand_with(text, &[]).unwrap(), text);
    }
}

#[test]
fn doubled_dollar_signs_expand_back() {
    for text in ["$", "$$", "${A}", "a$b$", "$${", "$}"] {
        let doubled = text.replace('$', "$$");
        assert_eq!(expand_with(&doubled, &[("A", "x")]).unwrap(), text);
    }
}

#[test]
fn values_are_not_expanded_again() {
    assert_eq!(
        expand_with("${A}-${A}", &[("A", "${B}$$"), ("B", "b")]).unwrap(),
        "${B}$$-${B}$$"
    );
}

#[test]
fn the_first_variable_of_a_name_counts() {
    assert_eq!(expand_with("${A}", &[("A", "1"), ("A", "2")]).unwrap(), "1");
}

#[test]
fn names_are_letters_digits_and_underscores() {
    assert_eq!(expand_with("${_a9}", &[("_a9", "x")]).unwrap(), "x");
    for name in ["", "9a", "a-b", "a b", "\u{e9}"] {
        let error = expand_with(&format!("${{{name}}}"), &[(name, "x")]).unwrap_err();
        assert_eq!(
            error.to_string(),
            format!("invalid environment variable name {name:?}")
        );
        assert_eq!(error.exit_code(), 3);
    }
}

#[test]
fn values_must_be_text() {
    let env = Environment {
        vars: vec![("A".to_string(), OsText::from_bytes(vec![0xff]))],
    };

    let error = expand_text("${A:-b}", &env).unwrap_err();

    assert_eq!(error.to_string(), "environment variable A is not valid UTF-8");
}

fn bytes(args: &[OsText]) -> Vec<Vec<u8>> {
    args.iter().map(|arg| arg.bytes.clone()).collect()
}

#[test]
fn the_program_name_is_not_expanded() {
    let env = environment(&[("A", "x")]);
    let args = vec![OsText::new("${A}"), OsText::new("${A}"), OsText::from_bytes(vec![0xff])];

    let expanded = expand_argv(args, &env).unwrap();

    assert_eq!(
        bytes(&expanded),
        vec![b"${A}".to_vec(), b"x".to_vec(), vec![0xff]]
    );
    assert!(expand_argv(Vec::new(), &env).unwrap().is_empty());
}

#[test]
fn a_dollar_sign_needs_text_around_it() {
    let error = expand_argv(
        vec![OsText::new("salus"), OsText::from_bytes(vec![b'$', 0xff])],
        &environment(&[]),
    )
    .unwrap_err();

    assert_eq!(
        error.to_string(),
        "environment expansion only supports UTF-8 arguments"
    );
}

#[test]
fn a_failed_expansion_tells_what_came_before_it() {
    let env = environment(&[("Q", "--quiet")]);
    let args = ["salus", "${Q}", "file", "${MISSING}", "${Q}"].map(OsText::new);

    let error = expand_argv_with_partial(args.into(), &env).unwrap_err();
    let (error, partial, tail) = error.into_parts();

    assert_eq!(error.to_string(), "environment variable MISSING is not set");
    assert_eq!(
        bytes(&partial),
        vec![b"salus".to_vec(), b"--quiet".to_vec(), b"file".to_vec()]
    );
    assert_eq!(bytes(&tail), vec![b"${MISSING}".to_vec(), b"${Q}".to_vec()]);
}
