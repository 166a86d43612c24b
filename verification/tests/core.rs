use xa::errors::XaError;
use xa::expand::build_cmd;
use xa::expand::expand;
use xa::expand::SubstitutionMode;
use xa::input::split_pipe_by_lines;
use xa::template::build_template;
use xa::template::chain_args_with_space;
use xa::text::trim_blanks;

#[test]
fn split_pipe_by_lines_test() {
    let pipe = "This\nis\na\ntest".to_string();
    let result = split_pipe_by_lines(&pipe);
    let expected = vec!["This", "is", "a", "test"];
    assert_eq!(result, expected);
}

#[test]
fn chain_args_with_space_test() {
    let binding_a = "This".to_string();
    let binding_b = "is".to_string();
    let binding_c = "a".to_string();
    let binding_d = "test".to_string();
    let mut args = Vec::new();

    args.push(binding_a);
    args.push(binding_b);
    args.push(binding_c);
    args.push(binding_d);

    let result = chain_args_with_space(&args);
    let expected = "This is a test".to_string();
    assert_eq!(result, expected);
}

#[test]
fn chain_args_with_space_test2() {
    let binding_a = "This".to_string();
    let binding_b = "is".to_string();
    let binding_c = "a".to_string();
    let binding_d = "test".to_string();
    let binding_e = " ".to_string();
    let mut args = Vec::new();

    args.push(binding_a);
    args.push(binding_b);
    args.push(binding_c);
    args.push(binding_d);
    args.push(binding_e);

    let result = chain_args_with_space(&args);
    let expected = "This is a test".to_string();
    assert_eq!(result, expected);
}

#[test]
fn trim_blanks_strips_both_edges() {
    assert_eq!(trim_blanks("  a b \r\n"), "a b");
    assert_eq!(trim_blanks("\t\n \r"), "");
    assert_eq!(trim_blanks(""), "");
    assert_eq!(trim_blanks("plain"), "plain");
}

#[test]
fn split_keeps_interior_empty_lines() {
    let result = split_pipe_by_lines("a\n\nb");
    let expected = vec!["a", "", "b"];
    assert_eq!(result, expected);
}

#[test]
fn split_handles_crlf_line_endings() {
    let result = split_pipe_by_lines("a\r\nb\r\nc");
    let expected = vec!["a", "b", "c"];
    assert_eq!(result, expected);
}

#[test]
fn split_of_empty_input_has_no_units() {
    let result = split_pipe_by_lines("");
    assert!(result.is_empty());
}

#[test]
fn split_drops_one_trailing_newline() {
    let result = split_pipe_by_lines("a\nb\n");
    let expected = vec!["a", "b"];
    assert_eq!(result, expected);
}

#[test]
fn template_has_single_spaces_and_clean_edges() {
    let args = vec!["echo".to_string(), "-n".to_string(), "x".to_string()];
    let template = chain_args_with_space(&args);
    assert_eq!(template, "echo -n x");
    assert!(!template.starts_with(' '));
    assert!(!template.ends_with(' '));
}

#[test]
fn empty_template_tokens_are_rejected() {
    let args: Vec<String> = Vec::new();
    let result = build_template(&args);
    assert_eq!(result, Err(XaError::EmptyTemplateError));
}

#[test]
fn non_empty_template_tokens_are_accepted() {
    let args = vec!["ls".to_string(), "-l".to_string()];
    let result = build_template(&args);
    assert_eq!(result, Ok("ls -l".to_string()));
}

#[test]
fn append_mode_appends_with_one_space() {
    assert_eq!(expand("echo", "a", SubstitutionMode::Append), "echo a");
    assert_eq!(expand("grep -i", "pat", SubstitutionMode::Append), "grep -i pat");
}

#[test]
fn replace_mode_replaces_every_occurrence() {
    let result = expand("cp {} backup/{}", "notes.txt", SubstitutionMode::Replace);
    assert_eq!(result, "cp notes.txt backup/notes.txt");
    assert!(!result.contains("{}"));
}

#[test]
fn replace_mode_without_placeholder_is_noop() {
    assert_eq!(expand("ls -l", "ignored", SubstitutionMode::Replace), "ls -l");
}

#[test]
fn replace_mode_with_empty_unit_erases_placeholders() {
    assert_eq!(expand("echo {}", "", SubstitutionMode::Replace), "echo ");
}

#[test]
fn replace_mode_can_rebuild_a_placeholder_from_braces() {
    // A unit carrying brace characters, or an empty unit between braces, can
    // leave a new `{}` in the result; substitution is literal and runs once.
    assert_eq!(expand("{{}}", "", SubstitutionMode::Replace), "{}");
    assert_eq!(expand("a {}", "{}", SubstitutionMode::Replace), "a {}");
}

#[test]
fn build_cmd_chains_tokens_then_expands() {
    let tokens = vec!["echo".to_string(), "{}".to_string(), "done".to_string()];
    assert_eq!(build_cmd(&tokens, "x", SubstitutionMode::Replace), "echo x done");
    let tokens2 = vec!["echo".to_string()];
    assert_eq!(build_cmd(&tokens2, "a", SubstitutionMode::Append), "echo a");
}

#[test]
fn error_messages_name_each_kind() {
    assert_eq!(XaError::IoError.message(), "unable to read from stdin");
    assert_eq!(XaError::EmptyTemplateError.message(), "no command given");
    assert_eq!(XaError::ExecutionError.message(), "command execution failed");
}
