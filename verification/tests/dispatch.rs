use xa::engine::failure_log_line;
use xa::engine::DispatchEngine;
use xa::engine::ExecutionResult;
use xa::expand::SubstitutionMode;
use xa::input::split_pipe_by_lines;
use xa::template::build_template;
use xa::text::trim_blanks;

fn drain(engine: &mut DispatchEngine) -> Vec<String> {
    let mut attempted = Vec::new();
    while let Some(cmd) = engine.next_command() {
        attempted.push(cmd);
    }
    attempted
}

#[test]
fn append_scenario_runs_in_input_order() {
    let tokens = vec!["echo".to_string()];
    let template = build_template(&tokens).unwrap();
    let pipe = trim_blanks("a\nb\n");
    let units = split_pipe_by_lines(&pipe);
    let mut engine = DispatchEngine::new(&template, &units, SubstitutionMode::Append);
    let attempted = drain(&mut engine);
    assert_eq!(attempted, vec!["echo a", "echo b"]);
    assert!(engine.is_done());
}

#[test]
fn replace_scenario_substitutes_between_tokens() {
    let tokens = vec!["echo".to_string(), "{}".to_string(), "done".to_string()];
    let template = build_template(&tokens).unwrap();
    let pipe = trim_blanks("x\n");
    let units = split_pipe_by_lines(&pipe);
    let mut engine = DispatchEngine::new(&template, &units, SubstitutionMode::Replace);
    let attempted = drain(&mut engine);
    assert_eq!(attempted, vec!["echo x done"]);
}

#[test]
fn replace_scenario_without_placeholder_runs_template_unchanged() {
    let tokens = vec!["ls".to_string()];
    let template = build_template(&tokens).unwrap();
    let pipe = trim_blanks("ignored\n");
    let units = split_pipe_by_lines(&pipe);
    let mut engine = DispatchEngine::new(&template, &units, SubstitutionMode::Replace);
    let attempted = drain(&mut engine);
    assert_eq!(attempted, vec!["ls"]);
}

#[test]
fn empty_template_fails_before_any_dispatch() {
    let tokens: Vec<String> = Vec::new();
    assert!(build_template(&tokens).is_err());
}

#[test]
fn empty_stdin_yields_zero_executions() {
    let tokens = vec!["echo".to_string()];
    let template = build_template(&tokens).unwrap();
    let pipe = trim_blanks("");
    let units = split_pipe_by_lines(&pipe);
    let mut engine = DispatchEngine::new(&template, &units, SubstitutionMode::Append);
    assert!(engine.is_done());
    assert_eq!(engine.next_command(), None);
}

#[test]
fn a_failure_does_not_stop_later_units() {
    let tokens = vec!["run".to_string()];
    let template = build_template(&tokens).unwrap();
    let units = vec!["u1".to_string(), "u2".to_string(), "u3".to_string()];
    let mut engine = DispatchEngine::new(&template, &units, SubstitutionMode::Append);
    let mut attempted = Vec::new();
    let mut step = 0;
    while let Some(cmd) = engine.next_command() {
        // The second unit's execution fails; the engine still hands out the
        // third, and in input order.
        let result = ExecutionResult {
            success: step != 1,
            diagnostic: if step == 1 { Some("exit status 1".to_string()) } else { None },
        };
        let log = failure_log_line(&cmd, &result);
        if step == 1 {
            assert_eq!(log, Some("failed to execute 'run u2': exit status 1".to_string()));
        } else {
            assert_eq!(log, None);
        }
        attempted.push(cmd);
        step += 1;
    }
    assert_eq!(attempted, vec!["run u1", "run u2", "run u3"]);
}

#[test]
fn parallel_plan_covers_every_unit_exactly_once() {
    let tokens = vec!["touch".to_string()];
    let template = build_template(&tokens).unwrap();
    let units = vec!["a".to_string(), "b".to_string(), "a".to_string()];
    let sequential = DispatchEngine::new(&template, &units, SubstitutionMode::Append);
    let mut sequential_cmds = Vec::new();
    let mut engine = sequential;
    while let Some(cmd) = engine.next_command() {
        sequential_cmds.push(cmd);
    }

    let fresh = DispatchEngine::new(&template, &units, SubstitutionMode::Append);
    let mut parallel_cmds = fresh.into_commands();
    // A completion order other than the input order: the multiset of executed
    // command strings is unchanged.
    parallel_cmds.reverse();
    let mut lhs = parallel_cmds.clone();
    let mut rhs = sequential_cmds.clone();
    lhs.sort();
    rhs.sort();
    assert_eq!(lhs, rhs);
    assert_eq!(parallel_cmds.len(), units.len());
}

#[test]
fn failure_log_line_names_command_and_error() {
    let failed = ExecutionResult { success: false, diagnostic: Some("boom".to_string()) };
    assert_eq!(
        failure_log_line("echo x", &failed),
        Some("failed to execute 'echo x': boom".to_string())
    );
    let silent = ExecutionResult { success: false, diagnostic: None };
    assert_eq!(failure_log_line("echo x", &silent), Some("failed to execute 'echo x': ".to_string()));
    let ok = ExecutionResult { success: true, diagnostic: None };
    assert_eq!(failure_log_line("echo x", &ok), None);
}
