use flyline::agent::{
    agent_result, choose_agent, show_command, AcceptedPrompt, AgentEntry, AgentLaunch,
    AgentModeCommand, AgentRequest, AgentResult, AgentStatus, ExampleAgent,
};
use flyline::state::{
    AiOutput, App, AppRunningState, ContentMode, ExitState, FuzzyHistorySource, HistoryEntry,
};

fn app(text: &str) -> App {
    App::new(&Some(text.to_string()), 0, 0, None, None)
}

fn agent(prefix: Option<&str>, command: &[&str], system_prompt: Option<&str>) -> AgentEntry {
    AgentEntry {
        prefix: prefix.map(|p| p.to_string()),
        agent: AgentModeCommand {
            command: command.iter().map(|w| w.to_string()).collect(),
            system_prompt: system_prompt.map(|p| p.to_string()),
        },
    }
}

fn waiting(text: &str) -> App {
    let mut a = app(text);
    a.agent_started("agent".to_string(), Ok(7), 5);
    a
}

fn output() -> AiOutput {
    AiOutput { suggestions: vec!["ls".to_string()], selected_idx: Some(0) }
}

#[test]
fn the_prefix_chooses_the_agent() {
    let agents = vec![
        agent(Some("? "), &["ask"], None),
        agent(None, &["default"], None),
        agent(Some("?"), &["other"], None),
    ];
    let c = choose_agent(&agents, "?  list files", true).unwrap();
    assert_eq!((c.agent, c.text.as_str()), (0, "list files"));
    let c = choose_agent(&agents, "?list", true).unwrap();
    assert_eq!((c.agent, c.text.as_str()), (2, "list"));
    assert!(choose_agent(&agents, "list", true).is_none());
    let c = choose_agent(&agents, " list", false).unwrap();
    assert_eq!((c.agent, c.text.as_str()), (1, " list"));
}

#[test]
fn any_agent_will_do_where_none_is_the_default() {
    let agents = vec![agent(Some("?"), &["ask"], None), agent(Some("!"), &["other"], None)];
    let a = app("list");
    let c = a.resolve_agent_command(&agents, false).unwrap();
    assert_eq!((c.agent, c.text.as_str()), (0, "list"));
    assert!(a.resolve_agent_command(&agents, true).is_none());
    assert!(a.resolve_agent_command(&vec![], false).is_none());
    assert!(a.buffer_starts_with_agent_command_prefix(&agents).is_none());
    let c = app("! x").buffer_starts_with_agent_command_prefix(&agents).unwrap();
    assert_eq!((c.agent, c.text.as_str()), (1, " x"));
}

#[test]
fn words_with_spaces_are_quoted() {
    let words: Vec<String> =
        ["helper", "-p", "it's a test", "don't"].iter().map(|w| w.to_string()).collect();
    assert_eq!(show_command(&words), r"helper -p 'it'\''s a test' don't");
    assert_eq!(show_command(&vec![]), "");
}

fn launch(entry: &AgentEntry, text: &str) -> AgentLaunch {
    let mut a = app("text");
    match a.start_agent_mode(&entry.agent, text) {
        AgentRequest::Launch(l) => {
            assert_eq!(a, app("text"));
            assert_eq!(l.history_text, "text");
            l
        }
        other => panic!("{other:?}"),
    }
}

#[test]
fn asking_nothing_opens_the_search_through_questions() {
    for system_prompt in [None, Some("You are terse.")] {
        let entry = agent(Some("?"), &["ask"], system_prompt);
        let mut a = app("?");
        assert_eq!(a.start_agent_mode(&entry.agent, ""), AgentRequest::SearchPrompts);
        assert_eq!(
            a.content_mode,
            ContentMode::FuzzyHistorySearch(FuzzyHistorySource::AgentPrompts)
        );
        assert_eq!(a.buffer.buffer(), "?");
    }
    assert_eq!(launch(&agent(None, &["ask"], None), " ").words, vec!["ask", " "]);
}

#[test]
fn the_whole_text_is_kept_with_its_prefix() {
    let agents = vec![agent(Some("?"), &["ask"], Some("Be brief."))];
    let mut a = app("? list files");
    let choice = a.resolve_agent_command(&agents, true).unwrap();
    match a.start_agent_mode(&agents[choice.agent].agent, &choice.text) {
        AgentRequest::Launch(l) => {
            assert_eq!(l.words, vec!["ask", "Be brief.\nlist files"]);
            assert_eq!(l.history_text, "? list files");
        }
        other => panic!("{other:?}"),
    }
}

#[test]
fn a_launch_adds_the_question() {
    let plain = agent(None, &["ask", "--json"], None);
    let l = launch(&plain, "list files");
    assert_eq!(l.words, vec!["ask", "--json", "list files"]);
    assert_eq!(l.command_display, "ask --json 'list files'");
    let prompted = agent(None, &["ask"], Some("You are terse."));
    let l = launch(&prompted, "ls");
    assert_eq!(l.words, vec!["ask", "You are terse.\nls"]);
    assert_eq!(l.command_display, "ask 'You are terse.\nls'");
}

#[test]
fn results_of_an_agent() {
    assert_eq!(agent_result(&AgentStatus::Running), None);
    let exited = |success: bool| AgentStatus::Exited {
        success,
        status: "exit status: 2".to_string(),
        stdout: "  out\n".to_string(),
        stderr: "\terr ".to_string(),
    };
    assert_eq!(agent_result(&exited(true)), Some(AgentResult::Answer("out".to_string())));
    assert_eq!(
        agent_result(&exited(false)),
        Some(AgentResult::Failure {
            message: "AI command exited with exit status: 2".to_string(),
            raw_output: "stdout: out\nstderr: err".to_string(),
        })
    );
    assert_eq!(
        agent_result(&AgentStatus::WaitFailed("gone".to_string())),
        Some(AgentResult::Failure {
            message: "AI task failed: gone".to_string(),
            raw_output: String::new(),
        })
    );
}

#[test]
fn polling_an_agent() {
    let ok = AgentStatus::Exited {
        success: true,
        status: "exit status: 0".to_string(),
        stdout: " [] ".to_string(),
        stderr: String::new(),
    };

    let mut a = app("q");
    let p = a.poll_agent(&ok, Ok(output()));
    assert!(!p.redraw);
    assert_eq!(a.content_mode, ContentMode::Normal);

    let mut a = waiting("q");
    let p = a.poll_agent(&AgentStatus::Running, Ok(output()));
    assert!(!p.redraw && p.raw_output.is_none());
    assert!(matches!(a.content_mode, ContentMode::AgentModeWaiting { job: 7, .. }));

    let mut a = waiting("q");
    let p = a.poll_agent(&ok, Ok(output()));
    assert_eq!((p.redraw, p.raw_output.as_deref()), (true, Some("[]")));
    match &a.content_mode {
        ContentMode::AgentOutputSelection(s) => {
            assert_eq!(s.suggestions, vec!["ls"]);
            assert_eq!(s.selected_idx, Some(0));
            assert_eq!(s.last_buffer_content, "q");
        }
        other => panic!("{other:?}"),
    }

    let mut a = waiting("q");
    let p = a.poll_agent(&ok, Err("no json".to_string()));
    assert_eq!((p.redraw, p.raw_output.as_deref()), (true, Some("[]")));
    assert_eq!(a.dismissed_agent_mode_buffer.as_deref(), Some("q"));
    assert_eq!(
        a.content_mode,
        ContentMode::AgentError {
            message: "Failed to parse AI output: no json".to_string(),
            raw_output: "[]".to_string(),
            suggested_setup_command: None,
        }
    );

    let mut a = waiting("q");
    let p = a.poll_agent(&AgentStatus::WaitFailed("x".to_string()), Ok(output()));
    assert_eq!((p.redraw, p.raw_output.as_deref()), (true, Some("")));
    assert!(matches!(a.content_mode, ContentMode::AgentError { .. }));
}

#[test]
fn an_agent_that_cannot_be_started() {
    let mut a = app("q");
    a.agent_started("agent q".to_string(), Err("not found".to_string()), 5);
    assert_eq!(a.dismissed_agent_mode_buffer.as_deref(), Some("q"));
    assert_eq!(
        a.content_mode,
        ContentMode::AgentError {
            message: "Failed to run AI command: not found".to_string(),
            raw_output: String::new(),
            suggested_setup_command: None,
        }
    );
}

#[test]
fn a_user_without_an_agent_is_told_how_to_set_one_up() {
    let example = |is_known, setup: &str| ExampleAgent { is_known, setup_command: setup.to_string() };
    let mut a = app("q");
    a.show_agent_mode_not_configured_error(&vec![example(false, "one"), example(true, "two")]);
    assert_eq!(
        a.content_mode,
        ContentMode::AgentError {
            message: "Agent mode is not configured. However, flyline can set it up for you:"
                .to_string(),
            raw_output: String::new(),
            suggested_setup_command: Some("two".to_string()),
        }
    );
    let mut a = app("q");
    a.show_agent_mode_not_configured_error(&vec![example(false, "one")]);
    match &a.content_mode {
        ContentMode::AgentError { message, suggested_setup_command, .. } => {
            assert!(message.starts_with("Agent mode is not configured. Run `flyline"));
            assert_eq!(*suggested_setup_command, None);
        }
        other => panic!("{other:?}"),
    }
}

#[test]
fn accepting_a_past_command() {
    let entry = Some(HistoryEntry { command: "git log".to_string(), raw_output: None });
    let mut a = app("g");
    a.accept_fuzzy_history_search(&entry);
    assert_eq!(a.buffer.buffer(), "g");
    a.content_mode = ContentMode::FuzzyHistorySearch(FuzzyHistorySource::PastCommands);
    a.fuzzy_history_session_filter_active = true;
    a.accept_fuzzy_history_search(&entry);
    assert_eq!(a.buffer.buffer(), "git log");
    assert_eq!(a.buffer.cursor, 7);
    assert_eq!(a.content_mode, ContentMode::Normal);
    assert!(!a.fuzzy_history_session_filter_active);
    a.content_mode = ContentMode::FuzzyHistorySearch(FuzzyHistorySource::CancelledCommands);
    a.accept_fuzzy_history_search(&None);
    assert_eq!(a.buffer.buffer(), "git log");
    assert_eq!(a.content_mode, ContentMode::Normal);
}

#[test]
fn accepting_a_past_question() {
    let searching = |text: &str| {
        let mut a = app(text);
        a.content_mode = ContentMode::FuzzyHistorySearch(FuzzyHistorySource::AgentPrompts);
        a
    };
    let entry = |raw: Option<&str>| {
        Some(HistoryEntry { command: "? x".to_string(), raw_output: raw.map(|r| r.to_string()) })
    };
    let agents = vec![agent(Some("?"), &["ask"], None)];

    let mut a = searching("?");
    let r = a.accept_fuzzy_history_search_agent_command(
        &entry(Some("[]")),
        Ok(output()),
        &agents,
        &vec![],
    );
    assert_eq!(r, AcceptedPrompt::Done);
    assert_eq!(a.buffer.buffer(), "? x");
    assert!(matches!(&a.content_mode, ContentMode::AgentOutputSelection(s)
        if s.last_buffer_content == "? x"));

    let mut a = searching("?");
    a.accept_fuzzy_history_search_agent_command(
        &entry(Some("junk")),
        Err("bad".to_string()),
        &agents,
        &vec![],
    );
    assert_eq!(a.dismissed_agent_mode_buffer.as_deref(), Some("? x"));
    assert_eq!(
        a.content_mode,
        ContentMode::AgentError {
            message: "Failed to parse cached AI output: bad".to_string(),
            raw_output: "junk".to_string(),
            suggested_setup_command: None,
        }
    );

    let mut a = searching("?");
    a.accept_fuzzy_history_search_agent_command(&entry(None), Ok(output()), &agents, &vec![]);
    assert_eq!(a.content_mode, ContentMode::Normal);

    let mut a = searching("? why");
    match a.accept_fuzzy_history_search_agent_command(&None, Ok(output()), &agents, &vec![]) {
        AcceptedPrompt::Ask(c) => assert_eq!((c.agent, c.text.as_str()), (0, "why")),
        other => panic!("{other:?}"),
    }
    assert_eq!(
        a.content_mode,
        ContentMode::FuzzyHistorySearch(FuzzyHistorySource::AgentPrompts)
    );

    let mut a = searching("why");
    let r = a.accept_fuzzy_history_search_agent_command(&None, Ok(output()), &vec![], &vec![]);
    assert_eq!(r, AcceptedPrompt::Done);
    assert!(matches!(a.content_mode, ContentMode::AgentError { .. }));

    let mut a = app("why");
    let r = a.accept_fuzzy_history_search_agent_command(&None, Ok(output()), &agents, &vec![]);
    assert_eq!(r, AcceptedPrompt::Done);
    assert_eq!(a.content_mode, ContentMode::Normal);
}

#[test]
fn submitting_the_text() {
    let mut a = app("ls");
    a.try_submit_current_buffer(true);
    assert_eq!(a.mode, AppRunningState::Exiting(ExitState::WithCommand("ls".to_string())));
    let mut a = app("if true");
    a.try_submit_current_buffer(false);
    assert!(a.mode.is_running());
    assert_eq!(a.buffer.buffer(), "if true\n");
    let mut a = App::new(&Some("fi".to_string()), 1, 0, None, None);
    assert!(a.unfinished_from_prev_command);
    a.try_submit_current_buffer(false);
    assert!(!a.mode.is_running());
}
