use flyline::agent::{AgentEntry, AgentModeCommand};
use flyline::buffer_change::{ChangeSettings, CompletionAction, FormattedPart};
use flyline::context::{CompletionContext, SubString};
use flyline::lifecycle::{
    history_reload, newline_marker, plan_resize, DrawPlan, HistoryBackend, HistoryReload,
    LoopPhase, MainLoop, PromptCodes, RunStep, ShellIntegrationLevel, TerminalEvent,
    WarmingOutcome, GitWarmingStatus, PathWarmingStatus,
};
use flyline::mouse::{MouseState, Tag};
use flyline::state::{
    ActiveSuggestions, AiOutputSelection, App, AppRunningState, ContentMode, Coord, DrawnContent,
    EndState, ExitState, FlycompPromptSelection, FuzzyHistorySource, Histories, HistoryEntry,
    KeyCode, KeyEvent, KeyEventAction, LastKeyPress, PromptPlace, SuggestionDisplay,
    MILLISECOND,
};
use flyline::suggestion::{ActiveSuggestionsBuilder, CompType, ProcessedSuggestion};
use flyline::tab_complete::{
    first_wait_ms, flycomp_command, flycomp_target, needs_path_expansion, will_run_flycomp,
    FlycompOutcome, JobStatus, PollOutcome, ProcessStatus, TabCompletionPayload,
};

fn app(text: &str) -> App {
    App::new(&Some(text.to_string()), 0, 0, None, None)
}

fn context(before: &str, word: &str) -> CompletionContext {
    CompletionContext {
        start: 0,
        before: before.to_string(),
        left: word.to_string(),
        right: String::new(),
        after: String::new(),
        is_inside_quotes: false,
        comp_types: vec![],
    }
}

fn sub(s: &str, start: usize) -> SubString {
    SubString { s: s.to_string(), start }
}

fn builder(names: &[&str]) -> ActiveSuggestionsBuilder {
    ActiveSuggestionsBuilder::from_processed(
        names
            .iter()
            .map(|n| ProcessedSuggestion::new(n.to_string(), String::new(), " ".to_string()))
            .collect(),
    )
}

fn shown(names: &[&str], word: SubString, auto_started: bool) -> Box<ActiveSuggestions> {
    Box::new(ActiveSuggestions::new(builder(names), word, 0, auto_started, DISPLAY))
}

fn key(c: char, sequence_number: u64) -> Option<LastKeyPress> {
    Some(LastKeyPress {
        key: KeyEvent { code: KeyCode::Char(c), control: false, alt: false },
        display: c.to_string(),
        context: String::new(),
        actions: vec![KeyEventAction::Other],
        sequence_number,
    })
}

fn agents() -> Vec<AgentEntry> {
    vec![AgentEntry {
        prefix: Some("?".to_string()),
        agent: AgentModeCommand { command: vec!["ask".to_string()], system_prompt: None },
    }]
}

const DISPLAY: SuggestionDisplay = SuggestionDisplay { sort_order: 2, fuzzy_mode: 7 };
const QUIET: ChangeSettings = ChangeSettings { auto_suggest: false, is_dragging: false };
const EAGER: ChangeSettings = ChangeSettings { auto_suggest: true, is_dragging: false };

fn mouse() -> MouseState {
    MouseState::new(true)
}

// ------- finishing and polling completions -----------------------------------

#[test]
fn finish_tab_complete_auto_accepts_solo_suggestion() {
    let mut a = app("mycmd bar.tx");
    let ctx = context("mycmd ", "bar.tx");
    a.finish_tab_complete(&ctx, builder(&["bar.txt"]), sub("bar.tx", 6), 1, false, &None, "", DISPLAY);
    assert_eq!(a.buffer.buffer(), "mycmd bar.txt ");
    assert_eq!(a.content_mode, ContentMode::Normal);
}

#[test]
fn several_suggestions_are_shown() {
    let mut a = app("mycmd f");
    let ctx = context("mycmd ", "f");
    let mut b = builder(&["foo1", "foo2"]);
    b.set_common_prefix();
    a.finish_tab_complete(&ctx, b, sub("f", 6), 9, false, &None, "", DISPLAY);
    assert_eq!(a.buffer.buffer(), "mycmd foo");
    match &a.content_mode {
        ContentMode::TabCompletion(s) => {
            assert_eq!(s.word_under_cursor, sub("foo", 6));
            assert_eq!(s.original_word_under_cursor, sub("foo", 6));
            assert_eq!((s.load_time, s.auto_started), (9, false));
            assert_eq!((s.sort_order, s.fuzzy_mode), (2, 7));
        }
        other => panic!("{other:?}"),
    }
}

#[test]
fn completions_that_nobody_asked_for_leave_the_text_alone() {
    let ctx = context("mycmd ", "f");
    // Nothing found, or only the word itself: they are dropped.
    for names in [&[][..], &["f"][..]] {
        let mut a = app("mycmd f");
        a.finish_tab_complete(&ctx, builder(names), sub("f", 6), 1, true, &None, "", DISPLAY);
        assert_eq!(a.content_mode, ContentMode::Normal);
        assert_eq!(a.dismissed_tab_completion_wuc.as_deref(), Some("f"));
    }
    let mut a = app("mycmd f");
    a.finish_tab_complete(&ctx, builder(&["foo"]), sub("f", 6), 1, true, &None, "", DISPLAY);
    assert_eq!(a.buffer.buffer(), "mycmd f");
    assert!(matches!(&a.content_mode, ContentMode::TabCompletion(s) if s.auto_started));
}

#[test]
fn a_command_without_completion_is_asked_about() {
    let mut a = app("tool ");
    let mut b = builder(&[]);
    b.should_run_flycomp = true;
    a.finish_tab_complete(&context("tool ", ""), b, sub("", 5), 1, false, &None, "/d/tool", DISPLAY);
    let asks = ContentMode::TabCompletionAskForFlycomp {
        command_word: "tool".to_string(),
        word_under_cursor: String::new(),
        selection: FlycompPromptSelection::Yes,
        dump_path: "/d/tool".to_string(),
        forced: false,
    };
    assert_eq!(a.content_mode, asks);

    let mut a = app("tool x");
    a.force_start_flycomp(&context("tool ", "x"), "/d/tool");
    assert!(matches!(&a.content_mode, ContentMode::TabCompletionAskForFlycomp {
        word_under_cursor, forced: true, .. } if word_under_cursor == "x"));
    let mut a = app("");
    a.content_mode = ContentMode::PromptDirSelect(1);
    a.force_start_flycomp(&context("", ""), "");
    assert_eq!(a.content_mode, ContentMode::Normal);
}

#[test]
fn starting_to_look_for_completions() {
    let ctx = context("mycmd ", "f");
    let mut a = app("mycmd f");
    a.dismissed_tab_completion_wuc = Some("f".to_string());
    let previous = Some(shown(&["foo"], sub("f", 6), true));
    a.start_tab_complete(&ctx, true, previous, Some(4), 77);
    assert_eq!(a.dismissed_tab_completion_wuc, None);
    match &a.content_mode {
        ContentMode::TabCompletionWaiting {
            job,
            wuc_substring,
            start_time,
            auto_started,
            last_active_suggestions,
        } => {
            assert_eq!((*job, *start_time, *auto_started), (4, 77, true));
            assert_eq!(*wuc_substring, sub("f", 6));
            assert!(last_active_suggestions.is_some());
        }
        other => panic!("{other:?}"),
    }
    assert!(a.take_active_suggestions().is_some());
    assert_eq!(a.content_mode, ContentMode::Normal);
    assert!(a.take_active_suggestions().is_none());
    a.content_mode = ContentMode::PromptDirSelect(2);
    assert!(a.take_active_suggestions().is_none());
    assert_eq!(a.content_mode, ContentMode::PromptDirSelect(2));
    a.start_tab_complete(&ctx, false, None, None, 78);
    assert_eq!(a.content_mode, ContentMode::Normal);
    assert_eq!((first_wait_ms(true), first_wait_ms(false)), (1, 10));
}

#[test]
fn when_a_completion_is_made_for_a_command() {
    assert!(will_run_flycomp(&context("tool ", ""), true, false, false));
    assert!(will_run_flycomp(&context("tool ", "--"), true, false, false));
    assert!(!will_run_flycomp(&context("tool ", "-x"), true, false, false));
    assert!(!will_run_flycomp(&context("tool ", ""), false, false, false));
    assert!(!will_run_flycomp(&context("tool ", ""), true, true, false));
    assert!(!will_run_flycomp(&context("tool ", ""), true, false, true));
}

#[test]
fn polling_for_completions() {
    let ctx = context("mycmd ", "f");
    let nothing = PollOutcome { redraw: false, buffer_changed: false };
    let given_up = PollOutcome { redraw: true, buffer_changed: false };
    let waiting = || {
        let mut a = app("mycmd f");
        a.start_tab_complete(&ctx, false, None, Some(1), 0);
        a
    };
    let mut a = app("mycmd f");
    assert_eq!(a.poll_tab_completion(&ctx, JobStatus::Disconnected, "", DISPLAY), nothing);

    let mut a = waiting();
    let r = a.poll_tab_completion(&ctx, JobStatus::Empty(ProcessStatus::Running), "", DISPLAY);
    assert_eq!(r, nothing);
    assert!(matches!(a.content_mode, ContentMode::TabCompletionWaiting { .. }));

    for status in [
        JobStatus::Disconnected,
        JobStatus::Ready(None),
        JobStatus::Empty(ProcessStatus::Exited(0)),
        JobStatus::Empty(ProcessStatus::Signaled("SIGKILL".to_string())),
    ] {
        let mut a = waiting();
        assert_eq!(a.poll_tab_completion(&ctx, status, "", DISPLAY), given_up);
        assert_eq!(a.content_mode, ContentMode::Normal);
        assert_eq!(a.buffer.buffer(), "mycmd f");
    }

    let mut a = waiting();
    let payload = TabCompletionPayload { builder: builder(&["foo"]), elapsed: 3, solo: None };
    let r = a.poll_tab_completion(&ctx, JobStatus::Ready(Some(payload)), "", DISPLAY);
    assert_eq!(r, PollOutcome { redraw: true, buffer_changed: true });
    assert_eq!(a.buffer.buffer(), "mycmd foo ");
}

#[test]
fn polling_for_a_completion_that_is_made() {
    let running = || {
        let mut a = app("tool ");
        a.run_flycomp("tool".to_string(), String::new(), 0, Some(3));
        a
    };
    let failure = |status: JobStatus<String>| {
        let mut a = running();
        assert_eq!(a.poll_flycomp(status), FlycompOutcome::Failed);
        match a.content_mode {
            ContentMode::TabCompletionFlycompResult { command_word, error_message } => {
                assert_eq!(command_word, "tool");
                error_message
            }
            other => panic!("{other:?}"),
        }
    };
    assert_eq!(failure(JobStatus::Disconnected), "flycomp subshell exited without payload");
    assert_eq!(
        failure(JobStatus::Empty(ProcessStatus::Exited(-2))),
        "flycomp failed with exit code -2"
    );
    assert_eq!(
        failure(JobStatus::Empty(ProcessStatus::Signaled("SIGKILL".to_string()))),
        "flycomp killed by signal SIGKILL"
    );
    for status in
        [JobStatus::Empty(ProcessStatus::Running), JobStatus::Empty(ProcessStatus::Exited(0))]
    {
        let mut a = running();
        assert_eq!(a.poll_flycomp(status), FlycompOutcome::Waiting);
        assert!(matches!(a.content_mode, ContentMode::TabCompletionRunningFlycomp { .. }));
    }
    let mut a = running();
    assert_eq!(
        a.poll_flycomp(JobStatus::Ready("complete".to_string())),
        FlycompOutcome::Finished {
            command_word: "tool".to_string(),
            script: "complete".to_string()
        }
    );
    assert_eq!(a.content_mode, ContentMode::Normal);
    assert_eq!(a.poll_flycomp(JobStatus::Disconnected), FlycompOutcome::Waiting);
    a.run_flycomp("tool".to_string(), String::new(), 0, None);
    assert_eq!(a.content_mode, ContentMode::Normal);
}

#[test]
fn the_command_for_which_a_completion_is_made() {
    assert_eq!(flycomp_command("t", &Some("~/bin/tool -x".to_string())), "~/bin/tool");
    assert_eq!(flycomp_command("t", &Some(String::new())), "t");
    assert_eq!(flycomp_command("t", &None), "t");
    assert!(needs_path_expansion("~/bin/tool") && needs_path_expansion("./tool"));
    assert!(!needs_path_expansion("tool"));
    assert_eq!(flycomp_target("~/bin/tool", "/home/u/bin/tool"), "/home/u/bin/tool");
    assert_eq!(flycomp_target("~/bin/tool", ""), "~/bin/tool");
    assert_eq!(flycomp_target("tool", "/usr/bin/tool"), "tool");
}

// ------- changes of the text -------------------------------------------------

fn action(a: &mut App, ctx: &CompletionContext, s: &ChangeSettings) -> Option<CompletionAction> {
    a.on_possible_buffer_change(ctx, &vec![], s).action
}

#[test]
fn completions_start_by_themselves_where_wanted() {
    let ctx = context("", "l");
    let mut a = app("l");
    assert_eq!(action(&mut a, &ctx, &EAGER), None);
    a.last_key = key('l', 1);
    assert_eq!(
        action(&mut a, &ctx, &EAGER),
        Some(CompletionAction::Restart { carry_over: false })
    );
    assert_eq!(a.last_processed_key_sequence, 1);
    assert_eq!(action(&mut a, &ctx, &QUIET), None);
    a.dismissed_tab_completion_wuc = Some("l".to_string());
    assert_eq!(action(&mut a, &ctx, &EAGER), Some(CompletionAction::Keep));
    assert_eq!(a.dismissed_tab_completion_wuc.as_deref(), Some("l"));
}

#[test]
fn nothing_gets_in_the_way() {
    let ctx = context("", "l");
    let dragging = ChangeSettings { is_dragging: true, ..EAGER };
    let mut a = app("l");
    a.last_key = key('l', 1);
    a.dismissed_tab_completion_wuc = Some("l".to_string());
    assert_eq!(action(&mut a, &ctx, &dragging), Some(CompletionAction::Discard));
    assert_eq!(a.dismissed_tab_completion_wuc, None);
    for walking in [
        KeyEventAction::PrevHistoryEntry,
        KeyEventAction::NextHistoryEntry,
        KeyEventAction::FuzzyHistoryAcceptEntry,
        KeyEventAction::FuzzyHistoryAcceptAndEdit,
        KeyEventAction::FuzzyHistoryAcceptAndRun,
    ] {
        let mut a = app("l");
        a.last_key = key('l', 1);
        a.last_key.as_mut().unwrap().actions.push(walking);
        a.content_mode = ContentMode::TabCompletion(shown(&["ls"], sub("l", 0), true));
        assert_eq!(action(&mut a, &ctx, &EAGER), Some(CompletionAction::Discard));
        assert_eq!(a.content_mode, ContentMode::Normal);
    }
    let mut a = app("");
    a.last_key = key('x', 1);
    assert_eq!(action(&mut a, &context("", ""), &EAGER), Some(CompletionAction::Discard));
}

#[test]
fn triggers_start_completions_anew() {
    let restarts = |c: char, word: &str| {
        let mut a = app(word);
        a.last_key = key(c, 1);
        a.content_mode = ContentMode::TabCompletion(shown(&["x"], sub(word, 0), true));
        let r = a.on_possible_buffer_change(&context("", word), &vec![], &QUIET);
        (r.action, r.carried.is_some())
    };
    for c in ['/', '$', '~', '+', '='] {
        assert_eq!(
            restarts(c, "ab"),
            (Some(CompletionAction::Restart { carry_over: false }), false),
            "{c}"
        );
    }
    assert_eq!(restarts('.', "ab"), (Some(CompletionAction::Restart { carry_over: true }), true));
    assert_eq!(restarts('-', "--"), (Some(CompletionAction::Restart { carry_over: true }), true));
    assert_eq!(restarts('-', "a-"), (Some(CompletionAction::Keep), false));
    assert_eq!(restarts('a', "ab"), (Some(CompletionAction::Keep), false));

    // A key that was taken into account before triggers nothing, nor does one with
    // a modifier, nor do completions that the user asked for.
    let mut a = app("ab");
    a.last_key = key('/', 1);
    a.last_processed_key_sequence = 1;
    a.content_mode = ContentMode::TabCompletion(shown(&["x"], sub("ab", 0), true));
    assert_eq!(action(&mut a, &context("", "ab"), &QUIET), Some(CompletionAction::Keep));
    a.last_key = key('/', 2);
    a.last_key.as_mut().unwrap().key.control = true;
    assert_eq!(action(&mut a, &context("", "ab"), &QUIET), Some(CompletionAction::Keep));
    a.last_key = key('/', 3);
    a.content_mode = ContentMode::TabCompletion(shown(&["x"], sub("ab", 0), false));
    assert_eq!(action(&mut a, &context("", "ab"), &QUIET), Some(CompletionAction::Keep));
}

#[test]
fn completions_on_the_screen_follow_the_word() {
    let decide = |old: SubString, auto: bool, ctx: &CompletionContext, s: &ChangeSettings| {
        let mut a = app("some text");
        a.last_key = key('x', 1);
        a.content_mode = ContentMode::TabCompletion(shown(&["x"], old, auto));
        let r = a.on_possible_buffer_change(ctx, &vec![], s);
        (r.action.unwrap(), a)
    };
    // One character more or less filters them.
    let (act, a) = decide(sub("ab", 2), false, &context("x ", "abc"), &QUIET);
    assert_eq!(act, CompletionAction::Update);
    match &a.content_mode {
        ContentMode::TabCompletion(s) => {
            assert_eq!(s.word_under_cursor, sub("abc", 2));
            assert_eq!(s.original_word_under_cursor, sub("ab", 2));
        }
        other => panic!("{other:?}"),
    }
    let (act, _) = decide(sub("ab", 2), false, &context("x ", "a"), &QUIET);
    assert_eq!(act, CompletionAction::Update);
    // More than that starts them anew, and so does a word shorter than the first.
    let (act, _) = decide(sub("ab", 2), false, &context("x ", "abcd"), &QUIET);
    assert_eq!(act, CompletionAction::Restart { carry_over: true });
    let (act, a) = decide(sub("ab", 2), true, &context("x ", "a"), &QUIET);
    assert_eq!(act, CompletionAction::Restart { carry_over: true });
    assert_eq!(a.content_mode, ContentMode::Normal);
    // Another word, or none, discards them.
    let (act, _) = decide(sub("ab", 2), false, &context("x ", ""), &QUIET);
    assert_eq!(act, CompletionAction::Discard);
    let (act, _) = decide(sub("ab", 2), false, &context("xyz ", "abc"), &QUIET);
    assert_eq!(act, CompletionAction::Discard);
    let (act, _) = decide(sub("ab", 2), false, &context("xyz ", "abc"), &EAGER);
    assert_eq!(act, CompletionAction::Restart { carry_over: false });
    // A pattern is expanded anew as it is typed.
    let mut globbing = context("x ", "ab*");
    globbing.comp_types = vec![CompType::GlobExpansion];
    let (act, _) = decide(sub("ab", 2), true, &globbing, &QUIET);
    assert_eq!(act, CompletionAction::Restart { carry_over: true });
    let (act, _) = decide(sub("ab", 2), false, &globbing, &QUIET);
    assert_eq!(act, CompletionAction::Update);
}

#[test]
fn completions_that_are_awaited_follow_the_word() {
    let decide = |old: &str, auto: bool, word: &str, s: &ChangeSettings| {
        let mut a = app("some text");
        a.start_tab_complete(&context("x ", old), auto, None, Some(1), 0);
        a.last_key = key('x', 1);
        a.on_possible_buffer_change(&context("x ", word), &vec![], s).action.unwrap()
    };
    assert_eq!(decide("ab", true, "abc", &QUIET), CompletionAction::Keep);
    assert_eq!(decide("ab", true, "a", &QUIET), CompletionAction::Restart { carry_over: true });
    assert_eq!(decide("ab", false, "a", &QUIET), CompletionAction::Keep);
    assert_eq!(decide("ab", false, "xyz", &QUIET), CompletionAction::Discard);
    assert_eq!(decide("ab", false, "xyz", &EAGER), CompletionAction::Restart { carry_over: false });
}

#[test]
fn the_text_opens_and_closes_the_search_through_questions() {
    let ctx = context("", "x");
    let mut a = app("? x");
    let r = a.on_possible_buffer_change(&ctx, &agents(), &QUIET);
    assert!(r.warm_agent_history);
    assert_eq!(
        a.content_mode,
        ContentMode::FuzzyHistorySearch(FuzzyHistorySource::AgentPrompts)
    );
    let r = a.on_possible_buffer_change(&ctx, &agents(), &QUIET);
    assert!(!r.warm_agent_history);
    a.buffer.replace_buffer("x");
    a.on_possible_buffer_change(&ctx, &agents(), &QUIET);
    assert_eq!(a.content_mode, ContentMode::Normal);
    // Not for a text for which it was dismissed, nor while the history is walked.
    let mut a = app("? x");
    a.dismissed_agent_mode_buffer = Some("? x".to_string());
    a.on_possible_buffer_change(&ctx, &agents(), &QUIET);
    assert_eq!(a.content_mode, ContentMode::Normal);
    a.buffer.replace_buffer("? xy");
    a.on_possible_buffer_change(&ctx, &agents(), &QUIET);
    assert_eq!(a.dismissed_agent_mode_buffer, None);
    assert!(matches!(a.content_mode, ContentMode::FuzzyHistorySearch(_)));
    let mut a = app("? x");
    a.last_key = key('x', 1);
    a.last_key.as_mut().unwrap().actions = vec![KeyEventAction::PrevHistoryEntry];
    a.on_possible_buffer_change(&ctx, &agents(), &QUIET);
    assert_eq!(a.content_mode, ContentMode::Normal);
}

#[test]
fn other_modes_follow_the_text() {
    let ctx = context("", "x");
    let mut a = app("x");
    a.content_mode = ContentMode::PromptDirSelect(1);
    a.on_possible_buffer_change(&ctx, &vec![], &QUIET);
    assert_eq!(a.content_mode, ContentMode::Normal);
    let mut a = app("x");
    a.buffer.cursor = 0;
    a.content_mode = ContentMode::PromptDirSelect(1);
    a.on_possible_buffer_change(&ctx, &vec![], &QUIET);
    assert_eq!(a.content_mode, ContentMode::PromptDirSelect(1));

    let mut a = app("x");
    a.agent_started(String::new(), Err("e".to_string()), 0);
    a.on_possible_buffer_change(&ctx, &vec![], &QUIET);
    assert!(matches!(a.content_mode, ContentMode::AgentError { .. }));
    a.buffer.replace_buffer("xy");
    a.on_possible_buffer_change(&ctx, &vec![], &QUIET);
    assert_eq!(a.content_mode, ContentMode::Normal);

    let mut a = app("x");
    a.content_mode = ContentMode::AgentOutputSelection(AiOutputSelection {
        suggestions: vec!["ls".to_string()],
        selected_idx: Some(0),
        last_buffer_content: "x".to_string(),
    });
    a.on_possible_buffer_change(&ctx, &vec![], &QUIET);
    assert!(matches!(&a.content_mode, ContentMode::AgentOutputSelection(s)
        if s.selected_idx == Some(0)));
    a.buffer.replace_buffer("xy");
    a.on_possible_buffer_change(&ctx, &vec![], &QUIET);
    assert!(matches!(&a.content_mode, ContentMode::AgentOutputSelection(s)
        if s.selected_idx.is_none() && s.last_buffer_content == "xy"));
}

#[test]
fn settling_twice_changes_nothing() {
    let modes = || {
        vec![
            ContentMode::PromptDirSelect(1),
            ContentMode::FuzzyHistorySearch(FuzzyHistorySource::AgentPrompts),
            ContentMode::AgentError {
                message: "m".to_string(),
                raw_output: String::new(),
                suggested_setup_command: None,
            },
            ContentMode::AgentOutputSelection(AiOutputSelection {
                suggestions: vec!["ls".to_string()],
                selected_idx: Some(0),
                last_buffer_content: String::new(),
            }),
        ]
    };
    for text in ["? list", "ls"] {
        for mode in modes() {
            let mut a = app(text);
            a.content_mode = mode;
            a.on_possible_buffer_change(&context("", text), &agents(), &QUIET);
            let mut b = app(text);
            std::mem::swap(&mut a.content_mode, &mut b.content_mode);
            let once = format!("{:?}", b.content_mode);
            b.on_possible_buffer_change(&context("", text), &agents(), &QUIET);
            assert_eq!(format!("{:?}", b.content_mode), once);
        }
    }
}

#[test]
fn an_agents_failure_lasts_as_long_as_the_text() {
    let mut a = app("? list");
    a.agent_started("ask".to_string(), Err("no such file".to_string()), 0);
    a.on_possible_buffer_change(&context("", "? list"), &agents(), &QUIET);
    assert!(matches!(a.content_mode, ContentMode::AgentError { .. }));
    a.buffer.insert_str("s");
    a.on_possible_buffer_change(&context("", "? lists"), &agents(), &QUIET);
    assert_eq!(
        a.content_mode,
        ContentMode::FuzzyHistorySearch(FuzzyHistorySource::AgentPrompts)
    );
}

#[test]
fn hints_for_the_text() {
    let part = |start, end, tooltip: Option<&str>| FormattedPart {
        start,
        end,
        tooltip: tooltip.map(|t| t.to_string()),
    };
    let entry = || {
        Some((HistoryEntry { command: "ls -l".to_string(), raw_output: None }, " -l".to_string()))
    };
    let mut a = app("ls");
    let parts = vec![part(0, 2, Some("lists")), part(2, 2, Some("more")), part(2, 3, None), part(3, 4, Some("far"))];
    a.update_hints(true, entry(), &parts);
    assert_eq!(a.tooltip.as_deref(), Some("more"));
    assert_eq!(a.inline_history_suggestion, entry());
    a.dismissed_inline_suggestion_buffer = Some("ls".to_string());
    a.update_hints(true, entry(), &vec![]);
    assert_eq!((a.inline_history_suggestion.is_none(), a.tooltip.is_none()), (true, true));
    a.dismissed_inline_suggestion_buffer = Some("l".to_string());
    a.update_hints(true, entry(), &vec![]);
    assert_eq!(a.dismissed_inline_suggestion_buffer, None);
    assert!(a.inline_history_suggestion.is_some());
    a.update_hints(false, entry(), &vec![]);
    assert!(a.inline_history_suggestion.is_none());
    let mut a = app("");
    a.update_hints(true, entry(), &vec![]);
    assert!(a.inline_history_suggestion.is_none());
    assert!(!a.formats_as_agent());
    a.content_mode = ContentMode::FuzzyHistorySearch(FuzzyHistorySource::PastCommands);
    assert!(!a.formats_as_agent());
    a.content_mode = ContentMode::FuzzyHistorySearch(FuzzyHistorySource::AgentPrompts);
    assert!(a.formats_as_agent());
}

// ------- the course of a session ---------------------------------------------

#[test]
fn a_session_begins() {
    let a = App::new(&None, 0, 5, Some(1), None);
    assert_eq!(a.buffer.buffer(), "");
    assert!(a.mode.is_running() && a.term_has_focus && !a.unfinished_from_prev_command);
    assert_eq!((a.app_start_time, a.last_draw_time, a.path_warming_job), (5, 5, Some(1)));
    assert_eq!(a.content_mode, ContentMode::Normal);
    assert!(App::new(&None, 2, 5, None, None).unfinished_from_prev_command);
}

#[test]
fn the_history_is_read_as_its_place_requires() {
    let plan = |from_shell, from_own_file, reset_navigation| HistoryReload {
        from_shell,
        from_own_file,
        reset_navigation,
    };
    assert_eq!(history_reload(HistoryBackend::Bash, true), plan(true, false, false));
    assert_eq!(history_reload(HistoryBackend::Flyline, true), plan(false, true, true));
    assert_eq!(history_reload(HistoryBackend::Flyline, false), plan(false, false, true));
}

#[test]
fn the_mark_of_an_inserted_newline() {
    assert_eq!(
        newline_marker(30, "<b>", "</b>", "<k>"),
        "<b>[flyline inserted newline]</b>    \r<k>"
    );
    assert_eq!(newline_marker(10, "", "", ""), "[flyline inserted newline]\r");
}

const NOWHERE: PromptPlace = PromptPlace { start: None, end: None };

fn content(row: u16, viewport_start: Option<u16>) -> DrawnContent {
    let prompt = PromptPlace {
        start: Some(Coord { row, col: 0 }),
        end: Some(Coord { row, col: 5 }),
    };
    DrawnContent { viewport_start, prompt }
}

fn drawn(succeeded: bool, content: Option<DrawnContent>, resend: bool) -> RunStep {
    RunStep::Drawn {
        succeeded,
        content,
        viewport_top: Some(3),
        integration: ShellIntegrationLevel::OnlyPromptPos,
        resend_prompt_codes: resend,
        now: 2000 * MILLISECOND,
    }
}

fn checked(asked: bool, ran_traps: bool, terminating_signal: i32, now: u64) -> RunStep {
    RunStep::Checked { asked, refresh: 10 * MILLISECOND, ran_traps, terminating_signal, now }
}

fn event(event: TerminalEvent) -> RunStep {
    RunStep::Event { event, smart_mouse: true, now: 9 }
}

fn at(phase: LoopPhase, redraw: bool) -> MainLoop {
    MainLoop { phase, redraw }
}

#[test]
fn rounds_begin() {
    let mut a = app("x");
    a.last_resize_time = Some(0);
    let mut begin = |now| {
        let mut l = MainLoop::new();
        assert_eq!(l, at(LoopPhase::Begin, true));
        let r = a.run(&mut l, &RunStep::Begun { now, delayed_startup: 50 * MILLISECOND });
        assert_eq!(l, at(LoopPhase::Poll, true));
        (r.start_delayed, r.ask_cursor, a.has_run_delayed_startup, a.last_resize_time)
    };
    assert_eq!(begin(49 * MILLISECOND), (false, false, None, Some(0)));
    assert_eq!(begin(50 * MILLISECOND), (true, false, Some(50 * MILLISECOND), Some(0)));
    assert_eq!(begin(150 * MILLISECOND), (false, true, Some(50 * MILLISECOND), None));
}

#[test]
fn rounds_draw_what_has_changed() {
    let mut a = app("x");
    a.leader_key_active_at = Some(0);
    let mut poll = |redraw, polled, now, mode: AppRunningState| {
        a.mode = mode;
        let mut l = at(LoopPhase::Poll, redraw);
        a.run(&mut l, &RunStep::Polled { redraw: polled, now });
        l
    };
    let running = || AppRunningState::Running;
    let over = || AppRunningState::Exiting(ExitState::Eof);
    assert_eq!(poll(false, false, 0, running()), at(LoopPhase::Wait, false));
    assert_eq!(poll(false, false, 0, over()), at(LoopPhase::Left, false));
    assert_eq!(poll(true, false, 0, over()), at(LoopPhase::Draw, true));
    assert_eq!(poll(false, true, 999 * MILLISECOND, running()), at(LoopPhase::Draw, true));
    assert_eq!(poll(false, false, 999 * MILLISECOND, running()), at(LoopPhase::Wait, false));
    assert_eq!(poll(false, false, 1000 * MILLISECOND, running()), at(LoopPhase::Draw, true));
    assert_eq!(a.leader_key_active_at, None);
}

#[test]
fn the_terminal_is_told_where_the_prompt_is() {
    let mut a = app("x");
    let mut draw = |content, resend| {
        let mut l = at(LoopPhase::Draw, true);
        let r = a.run(&mut l, &drawn(true, content, resend));
        assert_eq!(l, at(LoopPhase::Wait, true));
        r.prompt_codes
    };
    let (first, second) = (content(0, None), content(1, Some(8)));
    assert_eq!(
        draw(Some(first), false),
        Some(PromptCodes { previous: NOWHERE, current: first.prompt, is_running: true })
    );
    assert_eq!(
        draw(Some(second), false),
        Some(PromptCodes { previous: first.prompt, current: second.prompt, is_running: true })
    );
    assert_eq!(
        draw(Some(first), true),
        Some(PromptCodes { previous: NOWHERE, current: first.prompt, is_running: true })
    );
    assert_eq!(a.last_draw_time, 2000 * MILLISECOND);
    assert_eq!(a.last_contents, Some(content(0, Some(3))));
    let quiet = RunStep::Drawn {
        succeeded: true,
        content: None,
        viewport_top: None,
        integration: ShellIntegrationLevel::Nothing,
        resend_prompt_codes: false,
        now: 1,
    };
    assert_eq!(a.run(&mut at(LoopPhase::Draw, true), &quiet).prompt_codes, None);
    assert_eq!(a.last_contents, None);
}

#[test]
fn a_drawing_that_fails_ends_the_session() {
    let mut a = app("x");
    let mut l = at(LoopPhase::Draw, true);
    let r = a.run(&mut l, &drawn(false, Some(content(0, None)), false));
    assert_eq!(l.phase, LoopPhase::Left);
    assert_eq!(r.prompt_codes, None);
    assert_eq!(a.mode, AppRunningState::Exiting(ExitState::WithoutCommand));
    assert_eq!(a.last_contents, Some(content(0, None)));
    assert_eq!(a.last_draw_time, 0);
}

#[test]
fn rounds_end() {
    let mut a = app("x");
    let mut check = |redraw, step: RunStep| {
        let mut l = at(LoopPhase::Check, redraw);
        a.run(&mut l, &step);
        l
    };
    let soon = 10 * MILLISECOND;
    assert_eq!(check(false, checked(false, false, 0, soon)), at(LoopPhase::Begin, false));
    assert_eq!(check(true, checked(false, false, 0, soon)), at(LoopPhase::Begin, true));
    assert_eq!(check(false, checked(true, false, 0, soon)), at(LoopPhase::Begin, true));
    assert_eq!(check(false, checked(false, true, 0, soon)), at(LoopPhase::Begin, true));
    assert_eq!(check(false, checked(false, false, 0, soon + 1)), at(LoopPhase::Begin, true));
    assert_eq!(check(false, checked(false, false, 15, soon)).phase, LoopPhase::Left);
    assert_eq!(a.mode, AppRunningState::Exiting(ExitState::WithoutCommand));
}

#[test]
fn a_command_is_drawn_before_the_loop_ends() {
    let mut a = app("ls");
    let mut l = at(LoopPhase::Wait, false);
    a.run(&mut l, &event(TerminalEvent::Key));
    assert_eq!(l, at(LoopPhase::Check, true));
    a.try_submit_current_buffer(true);
    a.run(&mut l, &checked(false, false, 0, 0));
    a.run(&mut l, &RunStep::Begun { now: 0, delayed_startup: 0 });
    a.run(&mut l, &RunStep::Polled { redraw: false, now: 0 });
    assert_eq!(l, at(LoopPhase::Draw, true));
    let r = a.run(&mut l, &drawn(true, None, false));
    assert_eq!(l.phase, LoopPhase::Left);
    assert!(!r.prompt_codes.unwrap().is_running);
    assert_eq!(
        a.end_state(&mouse(), 0).exit_state,
        ExitState::WithCommand("ls".to_string())
    );
}

#[test]
fn the_loop_ends_where_nothing_can_be_read() {
    let mut a = app("x");
    let mut l = at(LoopPhase::Wait, true);
    a.run(&mut l, &event(TerminalEvent::FocusOut));
    assert_eq!(l, at(LoopPhase::Check, false));
    let mut l = at(LoopPhase::Wait, true);
    assert!(a.run(&mut l, &event(TerminalEvent::FocusIn)).enable_mouse);
    let mut l = at(LoopPhase::Wait, true);
    assert!(a.run(&mut l, &event(TerminalEvent::Paste("y".to_string()))).buffer_changed);
    assert_eq!(l, at(LoopPhase::Check, true));
    let mut l = at(LoopPhase::Wait, true);
    a.run(&mut l, &event(TerminalEvent::Failed));
    assert_eq!(l.phase, LoopPhase::Left);
    assert_eq!(a.mode, AppRunningState::Exiting(ExitState::Eof));
}

#[test]
fn events_of_the_terminal() {
    let mut a = app("one two");
    a.buffer.selection = Some(4);
    let r = a.handle_event(&TerminalEvent::Paste("2\r\n".to_string()), true, 1);
    assert!(r.redraw && r.buffer_changed);
    assert_eq!(a.buffer.buffer(), "one 2\n");
    assert_eq!((a.buffer.cursor, a.buffer.selection), (6, None));

    let r = a.handle_event(&TerminalEvent::Key, true, 7);
    assert_eq!((r.redraw, a.last_activity_time), (true, 7));
    let r = a.handle_event(&TerminalEvent::Mouse, true, 8);
    assert_eq!((r.redraw, a.last_activity_time), (false, 8));
    let r = a.handle_event(&TerminalEvent::Resized { cols: 80, rows: 24 }, true, 9);
    assert!(r.redraw && a.needs_full_redraw);
    assert_eq!(a.last_resize_time, Some(9));
    let r = a.handle_event(&TerminalEvent::FocusOut, true, 10);
    assert!(!r.redraw && !a.term_has_focus);
    let r = a.handle_event(&TerminalEvent::FocusIn, true, 10);
    assert!(r.enable_mouse && a.term_has_focus);
    assert!(!a.handle_event(&TerminalEvent::FocusIn, false, 10).enable_mouse);
    assert!(!a.handle_event(&TerminalEvent::Other, true, 10).redraw);
    assert!(a.handle_event(&TerminalEvent::Timeout, true, 10).redraw);
    assert!(a.handle_event(&TerminalEvent::Failed, true, 10).leave);
    assert_eq!(a.mode, AppRunningState::Exiting(ExitState::Eof));
}

#[test]
fn moving_lines_out_of_the_way() {
    let p = plan_resize(4, 24);
    assert_eq!((p.rows_up, p.delete_lines), (4, 5));
    let p = plan_resize(30, 24);
    assert_eq!((p.rows_up, p.delete_lines), (30, 24));
    assert_eq!(plan_resize(u16::MAX, u16::MAX).delete_lines, 65535);
}

#[test]
fn planning_a_drawing() {
    let mut a = app("some text");
    a.needs_full_redraw = true;
    let m = mouse();
    let p = a.plan_draw(&m, 30, 5, 24, true);
    assert_eq!(
        p,
        DrawPlan {
            resync_size: true,
            clear_screen: false,
            grow_to: Some(24),
            show_terminal_cursor: true,
            full_redraw: true,
            resend_prompt_codes: true,
        }
    );
    assert!(!a.needs_full_redraw);
    a.needs_screen_cleared = true;
    let p = a.plan_draw(&m, 3, 5, 24, false);
    assert!(p.clear_screen && p.resend_prompt_codes && !p.full_redraw && !p.show_terminal_cursor);
    assert_eq!(p.grow_to, None);
    // A drag through the text hides the cursor.
    a.buffer.selection = Some(0);
    let dragging = MouseState {
        left_button_down: true,
        last_mouse_over_cell_semantic: Some(Tag::Command(2)),
        ..m
    };
    assert!(!a.plan_draw(&dragging, 3, 5, 24, true).show_terminal_cursor);
    assert!(a.plan_draw(&m, 3, 5, 24, true).show_terminal_cursor);
    a.mode = AppRunningState::Exiting(ExitState::Eof);
    assert!(a.plan_draw(&m, 3, 5, 24, false).show_terminal_cursor);
    a.after_cooked_terminal();
    assert!(a.needs_full_redraw);
}

#[test]
fn jobs_that_fill_caches() {
    let outcome = |redraw, apply_payload, reset_cache| WarmingOutcome {
        redraw,
        apply_payload,
        reset_cache,
    };
    let mut a = App::new(&None, 0, 0, Some(1), Some(2));
    assert_eq!(a.poll_path_warming(PathWarmingStatus::Empty), outcome(false, false, false));
    assert_eq!(a.path_warming_job, Some(1));
    assert_eq!(a.poll_path_warming(PathWarmingStatus::Ready), outcome(true, true, false));
    assert_eq!(a.poll_path_warming(PathWarmingStatus::Ready), outcome(false, false, false));
    a.path_warming_job = Some(4);
    assert_eq!(a.poll_path_warming(PathWarmingStatus::Disconnected), outcome(true, false, false));
    let none = GitWarmingStatus::Ready { in_repository: false };
    assert_eq!(a.poll_git_warming(GitWarmingStatus::Empty), outcome(false, false, false));
    assert_eq!(a.poll_git_warming(none), outcome(true, false, true));
    assert_eq!((a.path_warming_job, a.git_warming_job), (None, None));
    a.git_warming_job = Some(3);
    assert_eq!(a.poll_git_warming(GitWarmingStatus::Disconnected), outcome(true, false, false));
    a.git_warming_job = Some(5);
    let full = GitWarmingStatus::Ready { in_repository: true };
    assert_eq!(a.poll_git_warming(full), outcome(true, true, false));
    assert_eq!(a.git_warming_job, None);
}

#[test]
fn where_the_content_starts() {
    let mut a = app("x");
    assert_eq!(a.sync_viewport_top_from_cpr(Some(10), 3), Some(7));
    assert_eq!(a.last_contents, None);
    a.last_contents = Some(content(1, None));
    assert_eq!(a.sync_viewport_top_from_cpr(Some(2), 3), Some(0));
    assert_eq!(a.last_contents, Some(content(1, Some(0))));
    assert_eq!(a.sync_viewport_top_from_cpr(None, 3), None);
    assert_eq!(a.last_contents, Some(content(1, Some(0))));
}

#[test]
fn idleness() {
    let a = app("x");
    assert!(!a.is_idle(29_999_999_999));
    assert!(a.is_idle(30_000_000_000));
}

#[test]
fn a_session_ends() {
    let ended = |mode: AppRunningState, started: Option<u64>, m: MouseState| {
        let mut a = app("x");
        a.mode = mode;
        a.has_run_delayed_startup = started;
        a.end_state(&m, 200 * MILLISECOND)
    };
    let command = || AppRunningState::Exiting(ExitState::WithCommand("ls".to_string()));
    assert_eq!(
        ended(command(), None, mouse()),
        EndState { exit_state: ExitState::WithCommand("ls".to_string()), should_drain: false }
    );
    let eof = ended(AppRunningState::Exiting(ExitState::Eof), Some(101 * MILLISECOND), mouse());
    assert_eq!(eof, EndState { exit_state: ExitState::Eof, should_drain: true });
    let recent = MouseState { last_event_time: Some(150 * MILLISECOND), ..mouse() };
    let r = ended(AppRunningState::Running, Some(100 * MILLISECOND), recent);
    assert_eq!(r, EndState { exit_state: ExitState::WithoutCommand, should_drain: true });
}

#[test]
fn labels_and_levels() {
    assert_eq!(FuzzyHistorySource::PastCommands.label(), "Fuzzy search");
    assert_eq!(FuzzyHistorySource::CancelledCommands.label(), "Cancelled commands");
    assert_eq!(FuzzyHistorySource::AgentPrompts.label(), "Agent prompts");
    assert!(ShellIntegrationLevel::Full.marks_commands());
    assert!(!ShellIntegrationLevel::OnlyPromptPos.marks_commands());
    assert!(ShellIntegrationLevel::OnlyPromptPos.marks_prompt());
    assert!(!ShellIntegrationLevel::Nothing.marks_prompt());
}

#[test]
fn histories_by_source() {
    let mut h = Histories { past_commands: 1, cancelled_commands: 2, agent_prompts: 3 };
    assert_eq!(*h.select_fuzzy_history_manager(FuzzyHistorySource::PastCommands), 1);
    assert_eq!(*h.select_fuzzy_history_manager(FuzzyHistorySource::AgentPrompts), 3);
    *h.select_fuzzy_history_manager_mut(FuzzyHistorySource::CancelledCommands) = 9;
    assert_eq!(h, Histories { past_commands: 1, cancelled_commands: 9, agent_prompts: 3 });
}
