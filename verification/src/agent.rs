//! Agents: commands that are asked for commands.

use vstd::prelude::*;

verus! {

use crate::state::{
    AiOutput,
    AiOutputSelection,
    App,
    AppRunningState,
    ContentMode,
    ExitState,
    FuzzyHistorySource,
    HistoryEntry,
    JobId,
    Time,
};
use crate::suggestion::{copied_texts, text_view};
use crate::text::{
    chars_of,
    concat,
    concat3,
    has_char,
    join,
    joined,
    trim,
    trim_start,
    trimmed,
    trimmed_start,
    views,
    whole_text,
    without_prefix,
};

/// How an agent is run.
#[derive(Debug, PartialEq, Eq)]
pub struct AgentModeCommand {
    /// The program and its arguments; the user's text is added to them.
    pub command: Vec<String>,
    /// What the user's text is preceded by.
    pub system_prompt: Option<String>,
}

/// An agent that is set up, and the start of a text that asks for it.
#[derive(Debug, PartialEq, Eq)]
pub struct AgentEntry {
    pub prefix: Option<String>,
    pub agent: AgentModeCommand,
}

/// Whether `text` asks for the agent of `entry`.
pub open spec fn asks_for(entry: AgentEntry, text: Seq<char>) -> bool {
    match entry.prefix {
        Some(p) => p@.is_prefix_of(text),
        None => false,
    }
}

/// `i` is the first of `agents` that `text` asks for.
pub open spec fn first_asked(agents: Seq<AgentEntry>, text: Seq<char>, i: int) -> bool {
    &&& 0 <= i < agents.len()
    &&& asks_for(agents[i], text)
    &&& forall|k: int| 0 <= k < i ==> !asks_for(#[trigger] agents[k], text)
}

/// No agent is asked for.
pub open spec fn none_asked(agents: Seq<AgentEntry>, text: Seq<char>) -> bool {
    forall|k: int| 0 <= k < agents.len() ==> !asks_for(#[trigger] agents[k], text)
}

/// `i` is the first of `agents` that needs no prefix.
pub open spec fn first_default(agents: Seq<AgentEntry>, i: int) -> bool {
    &&& 0 <= i < agents.len()
    &&& agents[i].prefix is None
    &&& forall|k: int| 0 <= k < i ==> (#[trigger] agents[k]).prefix is Some
}

/// The agent that a text is for, by its position, and what it is asked.
#[derive(Debug, PartialEq, Eq)]
pub struct AgentChoice {
    pub agent: usize,
    pub text: String,
}

/// `choice` is the agent for `text`: the one asked for, else the one that needs no
/// prefix, else any.
pub open spec fn is_choice(
    agents: Seq<AgentEntry>,
    text: Seq<char>,
    needs_prefix: bool,
    choice: Option<AgentChoice>,
) -> bool {
    if !none_asked(agents, text) {
        choice matches Some(c) && first_asked(agents, text, c.agent as int) && c.text@
            == trim_start(text.skip(agents[c.agent as int].prefix->0@.len() as int))
    } else if needs_prefix || agents.len() == 0 {
        choice is None
    } else {
        choice matches Some(c) && c.text@ == text && (first_default(agents, c.agent as int) || (
        c.agent == 0 && forall|k: int|
            0 <= k < agents.len() ==> (#[trigger] agents[k]).prefix is Some))
    }
}

/// The agent that a text asks for, and what follows the prefix.
pub fn agent_with_prefix(agents: &Vec<AgentEntry>, text: &str) -> (r: Option<AgentChoice>)
    ensures
        r is None <==> none_asked(agents@, text@),
        r matches Some(c) ==> first_asked(agents@, text@, c.agent as int) && c.text@ == text@.skip(
            agents@[c.agent as int].prefix->0@.len() as int,
        ),
{
    let mut i: usize = 0;
    while i < agents.len()
        invariant
            i <= agents@.len(),
            forall|k: int| 0 <= k < i ==> !asks_for(#[trigger] agents@[k], text@),
        decreases agents@.len() - i,
    {
        if let Some(prefix) = &agents[i].prefix {
            if let Some(rest) = without_prefix(text, prefix.as_str()) {
                assert(asks_for(agents@[i as int], text@));
                return Some(AgentChoice { agent: i, text: rest });
            }
        }
        i = i + 1;
    }
    None
}

/// The agent for a text.
pub fn choose_agent(agents: &Vec<AgentEntry>, text: &str, needs_prefix: bool) -> (r: Option<
    AgentChoice,
>)
    ensures
        is_choice(agents@, text@, needs_prefix, r),
{
    if let Some(found) = agent_with_prefix(agents, text) {
        let rest = trimmed_start(found.text.as_str());
        return Some(AgentChoice { agent: found.agent, text: rest });
    }
    if needs_prefix || agents.len() == 0 {
        return None;
    }
    let mut i: usize = 0;
    while i < agents.len()
        invariant
            i <= agents@.len(),
            agents@.len() > 0,
            !needs_prefix,
            none_asked(agents@, text@),
            forall|k: int| 0 <= k < i ==> (#[trigger] agents@[k]).prefix is Some,
        decreases agents@.len() - i,
    {
        if agents[i].prefix.is_none() {
            return Some(AgentChoice { agent: i, text: text.to_owned() });
        }
        i = i + 1;
    }
    Some(AgentChoice { agent: 0, text: text.to_owned() })
}

/// `s` with each single quote written so that it can stand in single quotes.
pub open spec fn escape_quotes(s: Seq<char>) -> Seq<char>
    decreases s.len(),
{
    if s.len() == 0 {
        Seq::empty()
    } else {
        escape_quotes(s.drop_last()) + (if s.last() == '\'' {
            seq!['\'', '\\', '\'', '\'']
        } else {
            seq![s.last()]
        })
    }
}

/// A word as it is shown: in single quotes where it holds a space.
pub open spec fn shown_word(word: Seq<char>) -> Seq<char> {
    if word.contains(' ') {
        "'"@ + escape_quotes(word) + "'"@
    } else {
        word
    }
}

/// The words of a command as they are shown.
pub open spec fn shown_command(words: Seq<Seq<char>>) -> Seq<char> {
    join(words.map_values(|w: Seq<char>| shown_word(w)), " "@)
}

fn escaped(s: &str) -> (r: String)
    ensures
        r@ == escape_quotes(s@),
{
    let a = chars_of(s);
    let mut out: Vec<char> = Vec::new();
    let mut i: usize = 0;
    while i < a.len()
        invariant
            a@ == s@,
            i <= a@.len(),
            out@ == escape_quotes(s@.take(i as int)),
        decreases a@.len() - i,
    {
        let ghost before = out@;
        assert(s@.take(i + 1).drop_last() =~= s@.take(i as int));
        if a[i] == '\'' {
            out.push('\'');
            out.push('\\');
            out.push('\'');
            out.push('\'');
            assert(out@ =~= before + seq!['\'', '\\', '\'', '\'']);
        } else {
            out.push(a[i]);
            assert(out@ =~= before + seq![a@[i as int]]);
        }
        i = i + 1;
    }
    assert(s@.take(s@.len() as int) =~= s@);
    whole_text(&out)
}

fn show_word(word: &str) -> (r: String)
    ensures
        r@ == shown_word(word@),
{
    if has_char(word, ' ') {
        let inner = escaped(word);
        concat3("'", inner.as_str(), "'")
    } else {
        word.to_owned()
    }
}

/// The words of a command as they are shown.
pub fn show_command(words: &Vec<String>) -> (r: String)
    ensures
        r@ == shown_command(views(words@)),
{
    let mut parts: Vec<String> = Vec::new();
    let mut i: usize = 0;
    while i < words.len()
        invariant
            i <= words@.len(),
            parts@.len() == i,
            forall|k: int| 0 <= k < i ==> (#[trigger] parts@[k])@ == shown_word(words@[k]@),
        decreases words@.len() - i,
    {
        parts.push(show_word(words[i].as_str()));
        i = i + 1;
    }
    assert(views(parts@) =~= views(words@).map_values(|w: Seq<char>| shown_word(w)));
    joined(&parts, " ")
}

/// The text that an agent is asked.
pub open spec fn agent_question(agent: AgentModeCommand, text: Seq<char>) -> Seq<char> {
    match agent.system_prompt {
        Some(prompt) => prompt@ + "\n"@ + text,
        None => text,
    }
}

/// The command line of an agent, and how it is shown.
#[derive(Debug, PartialEq, Eq)]
pub struct AgentLaunch {
    /// The program and all its arguments.
    pub words: Vec<String>,
    pub command_display: String,
    /// What is kept in the history of questions: all of the edited text.
    pub history_text: String,
}

/// What asking an agent comes to.
#[derive(Debug, PartialEq, Eq)]
pub enum AgentRequest {
    /// There is nothing to ask: the search through earlier questions is open.
    SearchPrompts,
    /// The agent is to be run.
    Launch(AgentLaunch),
}

fn agent_launch(agent: &AgentModeCommand, text: &str, edited: &str) -> (r: AgentLaunch)
    ensures
        views(r.words@) == views(agent.command@).push(agent_question(*agent, text@)),
        r.command_display@ == shown_command(views(r.words@)),
        r.history_text@ == edited@,
{
    let question: String = match &agent.system_prompt {
        Some(prompt) => concat3(prompt.as_str(), "\n", text),
        None => text.to_owned(),
    };
    let mut words = copied_texts(&agent.command);
    let ghost before = words@;
    words.push(question);
    assert(views(words@) =~= views(before).push(question@));
    let command_display = show_command(&words);
    AgentLaunch { words, command_display, history_text: edited.to_owned() }
}

/// The state of a running agent.
#[derive(Debug, PartialEq, Eq)]
pub enum AgentStatus {
    Running,
    /// It ended. `status` says how, in words.
    Exited { success: bool, status: String, stdout: String, stderr: String },
    /// Its state could not be asked for.
    WaitFailed(String),
}

/// What an agent's run came to.
#[derive(Debug, PartialEq, Eq)]
pub enum AgentResult {
    /// What it wrote.
    Answer(String),
    Failure { message: String, raw_output: String },
}

/// What an agent's run came to; `None` while it runs.
pub open spec fn is_agent_result(status: AgentStatus, result: Option<AgentResult>) -> bool {
    match status {
        AgentStatus::Running => result is None,
        AgentStatus::Exited { success, status, stdout, stderr } => if success {
            result matches Some(AgentResult::Answer(text)) && text@ == trim(stdout@)
        } else {
            result matches Some(AgentResult::Failure { message, raw_output }) && message@
                == "AI command exited with "@ + status@ && raw_output@ == "stdout: "@ + trim(
                stdout@,
            ) + "\nstderr: "@ + trim(stderr@)
        },
        AgentStatus::WaitFailed(error) => result matches Some(
            AgentResult::Failure { message, raw_output },
        ) && message@ == "AI task failed: "@ + error@ && raw_output@.len() == 0,
    }
}

/// Works out what an agent's run came to.
pub fn agent_result(status: &AgentStatus) -> (r: Option<AgentResult>)
    ensures
        is_agent_result(*status, r),
{
    match status {
        AgentStatus::Running => None,
        AgentStatus::Exited { success, status, stdout, stderr } => {
            let out = trimmed(stdout.as_str());
            if *success {
                Some(AgentResult::Answer(out))
            } else {
                let err = trimmed(stderr.as_str());
                let head = concat3("stdout: ", out.as_str(), "\nstderr: ");
                Some(
                    AgentResult::Failure {
                        message: concat("AI command exited with ", status.as_str()),
                        raw_output: concat(head.as_str(), err.as_str()),
                    },
                )
            }
        },
        AgentStatus::WaitFailed(error) => Some(
            AgentResult::Failure {
                message: concat("AI task failed: ", error.as_str()),
                raw_output: String::new(),
            },
        ),
    }
}

/// An agent's failure is on the screen.
pub open spec fn shows_agent_error(
    mode: ContentMode,
    message: Seq<char>,
    raw_output: Seq<char>,
    setup: Option<Seq<char>>,
) -> bool {
    match mode {
        ContentMode::AgentError { message: m, raw_output: r, suggested_setup_command } => m@
            == message && r@ == raw_output && text_view(suggested_setup_command) == setup,
        _ => false,
    }
}

/// The suggestions of an agent are on the screen.
pub open spec fn shows_agent_output(mode: ContentMode, output: AiOutput, text: Seq<char>) -> bool {
    mode matches ContentMode::AgentOutputSelection(s) && s.suggestions == output.suggestions
        && s.selected_idx == output.selected_idx && s.last_buffer_content@ == text
}

/// What a failure of an agent makes of a session: it is shown, and the agent is
/// left alone until the text changes.
pub open spec fn has_agent_error(
    before: App,
    after: App,
    message: Seq<char>,
    raw_output: Seq<char>,
    setup: Option<Seq<char>>,
) -> bool {
    &&& after == (App {
        content_mode: after.content_mode,
        dismissed_agent_mode_buffer: after.dismissed_agent_mode_buffer,
        ..before
    })
    &&& shows_agent_error(after.content_mode, message, raw_output, setup)
    &&& text_view(after.dismissed_agent_mode_buffer) == Some(before.buffer.text@)
}

/// What an answer of an agent makes of a session.
pub open spec fn has_agent_answer(
    before: App,
    after: App,
    parsed: Result<AiOutput, String>,
    failure: Seq<char>,
    raw_output: Seq<char>,
) -> bool {
    match parsed {
        Ok(output) => after == (App { content_mode: after.content_mode, ..before })
            && shows_agent_output(after.content_mode, output, before.buffer.text@),
        Err(error) => has_agent_error(before, after, failure + error@, raw_output, None),
    }
}

/// An agent that could be set up.
#[derive(Debug, PartialEq, Eq)]
pub struct ExampleAgent {
    /// Whether its program can be run.
    pub is_known: bool,
    /// The command that sets it up.
    pub setup_command: String,
}

/// The command that sets up the first agent that can be run.
pub open spec fn setup_suggestion(examples: Seq<ExampleAgent>) -> Option<Seq<char>>
    decreases examples.len(),
{
    if examples.len() == 0 {
        None
    } else if examples[0].is_known {
        Some(examples[0].setup_command@)
    } else {
        setup_suggestion(examples.skip(1))
    }
}

/// What a user without an agent is told.
pub open spec fn not_configured_message(setup: Option<Seq<char>>) -> Seq<char> {
    if setup is Some {
        "Agent mode is not configured. However, flyline can set it up for you:"@
    } else {
        "Agent mode is not configured. Run `flyline set-agent-mode --help` or see https://github.com/HalFrgrd/flyline#agent-mode"@
    }
}

fn find_setup(examples: &Vec<ExampleAgent>) -> (r: Option<String>)
    ensures
        text_view(r) == setup_suggestion(examples@),
{
    let mut i: usize = 0;
    assert(examples@.skip(0) =~= examples@);
    while i < examples.len()
        invariant
            i <= examples@.len(),
            setup_suggestion(examples@) == setup_suggestion(examples@.skip(i as int)),
        decreases examples@.len() - i,
    {
        assert(examples@.skip(i as int)[0] == examples@[i as int]);
        assert(examples@.skip(i as int).skip(1) =~= examples@.skip(i + 1));
        if examples[i].is_known {
            return Some(examples[i].setup_command.clone());
        }
        i = i + 1;
    }
    None
}

/// `after` is `before` with a question of the history and the answer that it had;
/// `filled` stands between them, with the question alone.
pub open spec fn has_taken_prompt(
    before: App,
    filled: App,
    after: App,
    entry: HistoryEntry,
    cached: Result<AiOutput, String>,
) -> bool {
    &&& filled.buffer.is_fresh(entry.command@)
    &&& filled == (App { buffer: filled.buffer, ..before })
    &&& match entry.raw_output {
        Some(raw) => has_agent_answer(
            filled,
            after,
            cached,
            "Failed to parse cached AI output: "@,
            raw@,
        ),
        None => after == (App { content_mode: ContentMode::Normal, ..filled }),
    }
}

/// What follows from asking for a running agent.
#[derive(Debug, PartialEq, Eq)]
pub struct AgentPoll {
    pub redraw: bool,
    /// What is to be kept with the question in the history.
    pub raw_output: Option<String>,
}

/// What follows from accepting a question of the history.
#[derive(Debug, PartialEq, Eq)]
pub enum AcceptedPrompt {
    /// Nothing more.
    Done,
    /// The agent is to be asked.
    Ask(AgentChoice),
}

impl App {
    fn show_agent_error(&mut self, message: String, raw_output: String, setup: Option<String>)
        ensures
            has_agent_error(
                *old(self),
                *final(self),
                message@,
                raw_output@,
                text_view(setup),
            ),
    {
        self.dismissed_agent_mode_buffer = Some(self.buffer.buffer().to_owned());
        self.content_mode = ContentMode::AgentError {
            message,
            raw_output,
            suggested_setup_command: setup,
        };
    }

    fn show_agent_answer(
        &mut self,
        parsed: Result<AiOutput, String>,
        failure: &str,
        raw_output: String,
    )
        ensures
            has_agent_answer(*old(self), *final(self), parsed, failure@, raw_output@),
    {
        match parsed {
            Ok(output) => {
                let selection = AiOutputSelection::new(output, self.buffer.buffer());
                self.content_mode = ContentMode::AgentOutputSelection(selection);
            },
            Err(error) => {
                let message = concat(failure, error.as_str());
                self.show_agent_error(message, raw_output, None);
            },
        }
    }

    /// Takes in what a running agent has to say. `parsed` is what its answer was
    /// read as.
    pub fn poll_agent(&mut self, status: &AgentStatus, parsed: Result<AiOutput, String>) -> (r:
        AgentPoll)
        ensures
            match old(self).content_mode {
                ContentMode::AgentModeWaiting { .. } => exists|result: Option<AgentResult>| #[trigger]
                    is_agent_result(*status, result) && match result {
                        None => !r.redraw && r.raw_output is None && *final(self) == *old(self),
                        Some(AgentResult::Answer(text)) => r.redraw && text_view(r.raw_output)
                            == Some(text@) && has_agent_answer(
                            *old(self),
                            *final(self),
                            parsed,
                            "Failed to parse AI output: "@,
                            text@,
                        ),
                        Some(AgentResult::Failure { message, raw_output }) => r.redraw
                            && text_view(r.raw_output) == Some(raw_output@) && has_agent_error(
                            *old(self),
                            *final(self),
                            message@,
                            raw_output@,
                            None,
                        ),
                    },
                _ => !r.redraw && r.raw_output is None && *final(self) == *old(self),
            },
    {
        match &self.content_mode {
            ContentMode::AgentModeWaiting { .. } => {},
            _ => {
                return AgentPoll { redraw: false, raw_output: None };
            },
        }
        let result = agent_result(status);
        let ghost seen = result;
        assert(is_agent_result(*status, seen));
        match result {
            None => AgentPoll { redraw: false, raw_output: None },
            Some(AgentResult::Answer(text)) => {
                let kept = text.clone();
                self.show_agent_answer(parsed, "Failed to parse AI output: ", text);
                AgentPoll { redraw: true, raw_output: Some(kept) }
            },
            Some(AgentResult::Failure { message, raw_output }) => {
                let kept = raw_output.clone();
                self.show_agent_error(message, raw_output, None);
                AgentPoll { redraw: true, raw_output: Some(kept) }
            },
        }
    }

    /// Tells a user without an agent how to set one up.
    pub fn show_agent_mode_not_configured_error(&mut self, examples: &Vec<ExampleAgent>)
        ensures
            has_agent_error(
                *old(self),
                *final(self),
                not_configured_message(setup_suggestion(examples@)),
                ""@,
                setup_suggestion(examples@),
            ),
    {
        let setup = find_setup(examples);
        let message: &str = if setup.is_some() {
            "Agent mode is not configured. However, flyline can set it up for you:"
        } else {
            "Agent mode is not configured. Run `flyline set-agent-mode --help` or see https://github.com/HalFrgrd/flyline#agent-mode"
        };
        self.show_agent_error(message.to_owned(), "".to_owned(), setup);
    }

    /// The agent for the edited text.
    pub fn resolve_agent_command(&self, agents: &Vec<AgentEntry>, needs_prefix: bool) -> (r: Option<
        AgentChoice,
    >)
        ensures
            is_choice(agents@, self.buffer.text@, needs_prefix, r),
    {
        choose_agent(agents, self.buffer.buffer(), needs_prefix)
    }

    /// The agent that the edited text asks for, and what follows the prefix.
    pub fn buffer_starts_with_agent_command_prefix(&self, agents: &Vec<AgentEntry>) -> (r: Option<
        AgentChoice,
    >)
        ensures
            r is None <==> none_asked(agents@, self.buffer.text@),
            r matches Some(c) ==> first_asked(agents@, self.buffer.text@, c.agent as int)
                && c.text@ == self.buffer.text@.skip(
                agents@[c.agent as int].prefix->0@.len() as int,
            ),
    {
        agent_with_prefix(agents, self.buffer.buffer())
    }

    /// Asks an agent. An empty text opens the search through earlier questions; any
    /// other is put into the command line that runs the agent, and the edited text,
    /// which may hold a prefix before it, is kept in the history of questions. An
    /// agent has a program.
    pub fn start_agent_mode(&mut self, agent: &AgentModeCommand, text: &str) -> (r: AgentRequest)
        requires
            agent.command@.len() > 0,
        ensures
            text@.len() == 0 ==> r is SearchPrompts && *final(self) == (App {
                content_mode: ContentMode::FuzzyHistorySearch(FuzzyHistorySource::AgentPrompts),
                ..*old(self)
            }),
            text@.len() > 0 ==> *final(self) == *old(self) && (r matches AgentRequest::Launch(l)
                && views(l.words@) == views(agent.command@).push(agent_question(*agent, text@))
                && l.command_display@ == shown_command(views(l.words@))
                && l.history_text@ == old(self).buffer.text@),
    {
        if text.is_empty() {
            self.content_mode = ContentMode::FuzzyHistorySearch(FuzzyHistorySource::AgentPrompts);
            return AgentRequest::SearchPrompts;
        }
        AgentRequest::Launch(agent_launch(agent, text, self.buffer.buffer()))
    }

    /// Shows that an agent runs, or that it could not be started. `started` is the
    /// job, or the reason for which there is none.
    pub fn agent_started(
        &mut self,
        command_display: String,
        started: Result<JobId, String>,
        now: Time,
    )
        ensures
            match started {
                Ok(job) => *final(self) == (App {
                    content_mode: ContentMode::AgentModeWaiting {
                        job,
                        command_display,
                        start_time: now,
                    },
                    ..*old(self)
                }),
                Err(error) => has_agent_error(
                    *old(self),
                    *final(self),
                    "Failed to run AI command: "@ + error@,
                    ""@,
                    None,
                ),
            },
    {
        match started {
            Ok(job) => {
                self.content_mode = ContentMode::AgentModeWaiting {
                    job,
                    command_display,
                    start_time: now,
                };
            },
            Err(error) => {
                let message = concat("Failed to run AI command: ", error.as_str());
                self.show_agent_error(message, "".to_owned(), None);
            },
        }
    }

    /// Takes over the command that a search of the history found.
    pub fn accept_fuzzy_history_search(&mut self, entry: &Option<HistoryEntry>)
        requires
            old(self).wf(),
        ensures
            final(self).wf(),
            match old(self).content_mode {
                ContentMode::FuzzyHistorySearch(_) => {
                    &&& *final(self) == (App {
                        buffer: final(self).buffer,
                        content_mode: ContentMode::Normal,
                        fuzzy_history_session_filter_active: false,
                        ..*old(self)
                    })
                    &&& match entry {
                        Some(e) => final(self).buffer.is_fresh(e.command@),
                        None => final(self).buffer == old(self).buffer,
                    }
                },
                _ => *final(self) == *old(self),
            },
    {
        match &self.content_mode {
            ContentMode::FuzzyHistorySearch(_) => {},
            _ => {
                return;
            },
        }
        if let Some(e) = entry {
            self.buffer.replace_buffer(e.command.as_str());
        }
        self.fuzzy_history_session_filter_active = false;
        self.content_mode = ContentMode::Normal;
    }

    /// Takes over the question that a search of the history found, with the answer
    /// that it had; `cached` is what that answer was read as. Where nothing was
    /// found, an agent is asked, if there is one.
    pub fn accept_fuzzy_history_search_agent_command(
        &mut self,
        entry: &Option<HistoryEntry>,
        cached: Result<AiOutput, String>,
        agents: &Vec<AgentEntry>,
        examples: &Vec<ExampleAgent>,
    ) -> (r: AcceptedPrompt)
        requires
            old(self).wf(),
        ensures
            final(self).wf(),
            match old(self).content_mode {
                ContentMode::FuzzyHistorySearch(FuzzyHistorySource::AgentPrompts) => match entry {
                    Some(e) => r is Done && exists|filled: App| #[trigger]
                        has_taken_prompt(*old(self), filled, *final(self), *e, cached),
                    None => match r {
                        AcceptedPrompt::Ask(choice) => *final(self) == *old(self) && is_choice(
                            agents@,
                            old(self).buffer.text@,
                            false,
                            Some(choice),
                        ),
                        AcceptedPrompt::Done => is_choice(
                            agents@,
                            old(self).buffer.text@,
                            false,
                            None,
                        ) && has_agent_error(
                            *old(self),
                            *final(self),
                            not_configured_message(setup_suggestion(examples@)),
                            ""@,
                            setup_suggestion(examples@),
                        ),
                    },
                },
                _ => r is Done && *final(self) == *old(self),
            },
    {
        match &self.content_mode {
            ContentMode::FuzzyHistorySearch(FuzzyHistorySource::AgentPrompts) => {},
            _ => {
                return AcceptedPrompt::Done;
            },
        }
        match entry {
            Some(e) => {
                self.buffer.replace_buffer(e.command.as_str());
                let ghost filled = *self;
                match &e.raw_output {
                    Some(raw) => {
                        self.show_agent_answer(
                            cached,
                            "Failed to parse cached AI output: ",
                            raw.clone(),
                        );
                    },
                    None => {
                        self.content_mode = ContentMode::Normal;
                    },
                }
                assert(has_taken_prompt(*old(self), filled, *self, *e, cached));
                AcceptedPrompt::Done
            },
            None => match self.resolve_agent_command(agents, false) {
                Some(choice) => AcceptedPrompt::Ask(choice),
                None => {
                    self.show_agent_mode_not_configured_error(examples);
                    AcceptedPrompt::Done
                },
            },
        }
    }

    /// Ends the session with the edited text as the command, where the shell would
    /// take it or waits for the rest of one; else starts a new line.
    pub fn try_submit_current_buffer(&mut self, is_complete_command: bool)
        requires
            old(self).wf(),
        ensures
            final(self).wf(),
            if old(self).unfinished_from_prev_command || is_complete_command {
                &&& *final(self) == (App { mode: final(self).mode, ..*old(self) })
                &&& final(self).mode matches AppRunningState::Exiting(
                    ExitState::WithCommand(command),
                ) && command@ == old(self).buffer.text@
            } else {
                &&& *final(self) == (App { buffer: final(self).buffer, ..*old(self) })
                &&& final(self).buffer.text@ == old(self).buffer.text@.take(
                    old(self).buffer.cursor as int,
                ) + seq!['\n'] + old(self).buffer.text@.skip(old(self).buffer.cursor as int)
                &&& final(self).buffer.cursor == old(self).buffer.cursor + 1
                &&& final(self).buffer.selection == old(self).buffer.selection
            },
    {
        if self.unfinished_from_prev_command || is_complete_command {
            self.mode = AppRunningState::Exiting(
                ExitState::WithCommand(self.buffer.buffer().to_owned()),
            );
        } else {
            self.buffer.insert_newline();
        }
    }
}

/// A word without spaces is shown as it is, so a command of such words is its
/// words with spaces between them.
pub proof fn lemma_plain_words_are_shown_plain(words: Seq<Seq<char>>)
    requires
        forall|i: int| 0 <= i < words.len() ==> !(#[trigger] words[i]).contains(' '),
    ensures
        shown_command(words) == join(words, " "@),
{
    assert(words.map_values(|w: Seq<char>| shown_word(w)) =~= words);
}

/// What a shell reads of a text in which single quotes keep everything and a
/// backslash outside them keeps the character that follows.
pub open spec fn shell_reads(s: Seq<char>, in_quotes: bool) -> Seq<char>
    decreases s.len(),
{
    if s.len() == 0 {
        Seq::empty()
    } else if s[0] == '\'' {
        shell_reads(s.skip(1), !in_quotes)
    } else if !in_quotes && s[0] == '\\' && s.len() > 1 {
        seq![s[1]] + shell_reads(s.skip(2), false)
    } else {
        seq![s[0]] + shell_reads(s.skip(1), in_quotes)
    }
}

proof fn lemma_escape_front(s: Seq<char>)
    requires
        s.len() > 0,
    ensures
        escape_quotes(s) == (if s[0] == '\'' {
            seq!['\'', '\\', '\'', '\'']
        } else {
            seq![s[0]]
        }) + escape_quotes(s.skip(1)),
    decreases s.len(),
{
    let first = if s[0] == '\'' {
        seq!['\'', '\\', '\'', '\'']
    } else {
        seq![s[0]]
    };
    let rest = s.skip(1);
    if s.len() == 1 {
        assert(s.drop_last() =~= Seq::empty());
        assert(rest =~= Seq::empty());
        assert(escape_quotes(s.drop_last()) =~= Seq::empty());
        assert(escape_quotes(s) =~= first + escape_quotes(rest));
    } else {
        let head = s.drop_last();
        lemma_escape_front(head);
        assert(head.skip(1) =~= rest.drop_last());
        assert(rest.last() == s.last());
        assert(escape_quotes(s) =~= first + escape_quotes(rest));
    }
}

proof fn lemma_shell_reads_escaped(word: Seq<char>)
    ensures
        shell_reads(escape_quotes(word) + seq!['\''], true) == word,
    decreases word.len(),
{
    let text = escape_quotes(word) + seq!['\''];
    if word.len() == 0 {
        assert(text =~= seq!['\'']);
        assert(text.skip(1) =~= Seq::empty());
        assert(shell_reads(text.skip(1), false) =~= Seq::empty());
        assert(shell_reads(text, true) =~= word);
    } else {
        let rest = word.skip(1);
        let tail = escape_quotes(rest) + seq!['\''];
        lemma_escape_front(word);
        lemma_shell_reads_escaped(rest);
        if word[0] == '\'' {
            assert(text =~= seq!['\'', '\\', '\'', '\''] + tail);
            assert(text.skip(1) =~= seq!['\\', '\'', '\''] + tail);
            assert(text.skip(1).skip(2) =~= seq!['\''] + tail);
            assert((seq!['\''] + tail).skip(1) =~= tail);
            assert(shell_reads(seq!['\''] + tail, false) == shell_reads(tail, true));
            assert(shell_reads(text.skip(1), false) == seq!['\''] + shell_reads(
                text.skip(1).skip(2),
                false,
            ));
            assert(shell_reads(text, true) =~= seq![word[0]] + rest);
        } else {
            assert(text =~= seq![word[0]] + tail);
            assert(text.skip(1) =~= tail);
            assert(shell_reads(text, true) =~= seq![word[0]] + rest);
        }
        assert(seq![word[0]] + rest =~= word);
    }
}

/// A word with a space is shown so that a shell reads that word.
pub proof fn lemma_shell_reads_shown_word(word: Seq<char>)
    requires
        word.contains(' '),
    ensures
        shell_reads(shown_word(word), false) == word,
{
    reveal_strlit("'");
    assert("'"@ =~= seq!['\'']);
    lemma_shell_reads_escaped(word);
    assert(shown_word(word).skip(1) =~= escape_quotes(word) + seq!['\'']);
}

/// No agent before the one at `i` has a prefix with which the text starts.
pub open spec fn none_before(agents: Seq<AgentEntry>, text: Seq<char>, i: int) -> bool {
    forall|k: int|
        0 <= k < i ==> !((#[trigger] agents[k]).prefix matches Some(p) && p@.is_prefix_of(text))
}

proof fn lemma_none_before(agents: Seq<AgentEntry>, text: Seq<char>)
    ensures
        none_asked(agents, text) <==> none_before(agents, text, agents.len() as int),
{
    assert forall|k: int| 0 <= k < agents.len() implies (asks_for(#[trigger] agents[k], text) <==> (
    agents[k].prefix matches Some(p) && p@.is_prefix_of(text))) by {}
    if none_asked(agents, text) {
        assert forall|k: int| 0 <= k < agents.len() implies !((#[trigger] agents[k]).prefix matches
            Some(p) && p@.is_prefix_of(text)) by {
            assert(!asks_for(agents[k], text));
        }
    }
}

/// The first agent with whose prefix the text starts is asked, whether a prefix is needed
/// or not. What it is asked is what follows the prefix, without the white space at its
/// start.
pub proof fn lemma_agent_is_asked_by_its_prefix(
    agents: Seq<AgentEntry>,
    rest: Seq<char>,
    needs_prefix: bool,
    choice: Option<AgentChoice>,
    i: int,
) -> (k: int)
    requires
        0 <= i < agents.len(),
        agents[i].prefix is Some,
        none_before(agents, agents[i].prefix->0@ + rest, i),
        is_choice(agents, agents[i].prefix->0@ + rest, needs_prefix, choice),
    ensures
        choice matches Some(c) && c.agent == i && c.text@ == rest.skip(k),
        0 <= k <= rest.len(),
        forall|j: int| 0 <= j < k ==> crate::text::is_white(#[trigger] rest[j]),
        k < rest.len() ==> !crate::text::is_white(rest[k]),
{
    let p = agents[i].prefix->0@;
    let text = p + rest;
    assert(p =~= text.take(p.len() as int));
    assert(text.skip(p.len() as int) =~= rest);
    assert(asks_for(agents[i], text));
    let c = choice->0;
    if c.agent < i {
        assert(asks_for(agents[c.agent as int], text));
    } else if c.agent > i {
        assert(!asks_for(agents[i], text));
    }
    crate::text::lemma_trim_start_cuts(rest)
}

/// A text that asks for no agent by its prefix is for the first agent that needs none, or
/// for the first of all where each has one; it is asked all of the text. Where a prefix is
/// needed, or there are no agents, it is for nobody.
pub proof fn lemma_agent_without_a_prefix(
    agents: Seq<AgentEntry>,
    text: Seq<char>,
    needs_prefix: bool,
    choice: Option<AgentChoice>,
)
    requires
        none_before(agents, text, agents.len() as int),
        is_choice(agents, text, needs_prefix, choice),
    ensures
        choice is None <==> needs_prefix || agents.len() == 0,
        choice matches Some(c) ==> {
            &&& c.text@ == text
            &&& 0 <= c.agent < agents.len()
            &&& agents[c.agent as int].prefix is None || c.agent == 0
            &&& forall|k: int|
                0 <= k < agents.len() && (#[trigger] agents[k]).prefix is None ==> c.agent <= k
                    && agents[c.agent as int].prefix is None
        },
{
    lemma_none_before(agents, text);
}

/// An agent is asked the text behind its own prompt, on a line of its own; without a
/// prompt it is asked the text alone.
pub proof fn lemma_question_stands_behind_the_prompt(agent: AgentModeCommand, text: Seq<char>)
    ensures
        agent.system_prompt is None ==> agent_question(agent, text) == text,
        agent.system_prompt matches Some(p) ==> agent_question(agent, text) == p@.push('\n') + text,
{
    reveal_strlit("\n");
    if let Some(p) = agent.system_prompt {
        assert("\n"@ =~= seq!['\n']);
        assert(p@ + "\n"@ =~= p@.push('\n'));
    }
}

/// A command is shown word by word, with a space between each two.
pub proof fn lemma_commands_are_shown_word_by_word(a: Seq<Seq<char>>, b: Seq<Seq<char>>)
    requires
        a.len() > 0,
        b.len() > 0,
    ensures
        shown_command(a + b) == shown_command(a) + seq![' '] + shown_command(b),
        a.len() == 1 ==> shown_command(a) == shown_word(a[0]),
{
    reveal_strlit(" ");
    assert(" "@ =~= seq![' ']);
    let show = |w: Seq<char>| shown_word(w);
    assert((a + b).map_values(show) =~= a.map_values(show) + b.map_values(show));
    crate::text::lemma_join_of_both(a.map_values(show), b.map_values(show), seq![' ']);
}

/// An agent that ended well has answered what it wrote, without the white space around it;
/// one that did not has failed, and how it ended is told, with all that it wrote. One that
/// runs has come to nothing yet.
pub proof fn lemma_what_an_agent_came_to(
    status: AgentStatus,
    result: Option<AgentResult>,
) -> (r: (int, int))
    requires
        is_agent_result(status, result),
    ensures
        result is None <==> status is Running,
        status matches AgentStatus::Exited { success, status: how, stdout, stderr } ==> {
            &&& success <==> (result matches Some(a) && a is Answer)
            &&& success ==> (result matches Some(AgentResult::Answer(text)) && 0 <= r.0 <= r.1
                <= stdout@.len() && text@ == stdout@.subrange(r.0, r.1) && (forall|i: int|
                0 <= i < r.0 || r.1 <= i < stdout@.len() ==> crate::text::is_white(
                    #[trigger] stdout@[i],
                )) && (r.0 < r.1 ==> !crate::text::is_white(stdout@[r.0]) && !crate::text::is_white(
                stdout@[r.1 - 1],
            )))
            &&& !success ==> (result matches Some(AgentResult::Failure { message, raw_output })
                && how@.is_suffix_of(message@) && trim(stderr@).is_suffix_of(raw_output@))
        },
        status matches AgentStatus::WaitFailed(error) ==> (result matches Some(
            AgentResult::Failure { message, raw_output },
        ) && error@.is_suffix_of(message@)),
{
    match status {
        AgentStatus::Exited { success, status: how, stdout, stderr } => {
            if !success {
                let message = result->0->message@;
                let raw = result->0->raw_output@;
                assert(message.skip(message.len() - how@.len()) =~= how@);
                assert(raw.skip(raw.len() - trim(stderr@).len()) =~= trim(stderr@));
            }
            crate::text::lemma_trim_cuts(stdout@)
        },
        AgentStatus::WaitFailed(error) => {
            let message = result->0->message@;
            assert(message.skip(message.len() - error@.len()) =~= error@);
            (0, 0)
        },
        AgentStatus::Running => (0, 0),
    }
}

/// A user without an agent is offered the setup of the first one whose program can be run,
/// and nothing where none can.
pub proof fn lemma_first_known_agent_is_offered(examples: Seq<ExampleAgent>) -> (i: int)
    ensures
        match setup_suggestion(examples) {
            Some(command) => {
                &&& 0 <= i < examples.len()
                &&& examples[i].is_known
                &&& command == examples[i].setup_command@
                &&& forall|k: int| 0 <= k < i ==> !(#[trigger] examples[k]).is_known
            },
            None => forall|k: int| 0 <= k < examples.len() ==> !(#[trigger] examples[k]).is_known,
        },
    decreases examples.len(),
{
    if examples.len() == 0 || examples[0].is_known {
        0
    } else {
        let rest = examples.skip(1);
        let i = lemma_first_known_agent_is_offered(rest);
        assert forall|k: int| 0 < k < examples.len() implies examples[k] == rest[k - 1] by {}
        i + 1
    }
}

/// The answer of an agent is offered for the text as it stands, which does not change; an
/// answer that cannot be read is shown as a failure, with what was wrong and the answer
/// itself, and the agent is left alone for that text.
pub proof fn lemma_answer_is_offered_for_the_text(
    before: App,
    after: App,
    parsed: Result<AiOutput, String>,
    failure: Seq<char>,
    raw_output: Seq<char>,
)
    requires
        has_agent_answer(before, after, parsed, failure, raw_output),
    ensures
        after.buffer == before.buffer,
        after.mode == before.mode,
        match parsed {
            Ok(output) => after.content_mode matches ContentMode::AgentOutputSelection(s)
                && s.suggestions == output.suggestions && s.selected_idx == output.selected_idx
                && s.last_buffer_content@ == before.buffer.text@
                && after.dismissed_agent_mode_buffer == before.dismissed_agent_mode_buffer,
            Err(error) => (after.content_mode matches ContentMode::AgentError {
                message,
                raw_output: raw,
                suggested_setup_command,
            } && message@ == failure + error@ && raw@ == raw_output && suggested_setup_command
                is None) && (after.dismissed_agent_mode_buffer matches Some(b) && b@
                == before.buffer.text@),
        },
{
}

/// A question of the history that is taken over becomes the text; with an answer, that is
/// offered for it, and without one nothing more is shown.
pub proof fn lemma_question_of_the_history_is_taken_over(
    before: App,
    filled: App,
    after: App,
    entry: HistoryEntry,
    cached: Result<AiOutput, String>,
)
    requires
        has_taken_prompt(before, filled, after, entry, cached),
    ensures
        after.buffer.text@ == entry.command@,
        after.buffer.cursor == entry.command@.len(),
        after.buffer.selection is None,
        entry.raw_output is None <==> after.content_mode is Normal,
        entry.raw_output is Some && cached is Ok ==> (after.content_mode
            matches ContentMode::AgentOutputSelection(s) && s.suggestions == cached->Ok_0.suggestions
            && s.last_buffer_content@ == entry.command@),
        entry.raw_output is Some && cached is Err ==> (after.content_mode
            matches ContentMode::AgentError { raw_output, .. } && raw_output@
            == entry.raw_output->0@),
{
}

/// A user without an agent is told that one can be set up where one can be run, and else
/// how to find out more.
pub proof fn lemma_user_is_told_about_the_setup(command: Seq<char>)
    ensures
        "flyline can set it up for you:"@.is_suffix_of(not_configured_message(Some(command))),
        !"flyline can set it up for you:"@.is_suffix_of(not_configured_message(None)),
{
    reveal_strlit("flyline can set it up for you:");
    reveal_strlit("Agent mode is not configured. However, flyline can set it up for you:");
    reveal_strlit(
        "Agent mode is not configured. Run `flyline set-agent-mode --help` or see https://github.com/HalFrgrd/flyline#agent-mode",
    );
    let end = "flyline can set it up for you:"@;
    let known = not_configured_message(Some(command));
    let unknown = not_configured_message(None);
    assert(known.skip(known.len() - end.len()) =~= end);
    assert(unknown.skip(unknown.len() - end.len()).last() == unknown.last());
    assert(end.last() == ':' && unknown.last() == 'e');
}

} // verus!
