//! The state of a session: what is edited, what is shown around it, and how it
//! ends.

use vstd::prelude::*;

verus! {

use crate::context::SubString;
use crate::mouse::MouseEvent;
use crate::suggestion::ActiveSuggestionsBuilder;
use crate::textbuffer::TextBuffer;

/// A point in time, in nanoseconds since some fixed one.
pub type Time = u64;

/// A background job, by its number.
pub type JobId = u64;

/// The time from `since` to `now`; none where `since` is later.
pub open spec fn time_between(since: Time, now: Time) -> Time {
    if now >= since {
        (now - since) as Time
    } else {
        0
    }
}

/// The time from `since` to `now`; none where `since` is later.
pub fn elapsed(since: Time, now: Time) -> (r: Time)
    ensures
        r == time_between(since, now),
{
    if now >= since {
        now - since
    } else {
        0
    }
}

/// A millisecond.
pub const MILLISECOND: Time = 1_000_000;

/// A key as the terminal reports it.
#[derive(Clone, Copy, Debug, PartialEq, Eq, Structural)]
pub enum KeyCode {
    Char(char),
    Other,
}

/// A key with the modifiers that keep it from typing a character.
#[derive(Clone, Copy, Debug, PartialEq, Eq, Structural)]
pub struct KeyEvent {
    pub code: KeyCode,
    pub control: bool,
    pub alt: bool,
}

/// What a key does.
#[derive(Clone, Copy, Debug, PartialEq, Eq, Structural)]
pub enum KeyEventAction {
    PrevHistoryEntry,
    NextHistoryEntry,
    FuzzyHistoryAcceptEntry,
    FuzzyHistoryAcceptAndEdit,
    FuzzyHistoryAcceptAndRun,
    /// Any other action.
    Other,
}

/// The last key, with what it did.
#[derive(Clone, Debug, PartialEq, Eq)]
pub struct LastKeyPress {
    pub key: KeyEvent,
    pub display: String,
    pub context: String,
    pub actions: Vec<KeyEventAction>,
    pub sequence_number: u64,
}

/// The last mouse event, with the bindings that it matched.
#[derive(Clone, Debug, PartialEq, Eq)]
pub struct LastMouseEvent {
    pub mouse: MouseEvent,
    pub matches: Vec<(String, String)>,
    pub time: Time,
}

/// A command of the history, with what an agent answered to it.
#[derive(Clone, Debug, PartialEq, Eq)]
pub struct HistoryEntry {
    pub command: String,
    pub raw_output: Option<String>,
}

/// What a right click offers to copy.
#[derive(Clone, Debug, PartialEq, Eq)]
pub enum RightClickCopyTarget {
    Selection(String),
    Buffer(String),
    HistoryEntry(String, Option<HistoryEntry>),
    Cwd(String),
    Suggestion(String),
    AiResult(String),
    Clipboard(String),
}

/// How a session ends.
#[derive(Clone, Debug, PartialEq, Eq)]
pub enum ExitState {
    WithCommand(String),
    WithoutCommand,
    Eof,
}

/// How a session ended, and whether input that is still on its way is to be thrown
/// away.
#[derive(Clone, Debug, PartialEq, Eq)]
pub struct EndState {
    pub exit_state: ExitState,
    pub should_drain: bool,
}

/// Whether a session goes on.
#[derive(Clone, Debug, PartialEq, Eq)]
pub enum AppRunningState {
    Running,
    Exiting(ExitState),
}

impl AppRunningState {
    pub fn is_running(&self) -> (r: bool)
        ensures
            r == (self is Running),
    {
        match self {
            AppRunningState::Running => true,
            AppRunningState::Exiting(_) => false,
        }
    }
}

/// The history that a fuzzy search goes through.
#[derive(Clone, Copy, Debug, PartialEq, Eq, Structural)]
pub enum FuzzyHistorySource {
    PastCommands,
    CancelledCommands,
    AgentPrompts,
}

impl FuzzyHistorySource {
    pub fn label(&self) -> (r: &'static str)
        ensures
            r@ == (match self {
                FuzzyHistorySource::PastCommands => "Fuzzy search"@,
                FuzzyHistorySource::CancelledCommands => "Cancelled commands"@,
                FuzzyHistorySource::AgentPrompts => "Agent prompts"@,
            }),
    {
        match self {
            FuzzyHistorySource::PastCommands => "Fuzzy search",
            FuzzyHistorySource::CancelledCommands => "Cancelled commands",
            FuzzyHistorySource::AgentPrompts => "Agent prompts",
        }
    }
}

/// The histories, one for each source.
#[derive(Debug, PartialEq, Eq)]
pub struct Histories<H> {
    pub past_commands: H,
    pub cancelled_commands: H,
    pub agent_prompts: H,
}

impl<H> Histories<H> {
    /// The history for `source`.
    pub open spec fn of(self, source: FuzzyHistorySource) -> H {
        match source {
            FuzzyHistorySource::PastCommands => self.past_commands,
            FuzzyHistorySource::CancelledCommands => self.cancelled_commands,
            FuzzyHistorySource::AgentPrompts => self.agent_prompts,
        }
    }

    pub fn select_fuzzy_history_manager(&self, source: FuzzyHistorySource) -> (r: &H)
        ensures
            *r == self.of(source),
    {
        match source {
            FuzzyHistorySource::PastCommands => &self.past_commands,
            FuzzyHistorySource::CancelledCommands => &self.cancelled_commands,
            FuzzyHistorySource::AgentPrompts => &self.agent_prompts,
        }
    }

    pub fn select_fuzzy_history_manager_mut(&mut self, source: FuzzyHistorySource) -> (r: &mut H)
        ensures
            *r == old(self).of(source),
            *final(self) == (match source {
                FuzzyHistorySource::PastCommands => Histories {
                    past_commands: *final(r),
                    ..*old(self)
                },
                FuzzyHistorySource::CancelledCommands => Histories {
                    cancelled_commands: *final(r),
                    ..*old(self)
                },
                FuzzyHistorySource::AgentPrompts => Histories {
                    agent_prompts: *final(r),
                    ..*old(self)
                },
            }),
    {
        match source {
            FuzzyHistorySource::PastCommands => &mut self.past_commands,
            FuzzyHistorySource::CancelledCommands => &mut self.cancelled_commands,
            FuzzyHistorySource::AgentPrompts => &mut self.agent_prompts,
        }
    }
}

/// The answer to the question whether a completion is to be made for a command.
#[derive(Clone, Copy, Debug, PartialEq, Eq, Structural)]
pub enum FlycompPromptSelection {
    Yes,
    No,
    DontAsk,
}

/// How the user wants suggestions to be shown.
#[derive(Clone, Copy, Debug, PartialEq, Eq, Structural)]
pub struct SuggestionDisplay {
    /// The order in which they stand, by its number.
    pub sort_order: u32,
    /// The way in which they are matched, by its number.
    pub fuzzy_mode: u32,
}

/// The suggestions on the screen.
#[derive(Debug, PartialEq, Eq)]
pub struct ActiveSuggestions {
    pub builder: ActiveSuggestionsBuilder,
    /// The word for which the suggestions were found.
    pub original_word_under_cursor: SubString,
    /// The word by which they are filtered now.
    pub word_under_cursor: SubString,
    pub load_time: Time,
    pub auto_started: bool,
    pub sort_order: u32,
    pub fuzzy_mode: u32,
}

impl ActiveSuggestions {
    pub fn new(
        builder: ActiveSuggestionsBuilder,
        word_under_cursor: SubString,
        load_time: Time,
        auto_started: bool,
        display: SuggestionDisplay,
    ) -> (r: ActiveSuggestions)
        ensures
            r == (ActiveSuggestions {
                builder,
                original_word_under_cursor: word_under_cursor,
                word_under_cursor,
                load_time,
                auto_started,
                sort_order: display.sort_order,
                fuzzy_mode: display.fuzzy_mode,
            }),
    {
        ActiveSuggestions {
            builder,
            original_word_under_cursor: word_under_cursor.copied(),
            word_under_cursor,
            load_time,
            auto_started,
            sort_order: display.sort_order,
            fuzzy_mode: display.fuzzy_mode,
        }
    }
}

/// What an agent suggested.
#[derive(Debug, PartialEq, Eq)]
pub struct AiOutput {
    pub suggestions: Vec<String>,
    /// The suggestion that is marked at first.
    pub selected_idx: Option<usize>,
}

/// The choice among the suggestions of an agent.
#[derive(Debug, PartialEq, Eq)]
pub struct AiOutputSelection {
    pub suggestions: Vec<String>,
    pub selected_idx: Option<usize>,
    /// The edited text for which `selected_idx` was chosen.
    pub last_buffer_content: String,
}

impl AiOutputSelection {
    pub fn new(output: AiOutput, buffer: &str) -> (r: AiOutputSelection)
        ensures
            r.suggestions == output.suggestions,
            r.selected_idx == output.selected_idx,
            r.last_buffer_content@ == buffer@,
    {
        AiOutputSelection {
            suggestions: output.suggestions,
            selected_idx: output.selected_idx,
            last_buffer_content: buffer.to_owned(),
        }
    }
}

/// What is shown below the edited text.
#[derive(Debug, PartialEq, Eq)]
pub enum ContentMode {
    Normal,
    FuzzyHistorySearch(FuzzyHistorySource),
    TabCompletion(Box<ActiveSuggestions>),
    /// A job looks for completions.
    TabCompletionWaiting {
        job: JobId,
        wuc_substring: SubString,
        start_time: Time,
        auto_started: bool,
        last_active_suggestions: Option<Box<ActiveSuggestions>>,
    },
    /// An agent runs.
    AgentModeWaiting { job: JobId, command_display: String, start_time: Time },
    /// The user chooses among an agent's suggestions.
    AgentOutputSelection(AiOutputSelection),
    /// An agent failed, or there is none. Where a command is suggested, Enter runs
    /// it to set one up.
    AgentError { message: String, raw_output: String, suggested_setup_command: Option<String> },
    /// The user walks along the directories of the prompt, counted from the right.
    PromptDirSelect(usize),
    TabCompletionAskForFlycomp {
        command_word: String,
        word_under_cursor: String,
        selection: FlycompPromptSelection,
        dump_path: String,
        forced: bool,
    },
    TabCompletionRunningFlycomp {
        command_word: String,
        word_under_cursor: String,
        start_time: Time,
        job: JobId,
    },
    TabCompletionFlycompResult { command_word: String, error_message: String },
}

/// A place on the screen.
#[derive(Clone, Copy, Debug, PartialEq, Eq, Structural)]
pub struct Coord {
    pub row: u16,
    pub col: u16,
}

/// Where the prompt starts and ends in the content, as far as it is there.
#[derive(Clone, Copy, Debug, PartialEq, Eq)]
pub struct PromptPlace {
    pub start: Option<Coord>,
    pub end: Option<Coord>,
}

/// The content that was drawn.
#[derive(Clone, Copy, Debug, PartialEq, Eq)]
pub struct DrawnContent {
    /// The row of the terminal at which it starts, where that is known.
    pub viewport_start: Option<u16>,
    pub prompt: PromptPlace,
}

/// A session.
#[derive(Debug, PartialEq, Eq)]
pub struct App {
    pub mode: AppRunningState,
    pub buffer: TextBuffer,
    /// Whether the terminal has the focus.
    pub term_has_focus: bool,
    /// Whether the shell waits for the rest of a command.
    pub unfinished_from_prev_command: bool,
    pub buffer_before_history_navigation: Option<String>,
    /// The past command that the text starts, and what is missing of it.
    pub inline_history_suggestion: Option<(HistoryEntry, String)>,
    /// The text for which the user dismissed the inline suggestion.
    pub dismissed_inline_suggestion_buffer: Option<String>,
    /// The word for which the user dismissed completions.
    pub dismissed_tab_completion_wuc: Option<String>,
    /// The text for which the user dismissed the agent.
    pub dismissed_agent_mode_buffer: Option<String>,
    pub content_mode: ContentMode,
    /// What was drawn last.
    pub last_contents: Option<DrawnContent>,
    pub tooltip: Option<String>,
    pub last_draw_time: Time,
    pub needs_screen_cleared: bool,
    pub needs_full_redraw: bool,
    pub last_key: Option<LastKeyPress>,
    pub last_mouse: Option<LastMouseEvent>,
    /// The number of the last key that was taken into account.
    pub last_processed_key_sequence: u64,
    pub right_click_popup_pos: Option<Coord>,
    pub right_click_copy_target: Option<RightClickCopyTarget>,
    pub last_activity_time: Time,
    pub leader_key_active_at: Option<Time>,
    pub app_start_time: Time,
    pub has_run_delayed_startup: Option<Time>,
    pub last_resize_time: Option<Time>,
    pub path_warming_job: Option<JobId>,
    pub git_warming_job: Option<JobId>,
    pub fuzzy_history_session_filter_active: bool,
}

impl App {
    /// The cursor stands in the edited text.
    pub open spec fn wf(self) -> bool {
        self.buffer.wf()
    }

    /// A session that has just begun.
    pub open spec fn is_new(
        self,
        initial_buffer: Seq<char>,
        unfinished_from_prev_command: bool,
        now: Time,
        path_warming_job: Option<JobId>,
        git_warming_job: Option<JobId>,
    ) -> bool {
        &&& self.buffer.is_fresh(initial_buffer)
        &&& self == (App {
            mode: AppRunningState::Running,
            buffer: self.buffer,
            term_has_focus: true,
            unfinished_from_prev_command,
            buffer_before_history_navigation: None,
            inline_history_suggestion: None,
            dismissed_inline_suggestion_buffer: None,
            dismissed_tab_completion_wuc: None,
            dismissed_agent_mode_buffer: None,
            content_mode: ContentMode::Normal,
            last_contents: None,
            tooltip: None,
            last_draw_time: now,
            needs_screen_cleared: false,
            needs_full_redraw: false,
            last_key: None,
            last_mouse: None,
            last_processed_key_sequence: 0,
            right_click_popup_pos: None,
            right_click_copy_target: None,
            last_activity_time: now,
            leader_key_active_at: None,
            app_start_time: now,
            has_run_delayed_startup: None,
            last_resize_time: None,
            path_warming_job,
            git_warming_job,
            fuzzy_history_session_filter_active: false,
        })
    }

    /// Begins a session with a text that was put there for the user.
    pub fn new(
        initial_buffer: &Option<String>,
        multiline_command_count: u64,
        now: Time,
        path_warming_job: Option<JobId>,
        git_warming_job: Option<JobId>,
    ) -> (r: App)
        ensures
            r.wf(),
            r.is_new(
                match initial_buffer {
                    Some(text) => text@,
                    None => ""@,
                },
                multiline_command_count > 0,
                now,
                path_warming_job,
                git_warming_job,
            ),
    {
        let text: &str = match initial_buffer {
            Some(text) => text.as_str(),
            None => "",
        };
        App {
            mode: AppRunningState::Running,
            buffer: TextBuffer::new(text),
            term_has_focus: true,
            unfinished_from_prev_command: multiline_command_count > 0,
            buffer_before_history_navigation: None,
            inline_history_suggestion: None,
            dismissed_inline_suggestion_buffer: None,
            dismissed_tab_completion_wuc: None,
            dismissed_agent_mode_buffer: None,
            content_mode: ContentMode::Normal,
            last_contents: None,
            tooltip: None,
            last_draw_time: now,
            needs_screen_cleared: false,
            needs_full_redraw: false,
            last_key: None,
            last_mouse: None,
            last_processed_key_sequence: 0,
            right_click_popup_pos: None,
            right_click_copy_target: None,
            last_activity_time: now,
            leader_key_active_at: None,
            app_start_time: now,
            has_run_delayed_startup: None,
            last_resize_time: None,
            path_warming_job,
            git_warming_job,
            fuzzy_history_session_filter_active: false,
        }
    }
}

/// Time that has passed is counted, and none has before it began.
pub proof fn lemma_time_passes(since: Time, span: Time)
    requires
        since + span <= u64::MAX,
    ensures
        time_between(since, (since + span) as Time) == span,
        time_between((since + span) as Time, since) == 0,
{
}

/// Each source of a search has its own history.
pub proof fn lemma_each_source_has_its_history<H>(past: H, cancelled: H, prompts: H)
    ensures
        ({
            let all = Histories {
                past_commands: past,
                cancelled_commands: cancelled,
                agent_prompts: prompts,
            };
            &&& all.of(FuzzyHistorySource::PastCommands) == past
            &&& all.of(FuzzyHistorySource::CancelledCommands) == cancelled
            &&& all.of(FuzzyHistorySource::AgentPrompts) == prompts
        }),
{
}

/// A session begins with the text that was put there and the cursor behind it. It runs,
/// the terminal has the focus, nothing is shown, dismissed or selected, nothing was done
/// yet, and all times are counted from now.
pub proof fn lemma_how_a_session_begins(
    app: App,
    text: Seq<char>,
    unfinished: bool,
    now: Time,
    path_job: Option<JobId>,
    git_job: Option<JobId>,
)
    requires
        app.is_new(text, unfinished, now, path_job, git_job),
    ensures
        app.buffer.text@ == text && app.buffer.cursor == text.len() && app.buffer.selection is None,
        app.mode is Running && app.content_mode is Normal && app.term_has_focus,
        app.unfinished_from_prev_command == unfinished,
        app.last_draw_time == now && app.last_activity_time == now && app.app_start_time == now,
        app.path_warming_job == path_job && app.git_warming_job == git_job,
        app.last_key is None && app.last_mouse is None && app.last_processed_key_sequence == 0,
        app.dismissed_agent_mode_buffer is None && app.dismissed_tab_completion_wuc is None
            && app.dismissed_inline_suggestion_buffer is None,
        app.inline_history_suggestion is None && app.buffer_before_history_navigation is None,
        app.last_contents is None && app.tooltip is None,
        !app.needs_screen_cleared && !app.needs_full_redraw,
        app.right_click_popup_pos is None && app.right_click_copy_target is None,
        app.leader_key_active_at is None && app.has_run_delayed_startup is None
            && app.last_resize_time is None,
        !app.fuzzy_history_session_filter_active,
{
}

} // verus!
