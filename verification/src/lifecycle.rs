//! The course of a session: its beginning, the rounds of its main loop, and its
//! end.

use vstd::prelude::*;

verus! {

use crate::mouse::{MouseState, Tag};
use crate::state::{
    elapsed,
    time_between,
    App,
    AppRunningState,
    DrawnContent,
    EndState,
    ExitState,
    JobId,
    PromptPlace,
    Time,
};
use crate::text::{concat, concat3};
use crate::textbuffer::sanitized;

/// Without input for this long, the screen is drawn less often.
pub const IDLE_TIMEOUT: Time = 30_000_000_000;

/// How long a change of size has to last before the terminal is asked where the
/// cursor is.
pub const RESIZE_QUIET_TIME: Time = 150_000_000;

/// How long the leader key waits for the next key.
pub const LEADER_KEY_TIME: Time = 1_000_000_000;

/// How long after the mouse was used, or reports of the focus were asked for,
/// input may still be on its way.
pub const TRAILING_INPUT_TIME: Time = 100_000_000;

/// Where the history comes from.
#[derive(Clone, Copy, Debug, PartialEq, Eq, Structural)]
pub enum HistoryBackend {
    Bash,
    Flyline,
}

/// What is done with the history when a session begins.
#[derive(Clone, Copy, Debug, PartialEq, Eq, Structural)]
pub struct HistoryReload {
    /// The shell's history is read.
    pub from_shell: bool,
    /// The line editor's own history is read.
    pub from_own_file: bool,
    /// Walking through the history starts from its end.
    pub reset_navigation: bool,
}

/// What is done with the history when a session begins. The line editor's own
/// history is read once only, so that what is walked through is that of the
/// session.
pub fn history_reload(backend: HistoryBackend, is_empty: bool) -> (r: HistoryReload)
    ensures
        r == (match backend {
            HistoryBackend::Bash => HistoryReload {
                from_shell: true,
                from_own_file: false,
                reset_navigation: false,
            },
            HistoryBackend::Flyline => HistoryReload {
                from_shell: false,
                from_own_file: is_empty,
                reset_navigation: true,
            },
        }),
{
    match backend {
        HistoryBackend::Bash => HistoryReload {
            from_shell: true,
            from_own_file: false,
            reset_navigation: false,
        },
        HistoryBackend::Flyline => HistoryReload {
            from_shell: false,
            from_own_file: is_empty,
            reset_navigation: true,
        },
    }
}

/// `n` spaces.
pub open spec fn spaces(n: nat) -> Seq<char> {
    Seq::new(n, |i: int| ' ')
}

/// What is left of a line of `width` columns behind a mark of `used` columns.
pub open spec fn rest_of_line(width: nat, used: nat) -> nat {
    if width > used {
        (width - used) as nat
    } else {
        0
    }
}

/// The text that moves to a new line where the last program left the cursor within
/// one: a mark and as many spaces as fill the line, after which the line is
/// cleared. Where the cursor stood at the start of a line, all of it disappears.
pub fn newline_marker(width: u16, style: &str, reset: &str, clear_to_end: &str) -> (r: String)
    ensures
        r@ == style@ + "[flyline inserted newline]"@ + reset@ + spaces(
            rest_of_line(width as nat, "[flyline inserted newline]"@.len()),
        ) + "\r"@ + clear_to_end@,
{
    let tag = "[flyline inserted newline]";
    let used: usize = crate::text::char_count(tag);
    let n: usize = if width as usize > used {
        width as usize - used
    } else {
        0
    };
    let mut blank: Vec<char> = Vec::new();
    let mut i: usize = 0;
    while i < n
        invariant
            i <= n,
            blank@ == spaces(i as nat),
        decreases n - i,
    {
        blank.push(' ');
        assert(blank@ =~= spaces((i + 1) as nat));
        i = i + 1;
    }
    let filling = crate::text::whole_text(&blank);
    let mark = concat3(style, tag, reset);
    let line = concat3(mark.as_str(), filling.as_str(), "\r");
    concat(line.as_str(), clear_to_end)
}

/// How much the terminal is told about the shell.
#[derive(Clone, Copy, Debug, PartialEq, Eq, Structural)]
pub enum ShellIntegrationLevel {
    Nothing,
    OnlyPromptPos,
    Full,
}

impl ShellIntegrationLevel {
    /// Whether the terminal is told when commands begin and end.
    pub fn marks_commands(&self) -> (r: bool)
        ensures
            r == (self is Full),
    {
        match self {
            ShellIntegrationLevel::Full => true,
            _ => false,
        }
    }

    /// Whether the terminal is told where the prompt is.
    pub fn marks_prompt(&self) -> (r: bool)
        ensures
            r == (self is Full || self is OnlyPromptPos),
    {
        match self {
            ShellIntegrationLevel::Nothing => false,
            _ => true,
        }
    }
}

/// What the background job that looks for programs has to say.
#[derive(Clone, Copy, Debug, PartialEq, Eq, Structural)]
pub enum PathWarmingStatus {
    /// It is done, and has found something to put into the cache.
    Ready,
    /// It ended without saying anything.
    Disconnected,
    Empty,
}

/// What the background job that looks at the repository has to say.
#[derive(Clone, Copy, Debug, PartialEq, Eq, Structural)]
pub enum GitWarmingStatus {
    /// It is done. Only in a repository is there something to put into the cache.
    Ready { in_repository: bool },
    /// It ended without saying anything.
    Disconnected,
    Empty,
}

/// What follows from what such a job has to say.
#[derive(Clone, Copy, Debug, PartialEq, Eq, Structural)]
pub struct WarmingOutcome {
    pub redraw: bool,
    /// What it found is put into the cache.
    pub apply_payload: bool,
    /// The cache is emptied.
    pub reset_cache: bool,
}

/// What the screen needs before it is drawn.
#[derive(Clone, Copy, Debug, PartialEq, Eq, Structural)]
pub struct DrawPlan {
    /// The terminal is told its size again.
    pub resync_size: bool,
    pub clear_screen: bool,
    /// The rows that the content gets, where it needs more than it has.
    pub grow_to: Option<u16>,
    pub show_terminal_cursor: bool,
    pub full_redraw: bool,
    /// Where the prompt is, the terminal is told even if that has not changed.
    pub resend_prompt_codes: bool,
}

/// Whether a drag through the edited text hides the terminal's cursor.
pub open spec fn hides_cursor(app: App, mouse: MouseState) -> bool {
    &&& mouse.left_button_down
    &&& app.buffer.selected() is Some
    &&& mouse.last_mouse_over_cell_semantic matches Some(tag) && tag is Command
}

/// The rows that the content gets, where it needs more than it has.
pub open spec fn growth(content_height: u16, frame_height: u16, terminal_height: u16) -> Option<
    u16,
> {
    let desired = if content_height <= terminal_height {
        content_height
    } else {
        terminal_height
    };
    if desired > frame_height {
        Some(desired)
    } else {
        None
    }
}

/// What the terminal reports.
#[derive(Debug, PartialEq, Eq)]
pub enum TerminalEvent {
    Key,
    Mouse,
    Resized { cols: u16, rows: u16 },
    FocusOut,
    FocusIn,
    Paste(String),
    Other,
    /// Nothing in the time that was waited.
    Timeout,
    /// Nothing can be read any more.
    Failed,
}

/// What follows from what the terminal reports.
#[derive(Clone, Copy, Debug, PartialEq, Eq, Structural)]
pub struct EventOutcome {
    pub redraw: bool,
    pub buffer_changed: bool,
    pub enable_mouse: bool,
    /// The main loop ends.
    pub leave: bool,
}

/// What follows from an event, as far as the event alone decides. What follows from
/// a key or the mouse is for their bindings.
pub open spec fn event_outcome(event: TerminalEvent, smart_mouse: bool) -> EventOutcome {
    EventOutcome {
        redraw: event is Key || event is Resized || event is Paste || event is Timeout,
        buffer_changed: event is Paste,
        enable_mouse: event is FocusIn && smart_mouse,
        leave: event is Failed,
    }
}

/// `after` is `before` with an event taken in.
pub open spec fn has_taken_event(
    before: App,
    after: App,
    event: TerminalEvent,
    now: Time,
) -> bool {
    match event {
        TerminalEvent::Key => after == (App { last_activity_time: now, ..before }),
        TerminalEvent::Mouse => after == (App { last_activity_time: now, ..before }),
        TerminalEvent::Resized { .. } => after == (App {
            last_resize_time: Some(now),
            needs_full_redraw: true,
            ..before
        }),
        TerminalEvent::FocusOut => after == (App { term_has_focus: false, ..before }),
        TerminalEvent::FocusIn => after == (App { term_has_focus: true, ..before }),
        TerminalEvent::Paste(text) => {
            let (head, tail) = match before.buffer.selected() {
                Some((a, b)) => (before.buffer.text@.take(a), before.buffer.text@.skip(b)),
                None => (
                    before.buffer.text@.take(before.buffer.cursor as int),
                    before.buffer.text@.skip(before.buffer.cursor as int),
                ),
            };
            &&& after == (App { buffer: after.buffer, ..before })
            &&& after.buffer.text@ == head + sanitized(text@) + tail
            &&& after.buffer.cursor == head.len() + sanitized(text@).len()
            &&& after.buffer.selection is None
        },
        TerminalEvent::Failed => after == (App {
            mode: AppRunningState::Exiting(ExitState::Eof),
            ..before
        }),
        _ => after == before,
    }
}

/// How the terminal's lines are moved out of the way when its size changes.
#[derive(Clone, Copy, Debug, PartialEq, Eq, Structural)]
pub struct ResizePlan {
    /// The cursor goes up by so many rows, to the first column.
    pub rows_up: u16,
    /// So many lines are deleted from there on.
    pub delete_lines: u32,
}

/// How the lines that were drawn are moved out of the way: the cursor goes to the
/// first of them, and they are deleted, as far as the terminal has rows.
pub fn plan_resize(rows_up: u16, terminal_rows: u16) -> (r: ResizePlan)
    ensures
        r.rows_up == rows_up,
        r.delete_lines == (if rows_up + 1 <= terminal_rows {
            rows_up + 1
        } else {
            terminal_rows as int
        }),
{
    let wanted: u32 = rows_up as u32 + 1;
    ResizePlan {
        rows_up,
        delete_lines: if wanted <= terminal_rows as u32 {
            wanted
        } else {
            terminal_rows as u32
        },
    }
}

/// Whether `time` lies back by `span` or more.
pub open spec fn is_past(time: Option<Time>, now: Time, span: Time) -> bool {
    time matches Some(t) && time_between(t, now) >= span
}

/// What is put off is done once, when enough time has passed.
pub open spec fn starts_delayed(app: App, now: Time, delay: Time) -> bool {
    app.has_run_delayed_startup is None && time_between(app.app_start_time, now) >= delay
}

fn lies_back(time: Option<Time>, now: Time, span: Time) -> (r: bool)
    ensures
        r == is_past(time, now, span),
{
    match time {
        Some(t) => elapsed(t, now) >= span,
        None => false,
    }
}

/// What is to happen next in the main loop.
#[derive(Clone, Copy, Debug, PartialEq, Eq, Structural)]
pub enum LoopPhase {
    /// A round begins.
    Begin,
    /// The background jobs are asked.
    Poll,
    /// The screen is drawn.
    Draw,
    /// The terminal is waited for.
    Wait,
    /// The shell is asked for signals.
    Check,
    /// Nothing: the main loop has ended.
    Left,
}

/// Where the main loop stands.
#[derive(Clone, Copy, Debug, PartialEq, Eq, Structural)]
pub struct MainLoop {
    pub phase: LoopPhase,
    /// Whether something has changed that is yet to be drawn.
    pub redraw: bool,
}

impl MainLoop {
    /// The main loop of a session that begins: the first round draws.
    pub fn new() -> (r: MainLoop)
        ensures
            r == (MainLoop { phase: LoopPhase::Begin, redraw: true }),
    {
        MainLoop { phase: LoopPhase::Begin, redraw: true }
    }
}

/// What was done in a phase of the main loop.
#[derive(Debug, PartialEq, Eq)]
pub enum RunStep {
    /// `delayed_startup` is how long startup is put off.
    Begun { now: Time, delayed_startup: Time },
    /// `redraw` tells whether a job had anything to say.
    Polled { redraw: bool, now: Time },
    /// `content` is what was drawn, and `viewport_top` the row at which it starts as
    /// far as the terminal tells.
    Drawn {
        succeeded: bool,
        content: Option<DrawnContent>,
        viewport_top: Option<u16>,
        integration: ShellIntegrationLevel,
        resend_prompt_codes: bool,
        now: Time,
    },
    /// The terminal reported something.
    Event { event: TerminalEvent, smart_mouse: bool, now: Time },
    /// `asked` tells whether mouse actions asked for a drawing, `refresh` is the
    /// longest time between two drawings, and `ran_traps` tells whether the shell
    /// handled signals; a signal that is not 0 ends the shell.
    Checked {
        asked: bool,
        refresh: Time,
        ran_traps: bool,
        terminating_signal: i32,
        now: Time,
    },
}

impl RunStep {
    /// The phase in which this is done.
    pub open spec fn phase(self) -> LoopPhase {
        match self {
            RunStep::Begun { .. } => LoopPhase::Begin,
            RunStep::Polled { .. } => LoopPhase::Poll,
            RunStep::Drawn { .. } => LoopPhase::Draw,
            RunStep::Event { .. } => LoopPhase::Wait,
            RunStep::Checked { .. } => LoopPhase::Check,
        }
    }
}

/// What the terminal is told about the prompt: where it was and where it is.
#[derive(Clone, Copy, Debug, PartialEq, Eq)]
pub struct PromptCodes {
    pub previous: PromptPlace,
    pub current: PromptPlace,
    pub is_running: bool,
}

/// What a step of the main loop leads to, besides the next phase.
#[derive(Clone, Copy, Debug, PartialEq, Eq)]
pub struct RunAction {
    /// The terminal is asked where the cursor is, because its size has settled.
    pub ask_cursor: bool,
    /// What was put off when the session began is done now.
    pub start_delayed: bool,
    /// The terminal is told where the prompt is.
    pub prompt_codes: Option<PromptCodes>,
    pub buffer_changed: bool,
    pub enable_mouse: bool,
}

impl RunAction {
    /// Nothing follows.
    pub open spec fn none() -> RunAction {
        RunAction {
            ask_cursor: false,
            start_delayed: false,
            prompt_codes: None,
            buffer_changed: false,
            enable_mouse: false,
        }
    }
}

/// Where the prompt is in the content; nowhere without one.
pub open spec fn prompt_in(content: Option<DrawnContent>) -> PromptPlace {
    match content {
        Some(c) => c.prompt,
        None => PromptPlace { start: None, end: None },
    }
}

fn find_prompt(content: &Option<DrawnContent>) -> (r: PromptPlace)
    ensures
        r == prompt_in(*content),
{
    match content {
        Some(c) => c.prompt,
        None => PromptPlace { start: None, end: None },
    }
}

/// What a step of the main loop leads to, besides the next phase.
pub open spec fn run_action(before: App, step: RunStep) -> RunAction {
    match step {
        RunStep::Begun { now, delayed_startup } => RunAction {
            ask_cursor: is_past(before.last_resize_time, now, RESIZE_QUIET_TIME),
            start_delayed: starts_delayed(before, now, delayed_startup),
            ..RunAction::none()
        },
        RunStep::Polled { .. } => RunAction::none(),
        RunStep::Drawn { succeeded, content, integration, resend_prompt_codes, .. } => RunAction {
            prompt_codes: if succeeded && !(integration is Nothing) {
                Some(
                    PromptCodes {
                        previous: if resend_prompt_codes {
                            prompt_in(None)
                        } else {
                            prompt_in(before.last_contents)
                        },
                        current: prompt_in(content),
                        is_running: before.mode is Running,
                    },
                )
            } else {
                None
            },
            ..RunAction::none()
        },
        RunStep::Event { event, smart_mouse, .. } => RunAction {
            buffer_changed: event_outcome(event, smart_mouse).buffer_changed,
            enable_mouse: event_outcome(event, smart_mouse).enable_mouse,
            ..RunAction::none()
        },
        RunStep::Checked { .. } => RunAction::none(),
    }
}

/// Where the main loop stands after a step. A round draws where something has
/// changed; then the terminal is waited for, if the session goes on. What it reports
/// decides whether the next round draws, and so do signals and the time since the
/// last drawing.
pub open spec fn next_loop(before: App, at: MainLoop, step: RunStep) -> MainLoop {
    match step {
        RunStep::Begun { .. } => MainLoop { phase: LoopPhase::Poll, ..at },
        RunStep::Polled { redraw, now } => {
            let draws = at.redraw || redraw || is_past(
                before.leader_key_active_at,
                now,
                LEADER_KEY_TIME,
            );
            MainLoop {
                phase: if draws {
                    LoopPhase::Draw
                } else if before.mode is Running {
                    LoopPhase::Wait
                } else {
                    LoopPhase::Left
                },
                redraw: draws,
            }
        },
        RunStep::Drawn { succeeded, .. } => MainLoop {
            phase: if succeeded && before.mode is Running {
                LoopPhase::Wait
            } else {
                LoopPhase::Left
            },
            ..at
        },
        RunStep::Event { event, smart_mouse, .. } => MainLoop {
            phase: if event_outcome(event, smart_mouse).leave {
                LoopPhase::Left
            } else {
                LoopPhase::Check
            },
            redraw: event_outcome(event, smart_mouse).redraw,
        },
        RunStep::Checked { asked, refresh, ran_traps, terminating_signal, now } => MainLoop {
            phase: if terminating_signal != 0 {
                LoopPhase::Left
            } else {
                LoopPhase::Begin
            },
            redraw: at.redraw || asked || ran_traps || time_between(before.last_draw_time, now)
                > refresh,
        },
    }
}

/// What was drawn, with the row at which the terminal says that it starts.
pub open spec fn placed(content: Option<DrawnContent>, viewport_top: Option<u16>) -> Option<
    DrawnContent,
> {
    match content {
        Some(c) => Some(
            DrawnContent {
                viewport_start: if viewport_top is Some {
                    viewport_top
                } else {
                    c.viewport_start
                },
                ..c
            },
        ),
        None => None,
    }
}

/// `after` is `before` after a step of the main loop.
pub open spec fn has_run(before: App, after: App, step: RunStep) -> bool {
    match step {
        RunStep::Begun { now, delayed_startup } => after == (App {
            last_resize_time: if is_past(before.last_resize_time, now, RESIZE_QUIET_TIME) {
                None
            } else {
                before.last_resize_time
            },
            has_run_delayed_startup: if starts_delayed(before, now, delayed_startup) {
                Some(now)
            } else {
                before.has_run_delayed_startup
            },
            ..before
        }),
        RunStep::Polled { now, .. } => after == (App {
            leader_key_active_at: if is_past(before.leader_key_active_at, now, LEADER_KEY_TIME) {
                None
            } else {
                before.leader_key_active_at
            },
            ..before
        }),
        RunStep::Drawn { succeeded, content, viewport_top, now, .. } => after == (if succeeded {
            App {
                last_draw_time: now,
                last_contents: placed(content, viewport_top),
                ..before
            }
        } else {
            App {
                mode: AppRunningState::Exiting(ExitState::WithoutCommand),
                last_contents: content,
                ..before
            }
        }),
        RunStep::Event { event, now, .. } => has_taken_event(before, after, event, now),
        RunStep::Checked { terminating_signal, .. } => after == (if terminating_signal != 0 {
            App { mode: AppRunningState::Exiting(ExitState::WithoutCommand), ..before }
        } else {
            before
        }),
    }
}

/// How a session that is in `mode` ends.
pub open spec fn exit_state_of(mode: AppRunningState) -> ExitState {
    match mode {
        AppRunningState::Exiting(state) => state,
        AppRunningState::Running => ExitState::WithoutCommand,
    }
}

impl App {
    /// Tells whether what was put off when the session began is to be done now.
    pub fn handle_delayed_startup(&mut self, now: Time, delay: Time) -> (r: bool)
        ensures
            r == starts_delayed(*old(self), now, delay),
            *final(self) == (if r {
                App { has_run_delayed_startup: Some(now), ..*old(self) }
            } else {
                *old(self)
            }),
    {
        if self.has_run_delayed_startup.is_some() {
            return false;
        }
        if elapsed(self.app_start_time, now) < delay {
            return false;
        }
        self.has_run_delayed_startup = Some(now);
        true
    }

    /// Takes in where the terminal says that its cursor is, in rows from the top.
    /// The content starts as many rows above as the cursor stands below its start.
    pub fn sync_viewport_top_from_cpr(&mut self, reported_row: Option<u16>, inline_cursor_y: u16) -> (r:
        Option<u16>)
        ensures
            r == (match reported_row {
                Some(row) => Some(
                    if row >= inline_cursor_y {
                        (row - inline_cursor_y) as u16
                    } else {
                        0
                    },
                ),
                None => None,
            }),
            *final(self) == (App {
                last_contents: placed(old(self).last_contents, r),
                ..*old(self)
            }),
    {
        match reported_row {
            Some(row) => {
                let top: u16 = if row >= inline_cursor_y {
                    row - inline_cursor_y
                } else {
                    0
                };
                if let Some(mut drawn) = self.last_contents {
                    drawn.viewport_start = Some(top);
                    self.last_contents = Some(drawn);
                }
                Some(top)
            },
            None => None,
        }
    }

    /// Takes in what the job has to say that looks for programs. What it has found is
    /// always put into the cache.
    pub fn poll_path_warming(&mut self, status: PathWarmingStatus) -> (r: WarmingOutcome)
        ensures
            r == (WarmingOutcome {
                redraw: old(self).path_warming_job is Some && !(status is Empty),
                apply_payload: old(self).path_warming_job is Some && status is Ready,
                reset_cache: false,
            }),
            *final(self) == (App {
                path_warming_job: if status is Empty {
                    old(self).path_warming_job
                } else {
                    None
                },
                ..*old(self)
            }),
    {
        let is_awaited = self.path_warming_job.is_some();
        let (is_done, is_ready) = match status {
            PathWarmingStatus::Ready => (true, true),
            PathWarmingStatus::Disconnected => (true, false),
            PathWarmingStatus::Empty => (false, false),
        };
        if is_done {
            self.path_warming_job = None;
        }
        WarmingOutcome {
            redraw: is_awaited && is_done,
            apply_payload: is_awaited && is_ready,
            reset_cache: false,
        }
    }

    /// Takes in what the job has to say that looks at the repository. Outside of
    /// one, the cache is emptied.
    pub fn poll_git_warming(&mut self, status: GitWarmingStatus) -> (r: WarmingOutcome)
        ensures
            r == (WarmingOutcome {
                redraw: old(self).git_warming_job is Some && !(status is Empty),
                apply_payload: old(self).git_warming_job is Some && status == (
                GitWarmingStatus::Ready { in_repository: true }),
                reset_cache: old(self).git_warming_job is Some && status == (
                GitWarmingStatus::Ready { in_repository: false }),
            }),
            *final(self) == (App {
                git_warming_job: if status is Empty {
                    old(self).git_warming_job
                } else {
                    None
                },
                ..*old(self)
            }),
    {
        let is_awaited = self.git_warming_job.is_some();
        let (is_done, apply_payload, reset_cache) = match status {
            GitWarmingStatus::Ready { in_repository } => (true, in_repository, !in_repository),
            GitWarmingStatus::Disconnected => (true, false, false),
            GitWarmingStatus::Empty => (false, false, false),
        };
        if is_done {
            self.git_warming_job = None;
        }
        WarmingOutcome {
            redraw: is_awaited && is_done,
            apply_payload: is_awaited && apply_payload,
            reset_cache: is_awaited && reset_cache,
        }
    }

    /// Whether nothing has been typed for a while.
    pub fn is_idle(&self, now: Time) -> (r: bool)
        ensures
            r == (time_between(self.last_activity_time, now) >= IDLE_TIMEOUT),
    {
        elapsed(self.last_activity_time, now) >= IDLE_TIMEOUT
    }

    /// Plans a drawing: what was asked for since the last one is done with it.
    pub fn plan_draw(
        &mut self,
        mouse: &MouseState,
        content_height: u16,
        frame_height: u16,
        terminal_height: u16,
        draws_terminal_cursor: bool,
    ) -> (r: DrawPlan)
        requires
            old(self).wf(),
        ensures
            r == (DrawPlan {
                resync_size: old(self).needs_full_redraw,
                clear_screen: old(self).needs_screen_cleared,
                grow_to: growth(content_height, frame_height, terminal_height),
                show_terminal_cursor: (draws_terminal_cursor || !(old(self).mode is Running))
                    && !hides_cursor(*old(self), *mouse),
                full_redraw: old(self).needs_full_redraw,
                resend_prompt_codes: old(self).needs_screen_cleared || old(self).needs_full_redraw,
            }),
            *final(self) == (App {
                needs_screen_cleared: false,
                needs_full_redraw: false,
                ..*old(self)
            }),
    {
        let desired: u16 = if content_height <= terminal_height {
            content_height
        } else {
            terminal_height
        };
        let over_command = match mouse.last_mouse_over_cell_semantic {
            Some(Tag::Command(_)) => true,
            _ => false,
        };
        let hidden = mouse.left_button_down && self.buffer.selection_range().is_some()
            && over_command;
        let plan = DrawPlan {
            resync_size: self.needs_full_redraw,
            clear_screen: self.needs_screen_cleared,
            grow_to: if desired > frame_height {
                Some(desired)
            } else {
                None
            },
            show_terminal_cursor: (draws_terminal_cursor || !self.mode.is_running()) && !hidden,
            full_redraw: self.needs_full_redraw,
            resend_prompt_codes: self.needs_screen_cleared || self.needs_full_redraw,
        };
        self.needs_screen_cleared = false;
        self.needs_full_redraw = false;
        plan
    }

    /// The session after another program has had the terminal.
    pub fn after_cooked_terminal(&mut self)
        ensures
            *final(self) == (App { needs_full_redraw: true, ..*old(self) }),
    {
        self.needs_full_redraw = true;
    }

    /// Takes in what the terminal reports.
    pub fn handle_event(&mut self, event: &TerminalEvent, smart_mouse: bool, now: Time) -> (r:
        EventOutcome)
        requires
            old(self).wf(),
        ensures
            final(self).wf(),
            r == event_outcome(*event, smart_mouse),
            has_taken_event(*old(self), *final(self), *event, now),
    {
        let mut outcome = EventOutcome {
            redraw: false,
            buffer_changed: false,
            enable_mouse: false,
            leave: false,
        };
        match event {
            TerminalEvent::Key => {
                self.last_activity_time = now;
                outcome.redraw = true;
            },
            TerminalEvent::Mouse => {
                self.last_activity_time = now;
            },
            TerminalEvent::Resized { .. } => {
                self.last_resize_time = Some(now);
                self.needs_full_redraw = true;
                outcome.redraw = true;
            },
            TerminalEvent::FocusOut => {
                self.term_has_focus = false;
            },
            TerminalEvent::FocusIn => {
                self.term_has_focus = true;
                outcome.enable_mouse = smart_mouse;
            },
            TerminalEvent::Paste(text) => {
                let ghost before = self.buffer;
                let _deleted = self.buffer.delete_selection();
                let ghost middle = self.buffer;
                self.buffer.insert_str(text.as_str());
                proof {
                    if let Some((a, b)) = before.selected() {
                        assert(middle.text@.take(a) =~= before.text@.take(a));
                        assert(middle.text@.skip(a) =~= before.text@.skip(b));
                    }
                }
                outcome.redraw = true;
                outcome.buffer_changed = true;
            },
            TerminalEvent::Other => {},
            TerminalEvent::Timeout => {
                outcome.redraw = true;
            },
            TerminalEvent::Failed => {
                self.mode = AppRunningState::Exiting(ExitState::Eof);
                outcome.leave = true;
            },
        }
        outcome
    }

    /// Takes a step of the main loop, and tells in `at` what is to happen next.
    pub fn run(&mut self, at: &mut MainLoop, step: &RunStep) -> (r: RunAction)
        requires
            old(self).wf(),
            step.phase() == old(at).phase,
        ensures
            final(self).wf(),
            has_run(*old(self), *final(self), *step),
            *final(at) == next_loop(*old(self), *old(at), *step),
            r == run_action(*old(self), *step),
    {
        let mut action = RunAction {
            ask_cursor: false,
            start_delayed: false,
            prompt_codes: None,
            buffer_changed: false,
            enable_mouse: false,
        };
        match step {
            RunStep::Begun { now, delayed_startup } => {
                action.ask_cursor = lies_back(self.last_resize_time, *now, RESIZE_QUIET_TIME);
                if action.ask_cursor {
                    self.last_resize_time = None;
                }
                action.start_delayed = self.handle_delayed_startup(*now, *delayed_startup);
                at.phase = LoopPhase::Poll;
            },
            RunStep::Polled { redraw, now } => {
                let leader_is_over = lies_back(self.leader_key_active_at, *now, LEADER_KEY_TIME);
                if leader_is_over {
                    self.leader_key_active_at = None;
                }
                at.redraw = at.redraw || *redraw || leader_is_over;
                at.phase = if at.redraw {
                    LoopPhase::Draw
                } else if self.mode.is_running() {
                    LoopPhase::Wait
                } else {
                    LoopPhase::Left
                };
            },
            RunStep::Drawn {
                succeeded,
                content,
                viewport_top,
                integration,
                resend_prompt_codes,
                now,
            } => {
                let previous = if *resend_prompt_codes {
                    PromptPlace { start: None, end: None }
                } else {
                    find_prompt(&self.last_contents)
                };
                self.last_contents = *content;
                if *succeeded {
                    self.last_draw_time = *now;
                    if viewport_top.is_some() {
                        if let Some(mut drawn) = self.last_contents {
                            drawn.viewport_start = *viewport_top;
                            self.last_contents = Some(drawn);
                        }
                    }
                    if integration.marks_prompt() {
                        action.prompt_codes = Some(
                            PromptCodes {
                                previous,
                                current: find_prompt(content),
                                is_running: self.mode.is_running(),
                            },
                        );
                    }
                } else {
                    self.mode = AppRunningState::Exiting(ExitState::WithoutCommand);
                }
                at.phase = if self.mode.is_running() {
                    LoopPhase::Wait
                } else {
                    LoopPhase::Left
                };
            },
            RunStep::Event { event, smart_mouse, now } => {
                let outcome = self.handle_event(event, *smart_mouse, *now);
                action.buffer_changed = outcome.buffer_changed;
                action.enable_mouse = outcome.enable_mouse;
                at.redraw = outcome.redraw;
                at.phase = if outcome.leave {
                    LoopPhase::Left
                } else {
                    LoopPhase::Check
                };
            },
            RunStep::Checked { asked, refresh, ran_traps, terminating_signal, now } => {
                let is_late = elapsed(self.last_draw_time, *now) > *refresh;
                at.redraw = at.redraw || *asked || *ran_traps || is_late;
                if *terminating_signal != 0 {
                    self.mode = AppRunningState::Exiting(ExitState::WithoutCommand);
                    at.phase = LoopPhase::Left;
                } else {
                    at.phase = LoopPhase::Begin;
                }
            },
        }
        action
    }

    /// Ends the session. Input may still be on its way where the mouse was used, or
    /// reports of the focus were asked for, a moment ago.
    pub fn end_state(self, mouse: &MouseState, now: Time) -> (r: EndState)
        ensures
            r.exit_state == exit_state_of(self.mode),
            r.should_drain == (mouse.is_recent(now, TRAILING_INPUT_TIME) || (
            self.has_run_delayed_startup matches Some(t) && time_between(t, now)
                < TRAILING_INPUT_TIME)),
    {
        let recent_mouse = mouse.has_recent_mouse_activity(now, TRAILING_INPUT_TIME);
        let recent_startup = match self.has_run_delayed_startup {
            Some(t) => elapsed(t, now) < TRAILING_INPUT_TIME,
            None => false,
        };
        let exit_state = match self.mode {
            AppRunningState::Exiting(state) => state,
            AppRunningState::Running => ExitState::WithoutCommand,
        };
        EndState { exit_state, should_drain: recent_mouse || recent_startup }
    }
}

/// What is put off when the session begins is done once.
pub proof fn lemma_delayed_startup_runs_once(
    before: App,
    after: App,
    now: Time,
    delay: Time,
    later: Time,
    later_delay: Time,
)
    requires
        has_run(before, after, (RunStep::Begun { now, delayed_startup: delay })),
        starts_delayed(before, now, delay),
    ensures
        !starts_delayed(after, later, later_delay),
{
}

/// The main loop ends only with the session: where it has ended, so has the session.
pub proof fn lemma_loop_ends_with_the_session(before: App, after: App, at: MainLoop, step: RunStep)
    requires
        has_run(before, after, step),
        next_loop(before, at, step).phase is Left,
    ensures
        !(after.mode is Running),
{
}

/// A session in which the main loop ends without the user's doing ends without a
/// command, or at the end of the input.
pub proof fn lemma_leaving_has_no_command(before: App, after: App, at: MainLoop, step: RunStep)
    requires
        before.mode is Running,
        has_run(before, after, step),
        next_loop(before, at, step).phase is Left,
    ensures
        exit_state_of(after.mode) is WithoutCommand || exit_state_of(after.mode) is Eof,
{
}

/// The terminal is waited for only while the session goes on.
pub proof fn lemma_waits_only_while_running(before: App, after: App, at: MainLoop, step: RunStep)
    requires
        has_run(before, after, step),
        next_loop(before, at, step).phase is Wait,
    ensures
        after.mode is Running,
{
}

/// What a key did is drawn before the main loop waits or ends, whatever the
/// bindings and the jobs make of the session meanwhile, unless a signal ends it: the
/// user sees the command that they enter. The same holds of a text that is pasted
/// and of a terminal that changes its size.
pub proof fn lemma_what_a_key_did_is_drawn(
    sessions: Seq<App>,
    at: MainLoop,
    event: RunStep,
    check: RunStep,
    begin: RunStep,
    poll: RunStep,
)
    requires
        sessions.len() == 4,
        event matches RunStep::Event { event: e, .. } && (e is Key || e is Paste || e is Resized),
        check matches RunStep::Checked { terminating_signal, .. } && terminating_signal == 0,
        begin is Begun,
        poll is Polled,
    ensures
        ({
            let checking = next_loop(sessions[0], at, event);
            let beginning = next_loop(sessions[1], checking, check);
            let polling = next_loop(sessions[2], beginning, begin);
            let then = next_loop(sessions[3], polling, poll);
            &&& checking.phase is Check
            &&& beginning.phase is Begin
            &&& polling.phase is Poll
            &&& then.phase is Draw
        }),
{
}

/// A time lies back by a span exactly once that much has passed; what was not is never
/// past. The size has settled after 150 milliseconds, and the leader key waits for one
/// second.
pub proof fn lemma_when_time_is_past(t: Time, now: Time, span: Time)
    requires
        t <= now,
        0 < span,
    ensures
        is_past(Some(t), now, span) <==> now - t >= span,
        !is_past(None, now, span),
        !is_past(Some(now), t, span),
        RESIZE_QUIET_TIME == 150 * crate::state::MILLISECOND,
        LEADER_KEY_TIME == 1_000 * crate::state::MILLISECOND,
        TRAILING_INPUT_TIME == 100 * crate::state::MILLISECOND,
        IDLE_TIMEOUT == 30_000 * crate::state::MILLISECOND,
{
}

/// What is put off is done as soon as the delay is over and not before.
pub proof fn lemma_delayed_startup_waits(app: App, now: Time, delay: Time)
    requires
        app.has_run_delayed_startup is None,
        app.app_start_time <= now,
    ensures
        starts_delayed(app, now, delay) <==> now - app.app_start_time >= delay,
{
}

/// Keys, pasted texts, changes of the size and the end of waiting lead to a drawing; the
/// focus does not, and neither does the mouse by itself. Only a pasted text changes the
/// text. The mouse is switched on when the focus comes, where that is wanted. Only where
/// nothing can be read any more does the main loop end.
pub proof fn lemma_what_follows_from_events(event: TerminalEvent, smart_mouse: bool)
    ensures
        ({
            let r = event_outcome(event, smart_mouse);
            &&& event is Key || event is Paste || event is Resized || event is Timeout ==> r.redraw
            &&& event is Mouse || event is FocusIn || event is FocusOut || event is Other
                || event is Failed ==> !r.redraw
            &&& r.buffer_changed <==> event is Paste
            &&& r.enable_mouse <==> event is FocusIn && smart_mouse
            &&& r.leave <==> event is Failed
        }),
{
}

/// A text that is pasted is inserted at the cursor, in the place of what is selected, with
/// its line ends as line feeds; the cursor stands behind it, and nothing is selected any
/// more.
pub proof fn lemma_pasted_text_replaces_the_selection(
    before: App,
    after: App,
    text: String,
    now: Time,
    from: int,
    to: int,
)
    requires
        before.wf(),
        has_taken_event(before, after, (TerminalEvent::Paste(text)), now),
        !text@.contains('\r'),
        before.buffer.selection matches Some(a) ==> a <= before.buffer.text@.len() && a
            != before.buffer.cursor ==> (from == a && to == before.buffer.cursor) || (from
            == before.buffer.cursor && to == a),
        !(before.buffer.selection matches Some(a) && a <= before.buffer.text@.len() && a
            != before.buffer.cursor) ==> from == before.buffer.cursor && to
            == before.buffer.cursor,
        from <= to,
    ensures
        after.buffer.text@ == before.buffer.text@.take(from) + text@ + before.buffer.text@.skip(to),
        after.buffer.cursor == from + text@.len(),
        after.buffer.selection is None,
        after.content_mode == before.content_mode,
{
    crate::textbuffer::lemma_sanitized_plain(text@);
}

/// Keys and the mouse count as something that the user did; the focus is remembered; a
/// change of the size is drawn anew in full; where nothing can be read any more, the
/// session ends at the end of the input. None of these changes the text.
pub proof fn lemma_events_are_taken_in(before: App, after: App, event: TerminalEvent, now: Time)
    requires
        has_taken_event(before, after, event, now),
        !(event is Paste),
    ensures
        after.buffer == before.buffer,
        after.content_mode == before.content_mode,
        after.last_activity_time == (if event is Key || event is Mouse {
            now
        } else {
            before.last_activity_time
        }),
        after.term_has_focus == (if event is FocusIn {
            true
        } else if event is FocusOut {
            false
        } else {
            before.term_has_focus
        }),
        event is Resized ==> after.needs_full_redraw && after.last_resize_time == Some(now),
        !(event is Resized) ==> after.needs_full_redraw == before.needs_full_redraw
            && after.last_resize_time == before.last_resize_time,
        event is Failed ==> after.mode == AppRunningState::Exiting(ExitState::Eof),
        !(event is Failed) ==> after.mode == before.mode,
{
}

/// A round draws where something has changed since the last drawing, a job has something
/// to say, or the leader key has waited long enough; else it goes on without a drawing.
pub proof fn lemma_when_a_round_draws(before: App, at: MainLoop, redraw: bool, now: Time)
    ensures
        ({
            let next = next_loop(before, at, (RunStep::Polled { redraw, now }));
            &&& at.redraw || redraw ==> next.phase is Draw
            &&& before.leader_key_active_at matches Some(t) ==> t <= now && now - t
                >= 1_000 * crate::state::MILLISECOND ==> next.phase is Draw
            &&& !at.redraw && !redraw && before.leader_key_active_at is None ==> next.phase == (
            if before.mode is Running {
                LoopPhase::Wait
            } else {
                LoopPhase::Left
            })
        }),
{
}

/// After the terminal was waited for, the next round draws where the event, mouse actions,
/// signals or the time since the last drawing ask for it, and only then. A signal that
/// ends the shell ends the main loop; else the next round begins.
pub proof fn lemma_when_the_next_round_draws(
    before: App,
    at: MainLoop,
    asked: bool,
    refresh: Time,
    ran_traps: bool,
    terminating_signal: i32,
    now: Time,
)
    requires
        before.last_draw_time <= now,
    ensures
        ({
            let next = next_loop(
                before,
                at,
                (RunStep::Checked { asked, refresh, ran_traps, terminating_signal, now }),
            );
            &&& next.redraw <==> at.redraw || asked || ran_traps || now - before.last_draw_time
                > refresh
            &&& next.phase is Left <==> terminating_signal != 0
            &&& next.phase is Begin <==> terminating_signal == 0
        }),
{
}

/// What was drawn is remembered with the time, and, as far as the terminal tells, with the
/// row at which it starts. Where drawing fails, the session ends without a command.
pub proof fn lemma_drawing_is_remembered(
    before: App,
    after: App,
    at: MainLoop,
    content: DrawnContent,
    viewport_top: Option<u16>,
    integration: ShellIntegrationLevel,
    resend_prompt_codes: bool,
    succeeded: bool,
    now: Time,
)
    requires
        has_run(
            before,
            after,
            (RunStep::Drawn {
                succeeded,
                content: Some(content),
                viewport_top,
                integration,
                resend_prompt_codes,
                now,
            }),
        ),
    ensures
        after.buffer == before.buffer,
        succeeded ==> after.last_draw_time == now && after.mode == before.mode && (
        after.last_contents matches Some(c) && c.prompt == content.prompt && c.viewport_start == (
        if viewport_top is Some {
            viewport_top
        } else {
            content.viewport_start
        })),
        !succeeded ==> after.mode == AppRunningState::Exiting(ExitState::WithoutCommand)
            && after.last_draw_time == before.last_draw_time,
{
}

/// The terminal is told where the prompt is after each drawing, unless it is to be told
/// nothing. It is told as if for the first time where it has to be told again.
pub proof fn lemma_terminal_is_told_of_the_prompt(
    before: App,
    content: DrawnContent,
    viewport_top: Option<u16>,
    integration: ShellIntegrationLevel,
    resend_prompt_codes: bool,
    now: Time,
)
    ensures
        ({
            let r = run_action(
                before,
                (RunStep::Drawn {
                    succeeded: true,
                    content: Some(content),
                    viewport_top,
                    integration,
                    resend_prompt_codes,
                    now,
                }),
            );
            &&& r.prompt_codes is None <==> integration is Nothing
            &&& r.prompt_codes matches Some(codes) ==> {
                &&& codes.current == content.prompt
                &&& codes.is_running == (before.mode is Running)
                &&& resend_prompt_codes || before.last_contents is None ==> codes.previous == (
                PromptPlace { start: None, end: None })
                &&& !resend_prompt_codes && before.last_contents is Some ==> codes.previous
                    == before.last_contents->0.prompt
            }
        }),
{
}

/// Content gets as many rows as it needs, at most those of the terminal, and never fewer
/// than it has.
pub proof fn lemma_content_grows_as_needed(
    content_height: u16,
    frame_height: u16,
    terminal_height: u16,
)
    ensures
        match growth(content_height, frame_height, terminal_height) {
            Some(rows) => rows > frame_height && rows <= content_height && rows <= terminal_height
                && (rows == content_height || rows == terminal_height),
            None => content_height <= frame_height || terminal_height <= frame_height,
        },
{
}

/// The terminal's cursor is hidden only while the left button selects in the edited text:
/// it is down there, and something is selected.
pub proof fn lemma_when_the_cursor_is_hidden(app: App, mouse: MouseState)
    requires
        app.wf(),
    ensures
        hides_cursor(app, mouse) <==> mouse.left_button_down && (app.buffer.selection matches Some(
            a,
        ) && a <= app.buffer.text@.len() && a != app.buffer.cursor) && (
        mouse.last_mouse_over_cell_semantic matches Some(tag) && tag is Command),
{
}

/// A mark with spaces behind it fills a line, where the line is longer than the mark.
pub proof fn lemma_mark_and_spaces_fill_the_line(width: nat, used: nat, i: int)
    ensures
        used <= width ==> used + spaces(rest_of_line(width, used)).len() == width,
        used > width ==> spaces(rest_of_line(width, used)).len() == 0,
        0 <= i < spaces(rest_of_line(width, used)).len() ==> spaces(
            rest_of_line(width, used),
        )[i] == ' ',
{
}

/// A session that has ended ends as it did; one that still runs ends without a command.
pub proof fn lemma_how_a_session_ends(state: ExitState)
    ensures
        exit_state_of(AppRunningState::Exiting(state)) == state,
        exit_state_of(AppRunningState::Running) is WithoutCommand,
{
}

/// The terminal is asked where the cursor is once its size has been left alone for 150
/// milliseconds, and once for each change; the leader key is over after a second, and
/// then forgotten. Nothing else happens to the session when a round begins.
pub proof fn lemma_settled_size_is_asked_for_once(
    before: App,
    after: App,
    now: Time,
    delayed_startup: Time,
)
    requires
        has_run(before, after, (RunStep::Begun { now, delayed_startup })),
    ensures
        ({
            let r = run_action(before, (RunStep::Begun { now, delayed_startup }));
            &&& r.ask_cursor <==> (before.last_resize_time matches Some(t) && now - t >= 150
                * crate::state::MILLISECOND)
            &&& r.ask_cursor ==> after.last_resize_time is None
            &&& !r.ask_cursor ==> after.last_resize_time == before.last_resize_time
            &&& r.start_delayed ==> after.has_run_delayed_startup == Some(now)
            &&& !r.start_delayed ==> after.has_run_delayed_startup
                == before.has_run_delayed_startup
            &&& r.prompt_codes is None && !r.buffer_changed && !r.enable_mouse
            &&& after.buffer == before.buffer && after.mode == before.mode
        }),
{
}

/// The leader key is over once it has waited for a second, and then forgotten.
pub proof fn lemma_leader_key_is_forgotten(before: App, after: App, redraw: bool, now: Time)
    requires
        has_run(before, after, (RunStep::Polled { redraw, now })),
    ensures
        before.leader_key_active_at matches Some(t) && now - t >= 1_000 * crate::state::MILLISECOND
            ==> after.leader_key_active_at is None,
        before.leader_key_active_at matches Some(t) && now - t < 1_000 * crate::state::MILLISECOND
            ==> after.leader_key_active_at == before.leader_key_active_at,
        after.buffer == before.buffer,
        after.mode == before.mode,
{
}

/// A terminating signal ends the session without a command, and nothing else does so after
/// the terminal was waited for.
pub proof fn lemma_signal_ends_the_session(
    before: App,
    after: App,
    asked: bool,
    refresh: Time,
    ran_traps: bool,
    terminating_signal: i32,
    now: Time,
)
    requires
        has_run(
            before,
            after,
            (RunStep::Checked { asked, refresh, ran_traps, terminating_signal, now }),
        ),
    ensures
        terminating_signal != 0 ==> after.mode == AppRunningState::Exiting(
            ExitState::WithoutCommand,
        ),
        terminating_signal == 0 ==> after == before,
        after.buffer == before.buffer,
{
}

} // verus!
