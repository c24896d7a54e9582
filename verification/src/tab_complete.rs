//! Tab completion in a session: from the key to the text that is inserted.

use vstd::prelude::*;

verus! {

use crate::comp_spec::{alias_definition, aliased_command, command_of, definition_of};
use crate::context::{CompletionContext, SubString};
use crate::number::{signed_decimal, to_signed_decimal};
use crate::search::{completion_of, finished_search, SearchMode, ShellAnswers};
use crate::state::{
    ActiveSuggestions,
    App,
    ContentMode,
    FlycompPromptSelection,
    JobId,
    SuggestionDisplay,
    Time,
};
use crate::suggestion::{
    text_view,
    ActiveSuggestionsBuilder,
    BuilderView,
    CompType,
    ProcessedSuggestion,
    ProcessedView,
};
use crate::text::{
    all_chars_are,
    byte_len,
    concat,
    first_word,
    has_char,
    has_prefix,
    same_text,
};
use crate::textbuffer::{
    lemma_at_byte_unique,
    lemma_replaced_word_stands,
    lemma_sanitized_plain,
    word_stands_at,
    TextBuffer,
};

/// What became of completions that were applied to the text.
#[derive(Debug, PartialEq, Eq)]
pub enum TabCompleteBufferOutcome {
    /// The only suggestion was accepted: nothing is left to show.
    SoloAccepted,
    /// The suggestions are to be shown for this word, in which what all of them
    /// start with may have been inserted.
    Pending { final_wuc: SubString },
}

/// `after` is `before` with the word of `sub` replaced; the same text where that
/// word does not stand there.
pub open spec fn replaced_if_there(
    before: TextBuffer,
    after: TextBuffer,
    sub: SubString,
    word: Seq<char>,
) -> bool {
    if before.holds(sub) {
        exists|i: int|
            #![trigger word_stands_at(before.text@, sub.s@, sub.start as int, i)]
            word_stands_at(before.text@, sub.s@, sub.start as int, i) && after.has_replaced(
                before,
                sub,
                i,
                word,
            )
    } else {
        after == before
    }
}

/// The suggestion that is accepted without asking: the only one, where that is
/// wanted. `done` is its final form where it had none.
pub open spec fn solo_suggestion(builder: BuilderView, done: Option<ProcessedView>) -> Option<
    ProcessedView,
> {
    if builder.count() == 1 && builder.auto_accept_if_solo {
        if builder.processed.len() == 1 {
            Some(builder.processed[0])
        } else {
            done
        }
    } else {
        None
    }
}

/// The value of an optional suggestion.
pub open spec fn processed_view(p: Option<ProcessedSuggestion>) -> Option<ProcessedView> {
    match p {
        Some(p) => Some(p@),
        None => None,
    }
}

/// What applying completions to a text leads to.
pub open spec fn applied(
    before: TextBuffer,
    after: TextBuffer,
    builder: BuilderView,
    sub: SubString,
    done: Option<ProcessedView>,
    outcome: TabCompleteBufferOutcome,
) -> bool {
    match solo_suggestion(builder, done) {
        Some(p) => outcome is SoloAccepted && replaced_if_there(
            before,
            after,
            sub,
            p.formatted(),
        ),
        None => outcome matches TabCompleteBufferOutcome::Pending { final_wuc } && match
            builder.common_prefix {
            Some(common) => {
                &&& replaced_if_there(before, after, sub, common)
                &&& if before.holds(sub) {
                    final_wuc.s@ == common && final_wuc.start == sub.start
                } else {
                    final_wuc == sub
                }
            },
            None => after == before && final_wuc == sub,
        },
    }
}

/// Applies completions to the text: accepts the only suggestion, or inserts what
/// all suggestions start with.
pub fn apply_tab_complete_to_buffer(
    buffer: &mut TextBuffer,
    builder: &ActiveSuggestionsBuilder,
    wuc_substring: &SubString,
    done: &Option<ProcessedSuggestion>,
) -> (r: TabCompleteBufferOutcome)
    requires
        old(buffer).wf(),
    ensures
        final(buffer).wf(),
        applied(
            *old(buffer),
            *final(buffer),
            builder@,
            *wuc_substring,
            processed_view(*done),
            r,
        ),
{
    if builder.is_solo() && builder.auto_accept_if_solo {
        let solo: Option<String> = if builder.processed.len() == 1 {
            Some(builder.processed[0].formatted())
        } else {
            match done {
                Some(p) => Some(p.formatted()),
                None => None,
            }
        };
        if let Some(text) = solo {
            let _replaced = buffer.replace_word_under_cursor(text.as_str(), wuc_substring);
            return TabCompleteBufferOutcome::SoloAccepted;
        }
    }
    match &builder.common_prefix {
        Some(common) => match buffer.replace_word_under_cursor(common.as_str(), wuc_substring) {
            Some(new_wuc) => TabCompleteBufferOutcome::Pending { final_wuc: new_wuc },
            None => TabCompleteBufferOutcome::Pending { final_wuc: wuc_substring.copied() },
        },
        None => TabCompleteBufferOutcome::Pending { final_wuc: wuc_substring.copied() },
    }
}

/// A suggestion that was accepted stands in the text, with the cursor behind it.
pub proof fn lemma_accepted_suggestion_stands(
    before: TextBuffer,
    after: TextBuffer,
    builder: BuilderView,
    sub: SubString,
    done: Option<ProcessedView>,
    outcome: TabCompleteBufferOutcome,
)
    requires
        applied(before, after, builder, sub, done, outcome),
        solo_suggestion(builder, done) is Some,
        before.holds(sub),
        !solo_suggestion(builder, done)->0.formatted().contains('\r'),
    ensures
        ({
            let text = solo_suggestion(builder, done)->0.formatted();
            exists|i: int| #[trigger]
                word_stands_at(after.text@, text, sub.start as int, i) && after.cursor == i
                    + text.len()
        }),
{
    let text = solo_suggestion(builder, done)->0.formatted();
    lemma_sanitized_plain(text);
    let i = choose|i: int|
        #![trigger word_stands_at(before.text@, sub.s@, sub.start as int, i)]
        word_stands_at(before.text@, sub.s@, sub.start as int, i) && after.has_replaced(
            before,
            sub,
            i,
            text,
        );
    lemma_replaced_word_stands(before, after, sub, i, text);
}

/// The question whether a completion is to be made for a command is on the screen.
pub open spec fn asks_for_flycomp(
    mode: ContentMode,
    command: Seq<char>,
    word: Seq<char>,
    dump_path: Seq<char>,
    forced: bool,
) -> bool {
    match mode {
        ContentMode::TabCompletionAskForFlycomp {
            command_word,
            word_under_cursor,
            selection,
            dump_path: path,
            forced: f,
        } => {
            &&& command_word@ == command
            &&& word_under_cursor@ == word
            &&& selection is Yes
            &&& path@ == dump_path
            &&& f == forced
        },
        _ => false,
    }
}

/// Suggestions are on the screen.
pub open spec fn shows_suggestions(
    mode: ContentMode,
    builder: ActiveSuggestionsBuilder,
    word: SubString,
    load_time: Time,
    auto_started: bool,
    display: SuggestionDisplay,
) -> bool {
    mode matches ContentMode::TabCompletion(shown) && *shown == (ActiveSuggestions {
        builder,
        original_word_under_cursor: word,
        word_under_cursor: word,
        load_time,
        auto_started,
        sort_order: display.sort_order,
        fuzzy_mode: display.fuzzy_mode,
    })
}

/// Whether the only suggestion is the word that stands there already.
pub open spec fn completes_to_itself(builder: BuilderView, word: Seq<char>) -> bool {
    builder.count() == 1 && if builder.processed.len() == 1 {
        builder.processed[0].s == word
    } else {
        builder.unprocessed[0].raw_text == word
    }
}

/// Whether completions that nobody asked for are dropped without a word.
pub open spec fn is_dropped(builder: BuilderView, word: Seq<char>) -> bool {
    builder.count() == 0 || completes_to_itself(builder, word)
}

fn drops(builder: &ActiveSuggestionsBuilder, word: &str) -> (r: bool)
    ensures
        r == is_dropped(builder@, word@),
{
    if builder.is_empty() {
        return true;
    }
    if !builder.is_solo() {
        return false;
    }
    if builder.processed.len() == 1 {
        assert(builder@.processed[0].s == builder.processed@[0].s@);
        same_text(builder.processed[0].s.as_str(), word)
    } else {
        assert(builder@.unprocessed[0].raw_text == builder.unprocessed@[0].raw_text@);
        same_text(builder.unprocessed[0].match_text(), word)
    }
}

/// What finishing a completion makes of a session.
pub open spec fn finished(
    before: App,
    after: App,
    command: Seq<char>,
    builder: ActiveSuggestionsBuilder,
    word: SubString,
    load_time: Time,
    auto_started: bool,
    done: Option<ProcessedView>,
    dump_path: Seq<char>,
    display: SuggestionDisplay,
) -> bool {
    if builder.should_run_flycomp {
        &&& after == (App { content_mode: after.content_mode, ..before })
        &&& asks_for_flycomp(after.content_mode, command, word.s@, dump_path, false)
    } else if auto_started {
        if is_dropped(builder@, word.s@) {
            &&& after == (App {
                content_mode: ContentMode::Normal,
                dismissed_tab_completion_wuc: after.dismissed_tab_completion_wuc,
                ..before
            })
            &&& text_view(after.dismissed_tab_completion_wuc) == Some(word.s@)
        } else {
            &&& after == (App { content_mode: after.content_mode, ..before })
            &&& shows_suggestions(after.content_mode, builder, word, load_time, true, display)
        }
    } else {
        &&& after == (App { content_mode: after.content_mode, buffer: after.buffer, ..before })
        &&& exists|outcome: TabCompleteBufferOutcome| #[trigger]
            applied(before.buffer, after.buffer, builder@, word, done, outcome) && match outcome {
                TabCompleteBufferOutcome::SoloAccepted => after.content_mode is Normal,
                TabCompleteBufferOutcome::Pending { final_wuc } => shows_suggestions(
                    after.content_mode,
                    builder,
                    final_wuc,
                    load_time,
                    false,
                    display,
                ),
            }
    }
}

/// Completions that nobody asked for never change the text.
pub proof fn lemma_unasked_completions_leave_the_text(
    before: App,
    after: App,
    command: Seq<char>,
    builder: ActiveSuggestionsBuilder,
    word: SubString,
    load_time: Time,
    done: Option<ProcessedView>,
    dump_path: Seq<char>,
    display: SuggestionDisplay,
)
    requires
        finished(before, after, command, builder, word, load_time, true, done, dump_path, display),
    ensures
        after.buffer == before.buffer,
{
}

impl App {
    /// The suggestions that are on the screen, or were before those that are
    /// awaited.
    pub open spec fn active_suggestions(self) -> Option<Box<ActiveSuggestions>> {
        match self.content_mode {
            ContentMode::TabCompletion(suggestions) => Some(suggestions),
            ContentMode::TabCompletionWaiting { last_active_suggestions, .. } =>
                last_active_suggestions,
            _ => None,
        }
    }

    /// Whether completions are on the screen or awaited.
    pub open spec fn is_tab_completing(self) -> bool {
        self.content_mode is TabCompletion || self.content_mode is TabCompletionWaiting
    }

    /// Takes the suggestions off the screen, and gives up those that are awaited.
    pub fn take_active_suggestions(&mut self) -> (r: Option<Box<ActiveSuggestions>>)
        ensures
            r == old(self).active_suggestions(),
            *final(self) == (if old(self).is_tab_completing() {
                App { content_mode: ContentMode::Normal, ..*old(self) }
            } else {
                *old(self)
            }),
    {
        let mut taken = ContentMode::Normal;
        std::mem::swap(&mut taken, &mut self.content_mode);
        match taken {
            ContentMode::TabCompletion(suggestions) => Some(suggestions),
            ContentMode::TabCompletionWaiting { last_active_suggestions, .. } =>
                last_active_suggestions,
            other => {
                self.content_mode = other;
                None
            },
        }
    }

    /// Asks whether a completion is to be made for a command, which would be
    /// written to `dump_path`.
    pub fn start_flycomp_prompt(
        &mut self,
        command_word: &str,
        word_under_cursor: &str,
        dump_path: &str,
        forced: bool,
    )
        ensures
            *final(self) == (App { content_mode: final(self).content_mode, ..*old(self) }),
            asks_for_flycomp(
                final(self).content_mode,
                command_word@,
                word_under_cursor@,
                dump_path@,
                forced,
            ),
    {
        self.content_mode = ContentMode::TabCompletionAskForFlycomp {
            command_word: command_word.to_owned(),
            word_under_cursor: word_under_cursor.to_owned(),
            selection: FlycompPromptSelection::Yes,
            dump_path: dump_path.to_owned(),
            forced,
        };
    }

    /// Takes in the completions for a word.
    pub fn finish_tab_complete(
        &mut self,
        ctx: &CompletionContext,
        builder: ActiveSuggestionsBuilder,
        wuc_substring: SubString,
        load_time: Time,
        auto_started: bool,
        done: &Option<ProcessedSuggestion>,
        dump_path: &str,
        display: SuggestionDisplay,
    )
        requires
            old(self).wf(),
        ensures
            final(self).wf(),
            finished(
                *old(self),
                *final(self),
                first_word(ctx.command()),
                builder,
                wuc_substring,
                load_time,
                auto_started,
                processed_view(*done),
                dump_path@,
                display,
            ),
    {
        if builder.should_run_flycomp {
            let command_word = ctx.command_word();
            self.start_flycomp_prompt(
                command_word.as_str(),
                wuc_substring.s.as_str(),
                dump_path,
                false,
            );
            return;
        }
        if auto_started {
            if drops(&builder, wuc_substring.s.as_str()) {
                self.content_mode = ContentMode::Normal;
                self.dismissed_tab_completion_wuc = Some(wuc_substring.s);
                return;
            }
            let suggestions = ActiveSuggestions::new(
                builder,
                wuc_substring,
                load_time,
                true,
                display,
            );
            self.content_mode = ContentMode::TabCompletion(Box::new(suggestions));
            return;
        }
        let outcome = apply_tab_complete_to_buffer(
            &mut self.buffer,
            &builder,
            &wuc_substring,
            done,
        );
        let ghost seen = outcome;
        match outcome {
            TabCompleteBufferOutcome::SoloAccepted => {
                self.content_mode = ContentMode::Normal;
            },
            TabCompleteBufferOutcome::Pending { final_wuc } => {
                let suggestions = ActiveSuggestions::new(
                    builder,
                    final_wuc,
                    load_time,
                    false,
                    display,
                );
                self.content_mode = ContentMode::TabCompletion(Box::new(suggestions));
            },
        }
        assert(applied(
            old(self).buffer,
            self.buffer,
            builder@,
            wuc_substring,
            processed_view(*done),
            seen,
        ));
    }

    /// The session with an awaited completion given up.
    pub open spec fn without_waiting(self) -> App {
        App { content_mode: ContentMode::Normal, ..self }
    }

    /// Asks for a completion to be made for the command under the cursor, whatever
    /// is on the screen.
    pub fn force_start_flycomp(&mut self, ctx: &CompletionContext, dump_path: &str)
        ensures
            first_word(ctx.command()).len() == 0 ==> *final(self) == old(self).without_waiting(),
            first_word(ctx.command()).len() > 0 ==> *final(self) == (App {
                content_mode: final(self).content_mode,
                ..*old(self)
            }) && asks_for_flycomp(
                final(self).content_mode,
                first_word(ctx.command()),
                ctx.word(),
                dump_path@,
                true,
            ),
    {
        self.content_mode = ContentMode::Normal;
        let command_word = ctx.command_word();
        if !command_word.as_str().is_empty() {
            let word = ctx.word_under_cursor();
            self.start_flycomp_prompt(command_word.as_str(), word.as_str(), dump_path, true);
        }
    }

    /// Starts to look for completions of the word under the cursor. `job` is the
    /// job that looks for them; without one, nothing is looked for.
    pub fn start_tab_complete(
        &mut self,
        ctx: &CompletionContext,
        auto_started: bool,
        previous_suggestions: Option<Box<ActiveSuggestions>>,
        job: Option<JobId>,
        now: Time,
    )
        requires
            ctx.wf(),
        ensures
            *final(self) == (App {
                content_mode: final(self).content_mode,
                dismissed_tab_completion_wuc: None,
                ..*old(self)
            }),
            awaits_completions(
                final(self).content_mode,
                *ctx,
                auto_started,
                previous_suggestions,
                job,
                now,
            ),
    {
        self.content_mode = ContentMode::Normal;
        self.dismissed_tab_completion_wuc = None;
        if let Some(job) = job {
            self.content_mode = ContentMode::TabCompletionWaiting {
                job,
                wuc_substring: ctx.word_substring(),
                start_time: now,
                auto_started,
                last_active_suggestions: previous_suggestions,
            };
        }
    }
}

/// A job looks for completions, where there is one.
pub open spec fn awaits_completions(
    mode: ContentMode,
    ctx: CompletionContext,
    auto_started: bool,
    previous: Option<Box<ActiveSuggestions>>,
    job: Option<JobId>,
    now: Time,
) -> bool {
    match job {
        Some(j) => match mode {
            ContentMode::TabCompletionWaiting {
                job,
                wuc_substring,
                start_time,
                auto_started: a,
                last_active_suggestions,
            } => {
                &&& job == j
                &&& wuc_substring.s@ == ctx.word()
                &&& wuc_substring.start == ctx.start + byte_len(ctx.before@)
                &&& start_time == now
                &&& a == auto_started
                &&& last_active_suggestions == previous
            },
            _ => false,
        },
        None => mode is Normal,
    }
}

/// Whether a completion is to be made for a command whose own completion has
/// nothing useful to say: where that is enabled, the command is not exempt, the
/// user asked for completions, and the word is empty or the start of a flag.
pub fn will_run_flycomp(
    ctx: &CompletionContext,
    enabled: bool,
    is_blacklisted: bool,
    auto_started: bool,
) -> (r: bool)
    ensures
        r == (enabled && !is_blacklisted && !auto_started && forall|i: int|
            0 <= i < ctx.word().len() ==> ctx.word()[i] == '-'),
{
    let word = ctx.word_under_cursor();
    enabled && !is_blacklisted && !auto_started && all_chars_are(word.as_str(), '-')
}

/// How long to wait for completions before the screen is drawn without them, in
/// milliseconds.
pub fn first_wait_ms(auto_started: bool) -> (r: u16)
    ensures
        r == (if auto_started {
            1u16
        } else {
            10u16
        }),
{
    if auto_started {
        1
    } else {
        10
    }
}

/// What is known of the process of a job that has not answered.
#[derive(Debug, PartialEq, Eq)]
pub enum ProcessStatus {
    Running,
    Exited(i32),
    /// Ended by the signal of this name.
    Signaled(String),
}

/// What is known of a job.
#[derive(Debug, PartialEq, Eq)]
pub enum JobStatus<T> {
    Ready(T),
    /// It will not answer.
    Disconnected,
    Empty(ProcessStatus),
}

/// Completions with the time that it took to find them.
#[derive(Debug, PartialEq, Eq)]
pub struct TabCompletionPayload {
    pub builder: ActiveSuggestionsBuilder,
    pub elapsed: Time,
    /// The final form of the only suggestion, where it had none.
    pub solo: Option<ProcessedSuggestion>,
}

/// What follows from asking for a job.
#[derive(Clone, Copy, Debug, PartialEq, Eq, Structural)]
pub struct PollOutcome {
    /// The screen is to be drawn anew.
    pub redraw: bool,
    /// The text may have changed.
    pub buffer_changed: bool,
}

impl App {
    /// Takes in what the job that looks for completions has to say. A job that
    /// ended without completions is given up.
    pub fn poll_tab_completion(
        &mut self,
        ctx: &CompletionContext,
        status: JobStatus<Option<TabCompletionPayload>>,
        dump_path: &str,
        display: SuggestionDisplay,
    ) -> (r: PollOutcome)
        requires
            old(self).wf(),
        ensures
            final(self).wf(),
            match old(self).content_mode {
                ContentMode::TabCompletionWaiting { wuc_substring, auto_started, .. } => match
                    status {
                    JobStatus::Ready(Some(found)) => r == (PollOutcome {
                        redraw: true,
                        buffer_changed: true,
                    }) && finished(
                        old(self).without_waiting(),
                        *final(self),
                        first_word(ctx.command()),
                        found.builder,
                        wuc_substring,
                        found.elapsed,
                        auto_started,
                        processed_view(found.solo),
                        dump_path@,
                        display,
                    ),
                    JobStatus::Empty(ProcessStatus::Running) => r == (PollOutcome {
                        redraw: false,
                        buffer_changed: false,
                    }) && *final(self) == *old(self),
                    _ => r == (PollOutcome { redraw: true, buffer_changed: false }) && *final(self)
                        == old(self).without_waiting(),
                },
                _ => r == (PollOutcome { redraw: false, buffer_changed: false }) && *final(self)
                    == *old(self),
            },
    {
        let waiting = match &self.content_mode {
            ContentMode::TabCompletionWaiting { wuc_substring, auto_started, .. } => Some(
                (wuc_substring.copied(), *auto_started),
            ),
            _ => None,
        };
        let (word, auto_started) = match waiting {
            Some(w) => w,
            None => {
                return PollOutcome { redraw: false, buffer_changed: false };
            },
        };
        match status {
            JobStatus::Ready(Some(found)) => {
                self.content_mode = ContentMode::Normal;
                self.finish_tab_complete(
                    ctx,
                    found.builder,
                    word,
                    found.elapsed,
                    auto_started,
                    &found.solo,
                    dump_path,
                    display,
                );
                PollOutcome { redraw: true, buffer_changed: true }
            },
            JobStatus::Empty(ProcessStatus::Running) => PollOutcome {
                redraw: false,
                buffer_changed: false,
            },
            _ => {
                self.content_mode = ContentMode::Normal;
                PollOutcome { redraw: true, buffer_changed: false }
            },
        }
    }
}

/// What follows from asking for the job that makes a completion for a command.
#[derive(Debug, PartialEq, Eq)]
pub enum FlycompOutcome {
    /// Nothing yet.
    Waiting,
    /// The script is to be stored and run, and completions looked for again.
    Finished { command_word: String, script: String },
    /// The failure is on the screen.
    Failed,
}

/// Why no completion could be made for a command; `None` where that is still open.
pub open spec fn flycomp_failure(status: JobStatus<String>) -> Option<Seq<char>> {
    match status {
        JobStatus::Ready(_) => None,
        JobStatus::Disconnected => Some("flycomp subshell exited without payload"@),
        JobStatus::Empty(ProcessStatus::Exited(code)) => if code != 0 {
            Some("flycomp failed with exit code "@ + signed_decimal(code as int))
        } else {
            None
        },
        JobStatus::Empty(ProcessStatus::Signaled(signal)) => Some(
            "flycomp killed by signal "@ + signal@,
        ),
        JobStatus::Empty(ProcessStatus::Running) => None,
    }
}

/// A failure to make a completion is on the screen.
pub open spec fn shows_flycomp_failure(
    mode: ContentMode,
    command: Seq<char>,
    message: Seq<char>,
) -> bool {
    mode matches ContentMode::TabCompletionFlycompResult { command_word, error_message }
        && command_word@ == command && error_message@ == message
}

impl App {
    /// Takes in what the job that makes a completion for a command has to say.
    pub fn poll_flycomp(&mut self, status: JobStatus<String>) -> (r: FlycompOutcome)
        ensures
            *final(self) == (App { content_mode: final(self).content_mode, ..*old(self) }),
            match old(self).content_mode {
                ContentMode::TabCompletionRunningFlycomp { command_word, .. } => match status {
                    JobStatus::Ready(text) => {
                        &&& final(self).content_mode is Normal
                        &&& r matches FlycompOutcome::Finished { command_word: c, script }
                            && c@ == command_word@ && script == text
                    },
                    _ => match flycomp_failure(status) {
                        Some(message) => r is Failed && shows_flycomp_failure(
                            final(self).content_mode,
                            command_word@,
                            message,
                        ),
                        None => r is Waiting && *final(self) == *old(self),
                    },
                },
                _ => r is Waiting && *final(self) == *old(self),
            },
    {
        let command_word: String = match &self.content_mode {
            ContentMode::TabCompletionRunningFlycomp { command_word, .. } => command_word.clone(),
            _ => {
                return FlycompOutcome::Waiting;
            },
        };
        let message: String = match status {
            JobStatus::Ready(script) => {
                self.content_mode = ContentMode::Normal;
                return FlycompOutcome::Finished { command_word, script };
            },
            JobStatus::Disconnected => "flycomp subshell exited without payload".to_owned(),
            JobStatus::Empty(ProcessStatus::Exited(code)) => {
                if code == 0 {
                    return FlycompOutcome::Waiting;
                }
                let number = to_signed_decimal(code);
                concat("flycomp failed with exit code ", number.as_str())
            },
            JobStatus::Empty(ProcessStatus::Signaled(signal)) => concat(
                "flycomp killed by signal ",
                signal.as_str(),
            ),
            JobStatus::Empty(ProcessStatus::Running) => {
                return FlycompOutcome::Waiting;
            },
        };
        self.content_mode = ContentMode::TabCompletionFlycompResult {
            command_word,
            error_message: message,
        };
        FlycompOutcome::Failed
    }

    /// Shows that a completion is being made for a command, where a job was started
    /// for it.
    pub fn run_flycomp(
        &mut self,
        command_word: String,
        word_under_cursor: String,
        now: Time,
        job: Option<JobId>,
    )
        ensures
            *final(self) == (match job {
                Some(job) => App {
                    content_mode: ContentMode::TabCompletionRunningFlycomp {
                        command_word,
                        word_under_cursor,
                        start_time: now,
                        job,
                    },
                    ..*old(self)
                },
                None => *old(self),
            }),
    {
        if let Some(job) = job {
            self.content_mode = ContentMode::TabCompletionRunningFlycomp {
                command_word,
                word_under_cursor,
                start_time: now,
                job,
            };
        }
    }
}

/// The command for which a completion is made: what an alias for the word runs.
pub fn flycomp_command(command_word: &str, alias: &Option<String>) -> (r: String)
    ensures
        r@ == aliased_command(alias_definition(command_word@, text_view(*alias))),
{
    let definition = definition_of(command_word, alias);
    command_of(definition.as_str())
}

/// Whether a command is given by its path, which is to be expanded.
pub open spec fn is_command_path(command: Seq<char>) -> bool {
    "~"@.is_prefix_of(command) || command.contains('/')
}

/// Whether a command is given by its path, which is to be expanded.
pub fn needs_path_expansion(command: &str) -> (r: bool)
    ensures
        r == is_command_path(command@),
{
    has_prefix(command, "~") || has_char(command, '/')
}

/// The command whose completion is made: the expanded path where a path is given
/// and can be expanded.
pub fn flycomp_target(command: &str, expanded: &str) -> (r: String)
    ensures
        r@ == (if is_command_path(command@) && expanded@.len() > 0 {
            expanded@
        } else {
            command@
        }),
{
    if needs_path_expansion(command) && !expanded.is_empty() {
        expanded.to_owned()
    } else {
        command.to_owned()
    }
}

/// `sub` stands in the text at character `i`.
pub open spec fn stands_in(text: Seq<char>, sub: SubString, i: int) -> bool {
    &&& 0 <= i
    &&& i + sub.s@.len() <= text.len()
    &&& byte_len(text.take(i)) == sub.start
    &&& text.subrange(i, i + sub.s@.len()) == sub.s@
}

/// `after` is `before` with `word` in the place of `sub`, which stands at character `i`,
/// and the cursor behind it.
pub open spec fn is_replaced(
    before: TextBuffer,
    after: TextBuffer,
    sub: SubString,
    i: int,
    word: Seq<char>,
) -> bool {
    &&& after.text@ == before.text@.take(i) + word + before.text@.skip(i + sub.s@.len())
    &&& after.cursor == i + word.len()
    &&& after.selection == before.selection
}

proof fn lemma_replaced_where_it_stands(
    before: TextBuffer,
    after: TextBuffer,
    sub: SubString,
    word: Seq<char>,
    i: int,
)
    requires
        replaced_if_there(before, after, sub, word),
        !word.contains('\r'),
    ensures
        stands_in(before.text@, sub, i) ==> is_replaced(before, after, sub, i, word),
        (forall|k: int| !stands_in(before.text@, sub, k)) ==> after == before,
{
    lemma_sanitized_plain(word);
    if stands_in(before.text@, sub, i) {
        assert(word_stands_at(before.text@, sub.s@, sub.start as int, i));
        let k = choose|k: int|
            #![trigger word_stands_at(before.text@, sub.s@, sub.start as int, k)]
            word_stands_at(before.text@, sub.s@, sub.start as int, k) && after.has_replaced(
                before,
                sub,
                k,
                word,
            );
        lemma_at_byte_unique(before.text@, i, k, sub.start as int);
    }
    if forall|k: int| !stands_in(before.text@, sub, k) {
        assert forall|k: int| !word_stands_at(before.text@, sub.s@, sub.start as int, k) by {
            assert(!stands_in(before.text@, sub, k));
        }
    }
}

/// What is not to be accepted without asking is not: the suggestions are shown, and
/// without a text that all of them start with, nothing is inserted.
pub proof fn lemma_nothing_is_accepted_unasked(
    before: TextBuffer,
    after: TextBuffer,
    builder: BuilderView,
    sub: SubString,
    done: Option<ProcessedView>,
    outcome: TabCompleteBufferOutcome,
)
    requires
        applied(before, after, builder, sub, done, outcome),
        !builder.auto_accept_if_solo || builder.processed.len() + builder.unprocessed.len() != 1,
    ensures
        outcome is Pending,
        builder.common_prefix is None ==> after == before && outcome == (
        TabCompleteBufferOutcome::Pending { final_wuc: sub }),
{
}

/// A suggestion that is alone and may be accepted is: its text, with what comes before
/// and behind it, takes the place of the word, where that stands in the text still.
pub proof fn lemma_only_suggestion_is_accepted(
    before: TextBuffer,
    after: TextBuffer,
    builder: BuilderView,
    sub: SubString,
    done: Option<ProcessedView>,
    outcome: TabCompleteBufferOutcome,
    p: ProcessedView,
    i: int,
)
    requires
        applied(before, after, builder, sub, done, outcome),
        builder.auto_accept_if_solo,
        (builder.processed == seq![p] && builder.unprocessed.len() == 0) || (
        builder.processed.len() == 0 && builder.unprocessed.len() == 1 && done == Some(p)),
        !(p.prefix + p.s + p.suffix).contains('\r'),
    ensures
        outcome is SoloAccepted,
        stands_in(before.text@, sub, i) ==> is_replaced(
            before,
            after,
            sub,
            i,
            p.prefix + p.s + p.suffix,
        ),
        (forall|k: int| !stands_in(before.text@, sub, k)) ==> after == before,
{
    lemma_replaced_where_it_stands(before, after, sub, p.prefix + p.s + p.suffix, i);
}

/// What all suggestions start with is inserted where none of them is accepted, and they
/// are shown for the text that then stands there.
pub proof fn lemma_common_start_is_inserted(
    before: TextBuffer,
    after: TextBuffer,
    builder: BuilderView,
    sub: SubString,
    done: Option<ProcessedView>,
    outcome: TabCompleteBufferOutcome,
    common: Seq<char>,
    i: int,
)
    requires
        applied(before, after, builder, sub, done, outcome),
        !builder.auto_accept_if_solo || builder.processed.len() + builder.unprocessed.len() != 1,
        builder.common_prefix == Some(common),
        !common.contains('\r'),
    ensures
        stands_in(before.text@, sub, i) ==> is_replaced(before, after, sub, i, common) && (outcome
            matches TabCompleteBufferOutcome::Pending { final_wuc } && final_wuc.s@ == common
            && final_wuc.start == sub.start),
        (forall|k: int| !stands_in(before.text@, sub, k)) ==> after == before && outcome == (
        TabCompleteBufferOutcome::Pending { final_wuc: sub }),
{
    lemma_replaced_where_it_stands(before, after, sub, common, i);
    if stands_in(before.text@, sub, i) {
        assert(word_stands_at(before.text@, sub.s@, sub.start as int, i));
    }
    if forall|k: int| !stands_in(before.text@, sub, k) {
        assert forall|k: int| !word_stands_at(before.text@, sub.s@, sub.start as int, k) by {
            assert(!stands_in(before.text@, sub, k));
        }
    }
}

/// The suggestions are on the screen for a word, as the user wants them shown.
pub open spec fn are_shown(
    mode: ContentMode,
    builder: ActiveSuggestionsBuilder,
    word: SubString,
    auto_started: bool,
    load_time: Time,
    display: SuggestionDisplay,
) -> bool {
    mode matches ContentMode::TabCompletion(shown) && {
        &&& shown.builder == builder
        &&& shown.word_under_cursor == word
        &&& shown.original_word_under_cursor == word
        &&& shown.auto_started == auto_started
        &&& shown.load_time == load_time
        &&& shown.sort_order == display.sort_order
        &&& shown.fuzzy_mode == display.fuzzy_mode
    }
}

/// Completions that the user asked for and that are not to be accepted without asking are
/// shown for the word under the cursor, and the text stays as it is.
pub proof fn lemma_suggestions_are_shown(
    before: App,
    after: App,
    command: Seq<char>,
    builder: ActiveSuggestionsBuilder,
    word: SubString,
    load_time: Time,
    done: Option<ProcessedView>,
    dump_path: Seq<char>,
    display: SuggestionDisplay,
)
    requires
        finished(before, after, command, builder, word, load_time, false, done, dump_path, display),
        !builder.should_run_flycomp,
        !builder.auto_accept_if_solo || builder.processed@.len() + builder.unprocessed@.len() != 1,
        builder.common_prefix is None,
    ensures
        after.buffer == before.buffer,
        are_shown(after.content_mode, builder, word, false, load_time, display),
{
    let outcome = choose|outcome: TabCompleteBufferOutcome| #[trigger]
        applied(before.buffer, after.buffer, builder@, word, done, outcome) && match outcome {
            TabCompleteBufferOutcome::SoloAccepted => after.content_mode is Normal,
            TabCompleteBufferOutcome::Pending { final_wuc } => shows_suggestions(
                after.content_mode,
                builder,
                final_wuc,
                load_time,
                false,
                display,
            ),
        };
    lemma_nothing_is_accepted_unasked(
        before.buffer,
        after.buffer,
        builder@,
        word,
        done,
        outcome,
    );
}

/// Once a suggestion is accepted, nothing is left on the screen, and its text stands in
/// the place of the word.
pub proof fn lemma_accepted_suggestion_leaves_the_screen(
    before: App,
    after: App,
    command: Seq<char>,
    builder: ActiveSuggestionsBuilder,
    word: SubString,
    load_time: Time,
    done: Option<ProcessedView>,
    dump_path: Seq<char>,
    display: SuggestionDisplay,
    p: ProcessedView,
    i: int,
)
    requires
        finished(before, after, command, builder, word, load_time, false, done, dump_path, display),
        !builder.should_run_flycomp,
        builder.auto_accept_if_solo,
        (builder@.processed == seq![p] && builder.unprocessed@.len() == 0) || (
        builder.processed@.len() == 0 && builder.unprocessed@.len() == 1 && done == Some(p)),
        !(p.prefix + p.s + p.suffix).contains('\r'),
        stands_in(before.buffer.text@, word, i),
    ensures
        after.content_mode is Normal,
        is_replaced(before.buffer, after.buffer, word, i, p.prefix + p.s + p.suffix),
{
    let outcome = choose|outcome: TabCompleteBufferOutcome| #[trigger]
        applied(before.buffer, after.buffer, builder@, word, done, outcome) && match outcome {
            TabCompleteBufferOutcome::SoloAccepted => after.content_mode is Normal,
            TabCompleteBufferOutcome::Pending { final_wuc } => shows_suggestions(
                after.content_mode,
                builder,
                final_wuc,
                load_time,
                false,
                display,
            ),
        };
    lemma_only_suggestion_is_accepted(
        before.buffer,
        after.buffer,
        builder@,
        word,
        done,
        outcome,
        p,
        i,
    );
}

/// Completions that nobody asked for are shown for the word under the cursor, unless
/// there are none, or the only one is the word that stands there already. Those are
/// dropped, and not looked for again for that word.
pub proof fn lemma_unasked_completions_are_shown(
    before: App,
    after: App,
    command: Seq<char>,
    builder: ActiveSuggestionsBuilder,
    word: SubString,
    load_time: Time,
    done: Option<ProcessedView>,
    dump_path: Seq<char>,
    display: SuggestionDisplay,
)
    requires
        finished(before, after, command, builder, word, load_time, true, done, dump_path, display),
        !builder.should_run_flycomp,
    ensures
        ({
            let is_useless = (builder.processed@.len() == 0 && builder.unprocessed@.len() == 0) || (
            builder.processed@.len() == 1 && builder.unprocessed@.len() == 0
                && builder.processed@[0].s@ == word.s@) || (builder.processed@.len() == 0
                && builder.unprocessed@.len() == 1 && builder.unprocessed@[0].raw_text@ == word.s@);
            if is_useless {
                after.content_mode is Normal && (after.dismissed_tab_completion_wuc matches Some(w)
                    && w@ == word.s@)
            } else {
                after.dismissed_tab_completion_wuc == before.dismissed_tab_completion_wuc
                    && are_shown(after.content_mode, builder, word, true, load_time, display)
            }
        }),
{
}

/// Where a completion is to be made for a command, the user is asked for it first: the
/// question stands there with the command and the word, and the text stays as it is,
/// whether the completion was asked for or not.
pub proof fn lemma_user_is_asked_first(
    before: App,
    after: App,
    command: Seq<char>,
    builder: ActiveSuggestionsBuilder,
    word: SubString,
    load_time: Time,
    auto_started: bool,
    done: Option<ProcessedView>,
    dump_path: Seq<char>,
    display: SuggestionDisplay,
)
    requires
        finished(
            before,
            after,
            command,
            builder,
            word,
            load_time,
            auto_started,
            done,
            dump_path,
            display,
        ),
        builder.should_run_flycomp,
    ensures
        after.buffer == before.buffer,
        after.content_mode matches ContentMode::TabCompletionAskForFlycomp {
            command_word,
            word_under_cursor,
            selection,
            dump_path: path,
            forced,
        } && command_word@ == command && word_under_cursor@ == word.s@ && selection is Yes && path@
            == dump_path && !forced,
{
}

/// A job that was killed, or that ended with an error or without saying anything, has
/// failed, and the user is told why; one that runs, has an answer or ended well has not.
pub proof fn lemma_failures_of_jobs(status: JobStatus<String>)
    ensures
        flycomp_failure(status) is None <==> status is Ready || status == (JobStatus::<
            String,
        >::Empty(ProcessStatus::Running)) || status == (JobStatus::<String>::Empty(
            ProcessStatus::Exited(0),
        )),
        status matches JobStatus::Empty(ProcessStatus::Signaled(signal)) ==> (flycomp_failure(
            status,
        ) matches Some(m) && signal@.is_suffix_of(m)),
        status matches JobStatus::Empty(ProcessStatus::Exited(code)) ==> (flycomp_failure(
            status,
        ) matches Some(m) ==> signed_decimal(code as int).is_suffix_of(m)),
{
    match status {
        JobStatus::Empty(ProcessStatus::Signaled(signal)) => {
            let m = flycomp_failure(status)->0;
            assert(m.skip(m.len() - signal@.len()) =~= signal@);
        },
        JobStatus::Empty(ProcessStatus::Exited(code)) => {
            if code != 0 {
                let m = flycomp_failure(status)->0;
                let digits = signed_decimal(code as int);
                assert(m.skip(m.len() - digits.len()) =~= digits);
            }
        },
        _ => {},
    }
}

/// What a file or the command's own completion only matches never changes the text by
/// itself, however few suggestions there are: it is shown for the user to choose.
pub proof fn lemma_loose_matches_leave_the_text(
    ctx: CompletionContext,
    comp_type: CompType,
    mode: SearchMode,
    answers: ShellAnswers,
    found: BuilderView,
    forms: Seq<ProcessedView>,
    before: TextBuffer,
    after: TextBuffer,
    sub: SubString,
    done: Option<ProcessedView>,
    outcome: TabCompleteBufferOutcome,
)
    requires
        comp_type is FuzzyFilenameExpansion || comp_type is FuzzyCommandComp,
        completion_of(ctx, comp_type, mode, answers) == Some(found),
        applied(before, after, finished_search(found, forms), sub, done, outcome),
    ensures
        after == before,
        outcome == (TabCompleteBufferOutcome::Pending { final_wuc: sub }),
{
}

/// While completions are awaited, those that were on the screen before count as shown.
pub proof fn lemma_shown_while_others_are_awaited(app: App, shown: Box<ActiveSuggestions>)
    ensures
        app.content_mode == ContentMode::TabCompletion(shown) ==> app.active_suggestions() == Some(
            shown,
        ),
        app.content_mode matches ContentMode::TabCompletionWaiting { last_active_suggestions, .. }
            ==> app.active_suggestions() == last_active_suggestions,
        !(app.content_mode is TabCompletion) && !(app.content_mode is TabCompletionWaiting)
            ==> app.active_suggestions() is None && !app.is_tab_completing(),
        app.content_mode is TabCompletion || app.content_mode is TabCompletionWaiting
            ==> app.is_tab_completing(),
{
}

/// Completions are awaited for the word under the cursor, where it stands in the text,
/// with the suggestions that stay on the screen meanwhile. Without a job, nothing is
/// awaited.
pub proof fn lemma_completions_are_awaited_for_the_word(
    mode: ContentMode,
    ctx: CompletionContext,
    auto_started: bool,
    previous: Option<Box<ActiveSuggestions>>,
    job: Option<JobId>,
    now: Time,
)
    requires
        awaits_completions(mode, ctx, auto_started, previous, job, now),
    ensures
        job is None ==> mode is Normal,
        job is Some ==> (mode matches ContentMode::TabCompletionWaiting {
            job: j,
            wuc_substring,
            start_time,
            auto_started: a,
            last_active_suggestions,
        } && job == Some(j) && wuc_substring.s@ == ctx.left@ + ctx.right@ && wuc_substring.start
            == ctx.start + byte_len(ctx.before@) && start_time == now && a == auto_started
            && last_active_suggestions == previous),
{
}

/// A command is given by its path where it starts with a tilde or holds a slash.
pub proof fn lemma_when_a_command_is_a_path(command: Seq<char>)
    ensures
        is_command_path(command) <==> (command.len() > 0 && command[0] == '~') || command.contains(
            '/',
        ),
{
    reveal_strlit("~");
    assert("~"@ =~= seq!['~']);
    if command.len() > 0 {
        if command[0] == '~' {
            assert("~"@ =~= command.take(1));
        } else if "~"@.is_prefix_of(command) {
            assert("~"@[0] == command[0]);
        }
    }
}

} // verus!
