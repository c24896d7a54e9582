//! What follows when the edited text may have changed.

use vstd::prelude::*;

verus! {

use crate::agent::{agent_with_prefix, has_agent_error, none_asked, AgentEntry};
use crate::context::{CompletionContext, SubString};
use crate::state::{
    ActiveSuggestions,
    App,
    ContentMode,
    FuzzyHistorySource,
    HistoryEntry,
    KeyCode,
    KeyEventAction,
    LastKeyPress,
    SuggestionDisplay,
    Time,
};
use crate::suggestion::{
    copied_text,
    text_view,
    ActiveSuggestionsBuilder,
    CompType,
    ProcessedView,
};
use crate::tab_complete::{finished, is_dropped};
use crate::text::{all_chars_are, byte_len, char_count, has_prefix, same_text};

/// What becomes of the completions.
#[derive(Clone, Copy, Debug, PartialEq, Eq, Structural)]
pub enum CompletionAction {
    Keep,
    /// Completions are looked for anew. Those on the screen stay until then where
    /// they are carried over, because the new ones will be like them.
    Restart { carry_over: bool },
    Discard,
    /// Those on the screen are filtered by the new word.
    Update,
}

/// Whether an action walks through the history.
pub open spec fn walks_history(action: KeyEventAction) -> bool {
    !(action is Other)
}

/// Whether the last key walked through the history.
pub open spec fn navigated_history(last_key: Option<LastKeyPress>) -> bool {
    last_key matches Some(k) && exists|i: int|
        0 <= i < k.actions@.len() && walks_history(#[trigger] k.actions@[i])
}

/// Whether the last key has not been taken into account.
pub open spec fn is_fresh_key(app: App) -> bool {
    app.last_key matches Some(k) && k.sequence_number > app.last_processed_key_sequence
}

/// The character that the last key typed.
pub open spec fn typed_char(last_key: Option<LastKeyPress>) -> Option<char> {
    match last_key {
        Some(k) => match k.key.code {
            KeyCode::Char(c) => if k.key.control || k.key.alt {
                None
            } else {
                Some(c)
            },
            KeyCode::Other => None,
        },
        None => None,
    }
}

/// Whether a character that is typed calls for other completions: it starts a
/// directory, a variable, an extension or a value, or, in a word of dashes, a flag.
pub open spec fn is_trigger(c: char, word: Seq<char>) -> bool {
    c == '/' || c == '$' || c == '~' || c == '.' || c == '+' || c == '=' || (c == '-' && forall|
        i: int,
    |
        0 <= i < word.len() ==> word[i] == '-')
}

/// Whether the completions on the screen, or those that are awaited, started by
/// themselves.
pub open spec fn auto_started(mode: ContentMode) -> bool {
    match mode {
        ContentMode::TabCompletionWaiting { auto_started, .. } => auto_started,
        ContentMode::TabCompletion(shown) => shown.auto_started,
        _ => false,
    }
}

/// What becomes of completions that are awaited for the word `old`.
pub open spec fn action_while_waiting(
    old_word: Seq<char>,
    started_by_itself: bool,
    word: Seq<char>,
    auto_suggest: bool,
) -> CompletionAction {
    if started_by_itself && word.len() < old_word.len() {
        CompletionAction::Restart { carry_over: true }
    } else if !old_word.is_prefix_of(word) && !word.is_prefix_of(old_word) {
        if auto_suggest {
            CompletionAction::Restart { carry_over: false }
        } else {
            CompletionAction::Discard
        }
    } else {
        CompletionAction::Keep
    }
}

/// What becomes of completions that are on the screen.
pub open spec fn action_while_shown(
    shown: ActiveSuggestions,
    word: Seq<char>,
    start: int,
    has_glob: bool,
    auto_suggest: bool,
) -> CompletionAction {
    let original = shown.original_word_under_cursor.s@;
    let current = shown.word_under_cursor.s@;
    let same_start = start == shown.word_under_cursor.start;
    let unchanged = word == current && same_start;
    let change = word.len() - current.len();
    if shown.auto_started && word.len() < original.len() {
        CompletionAction::Restart { carry_over: true }
    } else if !unchanged && shown.auto_started && has_glob {
        CompletionAction::Restart { carry_over: true }
    } else if unchanged {
        CompletionAction::Keep
    } else if word.len() == 0 && original.len() > 0 {
        CompletionAction::Discard
    } else if same_start {
        if change > 1 || change < -1 {
            CompletionAction::Restart { carry_over: true }
        } else {
            CompletionAction::Update
        }
    } else if auto_suggest {
        CompletionAction::Restart { carry_over: false }
    } else {
        CompletionAction::Discard
    }
}

/// Whether a pattern can be expanded where the cursor stands.
pub open spec fn has_glob(ctx: CompletionContext) -> bool {
    exists|i: int| 0 <= i < ctx.comp_types@.len() && #[trigger] ctx.comp_types@[i] is GlobExpansion
}

/// How the user has set up suggestions, and what the mouse does.
#[derive(Clone, Copy, Debug, PartialEq, Eq)]
pub struct ChangeSettings {
    /// Completions start by themselves.
    pub auto_suggest: bool,
    /// The left button drags.
    pub is_dragging: bool,
}

/// What becomes of the completions: the first of these rules that applies. Dragging
/// discards them, and so does walking through the history or an empty text. For a
/// word for which they were dismissed, they stay dismissed. A trigger starts those
/// anew that started by themselves. Where nothing is shown, they start by
/// themselves if the user wants that. Else it depends on how the word has changed.
pub open spec fn action_for(
    app: App,
    ctx: CompletionContext,
    is_fresh: bool,
    settings: ChangeSettings,
) -> CompletionAction {
    let word = ctx.word();
    let key = typed_char(app.last_key);
    if settings.is_dragging {
        CompletionAction::Discard
    } else if navigated_history(app.last_key) || app.buffer.text@.len() == 0 {
        CompletionAction::Discard
    } else if text_view(app.dismissed_tab_completion_wuc) == Some(word) {
        CompletionAction::Keep
    } else if auto_started(app.content_mode) && is_fresh && key is Some && is_trigger(
        key->0,
        word,
    ) {
        CompletionAction::Restart { carry_over: key->0 == '-' || key->0 == '.' }
    } else if settings.auto_suggest && app.content_mode is Normal {
        CompletionAction::Restart { carry_over: false }
    } else {
        match app.content_mode {
            ContentMode::TabCompletionWaiting { wuc_substring, auto_started, .. } =>
                action_while_waiting(wuc_substring.s@, auto_started, word, settings.auto_suggest),
            ContentMode::TabCompletion(shown) => action_while_shown(
                *shown,
                word,
                ctx.start + byte_len(ctx.before@),
                has_glob(ctx),
                settings.auto_suggest,
            ),
            _ => CompletionAction::Keep,
        }
    }
}

fn key_walked_history(last_key: &Option<LastKeyPress>) -> (r: bool)
    ensures
        r == navigated_history(*last_key),
{
    match last_key {
        Some(k) => {
            let mut i: usize = 0;
            while i < k.actions.len()
                invariant
                    i <= k.actions@.len(),
                    *last_key == Some(*k),
                    forall|j: int| 0 <= j < i ==> !walks_history(#[trigger] k.actions@[j]),
                decreases k.actions@.len() - i,
            {
                match k.actions[i] {
                    KeyEventAction::Other => {},
                    _ => {
                        assert(walks_history(k.actions@[i as int]));
                        return true;
                    },
                }
                i = i + 1;
            }
            false
        },
        None => false,
    }
}

fn char_typed(last_key: &Option<LastKeyPress>) -> (r: Option<char>)
    ensures
        r == typed_char(*last_key),
{
    match last_key {
        Some(k) => match k.key.code {
            KeyCode::Char(c) => if k.key.control || k.key.alt {
                None
            } else {
                Some(c)
            },
            KeyCode::Other => None,
        },
        None => None,
    }
}

fn triggers(c: char, word: &str) -> (r: bool)
    ensures
        r == is_trigger(c, word@),
{
    c == '/' || c == '$' || c == '~' || c == '.' || c == '+' || c == '=' || (c == '-'
        && all_chars_are(word, '-'))
}

fn find_glob(ctx: &CompletionContext) -> (r: bool)
    ensures
        r == has_glob(*ctx),
{
    let mut i: usize = 0;
    while i < ctx.comp_types.len()
        invariant
            i <= ctx.comp_types@.len(),
            forall|j: int| 0 <= j < i ==> !(#[trigger] ctx.comp_types@[j] is GlobExpansion),
        decreases ctx.comp_types@.len() - i,
    {
        match &ctx.comp_types[i] {
            CompType::GlobExpansion => {
                assert(ctx.comp_types@[i as int] is GlobExpansion);
                return true;
            },
            _ => {},
        }
        i = i + 1;
    }
    false
}

fn decide_while_waiting(
    old_word: &str,
    started_by_itself: bool,
    word: &str,
    auto_suggest: bool,
) -> (r: CompletionAction)
    ensures
        r == action_while_waiting(old_word@, started_by_itself, word@, auto_suggest),
{
    if started_by_itself && char_count(word) < char_count(old_word) {
        CompletionAction::Restart { carry_over: true }
    } else if !has_prefix(word, old_word) && !has_prefix(old_word, word) {
        if auto_suggest {
            CompletionAction::Restart { carry_over: false }
        } else {
            CompletionAction::Discard
        }
    } else {
        CompletionAction::Keep
    }
}

fn decide_while_shown(
    shown: &ActiveSuggestions,
    word: &SubString,
    has_glob: bool,
    auto_suggest: bool,
) -> (r: CompletionAction)
    ensures
        r == action_while_shown(*shown, word.s@, word.start as int, has_glob, auto_suggest),
{
    let original = shown.original_word_under_cursor.s.as_str();
    let current = shown.word_under_cursor.s.as_str();
    let same_start = word.start == shown.word_under_cursor.start;
    let unchanged = same_start && same_text(word.s.as_str(), current);
    let new_len: usize = char_count(word.s.as_str());
    let old_len: usize = char_count(current);
    let original_len: usize = char_count(original);
    if shown.auto_started && new_len < original_len {
        CompletionAction::Restart { carry_over: true }
    } else if !unchanged && shown.auto_started && has_glob {
        CompletionAction::Restart { carry_over: true }
    } else if unchanged {
        CompletionAction::Keep
    } else if new_len == 0 && original_len > 0 {
        CompletionAction::Discard
    } else if same_start {
        let change: usize = if new_len >= old_len {
            new_len - old_len
        } else {
            old_len - new_len
        };
        if change > 1 {
            CompletionAction::Restart { carry_over: true }
        } else {
            CompletionAction::Update
        }
    } else if auto_suggest {
        CompletionAction::Restart { carry_over: false }
    } else {
        CompletionAction::Discard
    }
}

/// A choice among an agent's suggestions after a change of the text: it is given
/// up where the text is another.
pub open spec fn selection_follows_text(
    before: ContentMode,
    after: ContentMode,
    text: Seq<char>,
) -> bool {
    before matches ContentMode::AgentOutputSelection(b) && after
        matches ContentMode::AgentOutputSelection(a) && a.suggestions == b.suggestions && if text
        == b.last_buffer_content@ {
        a == b
    } else {
        a.selected_idx is None && a.last_buffer_content@ == text
    }
}

/// What is shown once the text has changed, apart from an agent's suggestions.
/// Walking along the prompt ends where the cursor has left the start, and an
/// agent's failure where the text is not that for which it was dismissed. A text
/// that asks for an agent opens the search through the questions; one that does
/// not closes it.
pub open spec fn mode_for_text(
    mode: ContentMode,
    cursor: int,
    is_dismissed: bool,
    navigated: bool,
    asks_for_agent: bool,
) -> ContentMode {
    let settled = if mode is PromptDirSelect && cursor != 0 {
        ContentMode::Normal
    } else if mode is AgentError && !is_dismissed {
        ContentMode::Normal
    } else {
        mode
    };
    if !navigated && settled is Normal {
        if !is_dismissed && asks_for_agent {
            ContentMode::FuzzyHistorySearch(FuzzyHistorySource::AgentPrompts)
        } else {
            settled
        }
    } else if settled == ContentMode::FuzzyHistorySearch(FuzzyHistorySource::AgentPrompts)
        && !asks_for_agent {
        ContentMode::Normal
    } else {
        settled
    }
}

/// Whether the agent stays dismissed for the text.
pub open spec fn stays_dismissed(app: App) -> bool {
    text_view(app.dismissed_agent_mode_buffer) == Some(app.buffer.text@)
}

/// The number of the last key that is taken into account.
pub open spec fn processed_sequence(app: App) -> u64 {
    match app.last_key {
        Some(k) => k.sequence_number,
        None => app.last_processed_key_sequence,
    }
}

/// `after` is `before` with everything but the completions settled for the text.
pub open spec fn is_settled(before: App, after: App, agents: Seq<AgentEntry>) -> bool {
    &&& after == (App {
        content_mode: after.content_mode,
        last_processed_key_sequence: processed_sequence(before),
        dismissed_agent_mode_buffer: if stays_dismissed(before) {
            before.dismissed_agent_mode_buffer
        } else {
            None
        },
        ..before
    })
    &&& if before.content_mode is AgentOutputSelection {
        selection_follows_text(before.content_mode, after.content_mode, before.buffer.text@)
    } else {
        after.content_mode == mode_for_text(
            before.content_mode,
            before.buffer.cursor as int,
            stays_dismissed(before),
            navigated_history(before.last_key),
            !none_asked(agents, before.buffer.text@),
        )
    }
}

/// Whether completions are thought about at all.
pub open spec fn minds_completions(app: App, settings: ChangeSettings) -> bool {
    (settings.auto_suggest || app.is_tab_completing()) && app.last_key is Some
}

/// `after` is `before` with `action` done to its completions; new ones are yet to
/// be looked for.
pub open spec fn has_done(
    before: App,
    after: App,
    action: CompletionAction,
    word: Seq<char>,
    start: int,
) -> bool {
    match action {
        CompletionAction::Keep => after == before,
        CompletionAction::Update => match before.content_mode {
            ContentMode::TabCompletion(shown) => {
                &&& after == (App {
                    content_mode: after.content_mode,
                    dismissed_tab_completion_wuc: None,
                    ..before
                })
                &&& after.content_mode matches ContentMode::TabCompletion(now) && *now == (
                ActiveSuggestions { word_under_cursor: now.word_under_cursor, ..*shown })
                    && now.word_under_cursor.s@ == word && now.word_under_cursor.start == start
            },
            _ => after == (App { dismissed_tab_completion_wuc: None, ..before }),
        },
        _ => after == (App {
            content_mode: if before.is_tab_completing() {
                ContentMode::Normal
            } else {
                before.content_mode
            },
            dismissed_tab_completion_wuc: None,
            ..before
        }),
    }
}

/// What is left to do after a change of the text.
#[derive(Debug, PartialEq, Eq)]
pub struct BufferChange {
    /// The search through an agent's questions is to be prepared.
    pub warm_agent_history: bool,
    /// What becomes of the completions; `None` where they are not thought about.
    pub action: Option<CompletionAction>,
    /// The suggestions that stay on the screen until the new ones come.
    pub carried: Option<Box<ActiveSuggestions>>,
}

impl App {
    /// Settles everything but the completions. Tells whether the search through an
    /// agent's questions was opened.
    fn settle(&mut self, agents: &Vec<AgentEntry>) -> (r: bool)
        ensures
            is_settled(*old(self), *final(self), agents@),
            r == (!(old(self).content_mode is AgentOutputSelection) && final(self).content_mode is FuzzyHistorySearch && !(old(self).content_mode is FuzzyHistorySearch)),
    {
        let navigated = key_walked_history(&self.last_key);
        if let Some(k) = &self.last_key {
            self.last_processed_key_sequence = k.sequence_number;
        }
        let is_dismissed = match &self.dismissed_agent_mode_buffer {
            Some(b) => same_text(b.as_str(), self.buffer.buffer()),
            None => false,
        };
        if !is_dismissed {
            self.dismissed_agent_mode_buffer = None;
        }
        let asks = agent_with_prefix(agents, self.buffer.buffer()).is_some();
        let mut mode = ContentMode::Normal;
        std::mem::swap(&mut mode, &mut self.content_mode);
        match mode {
            ContentMode::AgentOutputSelection(selection) => {
                let mut kept = selection;
                if !same_text(kept.last_buffer_content.as_str(), self.buffer.buffer()) {
                    kept.selected_idx = None;
                    kept.last_buffer_content = self.buffer.buffer().to_owned();
                }
                self.content_mode = ContentMode::AgentOutputSelection(kept);
                return false;
            },
            other => {
                let is_over = match &other {
                    ContentMode::PromptDirSelect(_) => self.buffer.cursor != 0,
                    ContentMode::AgentError { .. } => !is_dismissed,
                    _ => false,
                };
                if !is_over {
                    self.content_mode = other;
                }
            },
        }
        let is_normal = match &self.content_mode {
            ContentMode::Normal => true,
            _ => false,
        };
        if !navigated && is_normal {
            if !is_dismissed && asks {
                self.content_mode = ContentMode::FuzzyHistorySearch(
                    FuzzyHistorySource::AgentPrompts,
                );
                return true;
            }
        } else {
            let searches_prompts = match &self.content_mode {
                ContentMode::FuzzyHistorySearch(FuzzyHistorySource::AgentPrompts) => true,
                _ => false,
            };
            if searches_prompts && !asks {
                self.content_mode = ContentMode::Normal;
            }
        }
        false
    }

    fn decide(&self, ctx: &CompletionContext, is_fresh: bool, settings: &ChangeSettings) -> (r:
        CompletionAction)
        requires
            ctx.wf(),
        ensures
            r == action_for(*self, *ctx, is_fresh, *settings),
    {
        let word = ctx.word_substring();
        if settings.is_dragging {
            return CompletionAction::Discard;
        }
        if key_walked_history(&self.last_key) || self.buffer.buffer().is_empty() {
            return CompletionAction::Discard;
        }
        if let Some(dismissed) = &self.dismissed_tab_completion_wuc {
            if same_text(dismissed.as_str(), word.s.as_str()) {
                return CompletionAction::Keep;
            }
        }
        let started_by_itself = match &self.content_mode {
            ContentMode::TabCompletionWaiting { auto_started, .. } => *auto_started,
            ContentMode::TabCompletion(shown) => shown.auto_started,
            _ => false,
        };
        if started_by_itself && is_fresh {
            if let Some(c) = char_typed(&self.last_key) {
                if triggers(c, word.s.as_str()) {
                    return CompletionAction::Restart { carry_over: c == '-' || c == '.' };
                }
            }
        }
        match &self.content_mode {
            ContentMode::Normal => if settings.auto_suggest {
                CompletionAction::Restart { carry_over: false }
            } else {
                CompletionAction::Keep
            },
            ContentMode::TabCompletionWaiting { wuc_substring, auto_started, .. } =>
                decide_while_waiting(
                wuc_substring.s.as_str(),
                *auto_started,
                word.s.as_str(),
                settings.auto_suggest,
            ),
            ContentMode::TabCompletion(shown) => decide_while_shown(
                shown,
                &word,
                find_glob(ctx),
                settings.auto_suggest,
            ),
            _ => CompletionAction::Keep,
        }
    }

    /// Does to the completions what was decided. Gives the suggestions that were
    /// taken off the screen.
    fn act(&mut self, action: CompletionAction, word: SubString) -> (r: Option<
        Box<ActiveSuggestions>,
    >)
        ensures
            has_done(*old(self), *final(self), action, word.s@, word.start as int),
            r == (match action {
                CompletionAction::Restart { .. } => old(self).active_suggestions(),
                CompletionAction::Discard => old(self).active_suggestions(),
                _ => None,
            }),
    {
        match action {
            CompletionAction::Keep => None,
            CompletionAction::Update => {
                self.dismissed_tab_completion_wuc = None;
                let mut mode = ContentMode::Normal;
                std::mem::swap(&mut mode, &mut self.content_mode);
                match mode {
                    ContentMode::TabCompletion(shown) => {
                        let mut updated = *shown;
                        updated.word_under_cursor = word;
                        self.content_mode = ContentMode::TabCompletion(Box::new(updated));
                    },
                    other => {
                        self.content_mode = other;
                    },
                }
                None
            },
            _ => {
                self.dismissed_tab_completion_wuc = None;
                self.take_active_suggestions()
            },
        }
    }

    /// Settles what follows from the text, and decides what becomes of the
    /// completions. `ctx` is the command under the cursor. Where completions are to
    /// be looked for anew, that is left to [`App::start_tab_complete`].
    pub fn on_possible_buffer_change(
        &mut self,
        ctx: &CompletionContext,
        agents: &Vec<AgentEntry>,
        settings: &ChangeSettings,
    ) -> (r: BufferChange)
        requires
            ctx.wf(),
        ensures
            exists|settled: App| #[trigger]
                is_settled(*old(self), settled, agents@) && {
                    &&& r.warm_agent_history == (!(old(self).content_mode is AgentOutputSelection)
                        && settled.content_mode is FuzzyHistorySearch && !(old(self).content_mode is FuzzyHistorySearch))
                    &&& r.action == (if minds_completions(settled, *settings) {
                        Some(action_for(settled, *ctx, is_fresh_key(*old(self)), *settings))
                    } else {
                        None
                    })
                    &&& has_done(
                        settled,
                        *final(self),
                        match r.action {
                            Some(action) => action,
                            None => CompletionAction::Keep,
                        },
                        ctx.word(),
                        ctx.start + byte_len(ctx.before@),
                    )
                    &&& r.carried == (match r.action {
                        Some(CompletionAction::Restart { carry_over: true }) =>
                            settled.active_suggestions(),
                        _ => None,
                    })
                },
    {
        let is_fresh = match &self.last_key {
            Some(k) => k.sequence_number > self.last_processed_key_sequence,
            None => false,
        };
        let warm_agent_history = self.settle(agents);
        let ghost settled = *self;
        assert(is_settled(*old(self), settled, agents@));
        let is_completing = match &self.content_mode {
            ContentMode::TabCompletion(_) => true,
            ContentMode::TabCompletionWaiting { .. } => true,
            _ => false,
        };
        if !((settings.auto_suggest || is_completing) && self.last_key.is_some()) {
            return BufferChange { warm_agent_history, action: None, carried: None };
        }
        let action = self.decide(ctx, is_fresh, settings);
        let taken = self.act(action, ctx.word_substring());
        let carried: Option<Box<ActiveSuggestions>> = match action {
            CompletionAction::Restart { carry_over: true } => taken,
            _ => None,
        };
        BufferChange { warm_agent_history, action: Some(action), carried }
    }
}

/// A part of the text as it is drawn.
#[derive(Debug, PartialEq, Eq)]
pub struct FormattedPart {
    /// The byte at which it starts.
    pub start: usize,
    /// The byte behind it; a cursor there still belongs to the part.
    pub end: usize,
    pub tooltip: Option<String>,
}

/// The tooltip for the cursor: that of the last part that the cursor belongs to
/// and that has one.
pub open spec fn tooltip_at(parts: Seq<FormattedPart>, cursor: nat) -> Option<Seq<char>>
    decreases parts.len(),
{
    if parts.len() == 0 {
        None
    } else {
        let part = parts.last();
        if part.start <= cursor <= part.end && part.tooltip is Some {
            text_view(part.tooltip)
        } else {
            tooltip_at(parts.drop_last(), cursor)
        }
    }
}

fn find_tooltip(parts: &Vec<FormattedPart>, cursor: u128) -> (r: Option<String>)
    ensures
        text_view(r) == tooltip_at(parts@, cursor as nat),
{
    let mut n: usize = parts.len();
    assert(parts@.take(parts@.len() as int) =~= parts@);
    while n > 0
        invariant
            n <= parts@.len(),
            tooltip_at(parts@, cursor as nat) == tooltip_at(
                parts@.take(n as int),
                cursor as nat,
            ),
        decreases n,
    {
        let part = &parts[n - 1];
        assert(parts@.take(n as int).drop_last() =~= parts@.take(n - 1));
        if part.start as u128 <= cursor && cursor <= part.end as u128 && part.tooltip.is_some() {
            return copied_text(&part.tooltip);
        }
        n = n - 1;
    }
    None
}

/// Whether the text is drawn as a question to an agent.
pub open spec fn is_agent_text(mode: ContentMode) -> bool {
    ||| mode == ContentMode::FuzzyHistorySearch(FuzzyHistorySource::AgentPrompts)
    ||| mode is AgentError
    ||| mode is AgentOutputSelection
    ||| mode is AgentModeWaiting
}

/// Whether a suggestion of the history may stand behind the text.
pub open spec fn wants_inline_suggestion(app: App, show_inline_history: bool) -> bool {
    show_inline_history && app.buffer.text@.len() > 0 && text_view(
        app.dismissed_inline_suggestion_buffer,
    ) != Some(app.buffer.text@)
}

impl App {
    /// Whether the text is drawn as a question to an agent.
    pub fn formats_as_agent(&self) -> (r: bool)
        ensures
            r == is_agent_text(self.content_mode),
    {
        match &self.content_mode {
            ContentMode::FuzzyHistorySearch(FuzzyHistorySource::AgentPrompts) => true,
            ContentMode::AgentError { .. } => true,
            ContentMode::AgentOutputSelection(_) => true,
            ContentMode::AgentModeWaiting { .. } => true,
            _ => false,
        }
    }

    /// Takes over what was worked out for the text: the past command that it starts
    /// and the parts as which it is drawn.
    pub fn update_hints(
        &mut self,
        show_inline_history: bool,
        suggestion: Option<(HistoryEntry, String)>,
        parts: &Vec<FormattedPart>,
    )
        requires
            old(self).wf(),
        ensures
            *final(self) == (App {
                dismissed_inline_suggestion_buffer: if text_view(
                    old(self).dismissed_inline_suggestion_buffer,
                ) == Some(old(self).buffer.text@) {
                    old(self).dismissed_inline_suggestion_buffer
                } else {
                    None
                },
                inline_history_suggestion: if wants_inline_suggestion(
                    *old(self),
                    show_inline_history,
                ) {
                    suggestion
                } else {
                    None
                },
                tooltip: final(self).tooltip,
                ..*old(self)
            }),
            text_view(final(self).tooltip) == tooltip_at(parts@, old(self).buffer.cursor_byte()),
    {
        let is_dismissed = match &self.dismissed_inline_suggestion_buffer {
            Some(b) => same_text(b.as_str(), self.buffer.buffer()),
            None => false,
        };
        if !is_dismissed {
            self.dismissed_inline_suggestion_buffer = None;
        }
        self.inline_history_suggestion = if !show_inline_history || self.buffer.buffer().is_empty()
            || is_dismissed {
            None
        } else {
            suggestion
        };
        self.tooltip = find_tooltip(parts, self.buffer.cursor_byte_pos());
    }
}

/// Completions that the user dismissed for a word do not come back while that word
/// stands there: they are kept dismissed, or discarded.
pub proof fn lemma_dismissed_stays_dismissed(
    app: App,
    ctx: CompletionContext,
    is_fresh: bool,
    settings: ChangeSettings,
)
    requires
        text_view(app.dismissed_tab_completion_wuc) == Some(ctx.word()),
    ensures
        action_for(app, ctx, is_fresh, settings) is Keep || action_for(
            app,
            ctx,
            is_fresh,
            settings,
        ) is Discard,
{
}

/// Completions that were dropped for a word, because there was nothing to show, are
/// not looked for again while that word stands there.
pub proof fn lemma_dropped_completions_stay_away(
    before: App,
    after: App,
    command: Seq<char>,
    builder: ActiveSuggestionsBuilder,
    word: SubString,
    load_time: Time,
    done: Option<ProcessedView>,
    dump_path: Seq<char>,
    display: SuggestionDisplay,
    ctx: CompletionContext,
    is_fresh: bool,
    settings: ChangeSettings,
)
    requires
        finished(before, after, command, builder, word, load_time, true, done, dump_path, display),
        !builder.should_run_flycomp,
        is_dropped(builder@, word.s@),
        ctx.word() == word.s@,
    ensures
        !(action_for(after, ctx, is_fresh, settings) is Restart),
{
}

/// Completions never start by themselves unless the user has set that, or they
/// were started so before.
pub proof fn lemma_no_start_unasked(
    app: App,
    ctx: CompletionContext,
    is_fresh: bool,
    settings: ChangeSettings,
)
    requires
        !settings.auto_suggest,
        !auto_started(app.content_mode),
        !(app.content_mode is TabCompletion),
    ensures
        !(action_for(app, ctx, is_fresh, settings) is Restart),
{
}

/// While the mouse drags, and while the history is walked through, completions do
/// not get in the way.
pub proof fn lemma_nothing_gets_in_the_way(
    app: App,
    ctx: CompletionContext,
    is_fresh: bool,
    settings: ChangeSettings,
)
    requires
        settings.is_dragging || navigated_history(app.last_key) || app.buffer.text@.len() == 0,
    ensures
        action_for(app, ctx, is_fresh, settings) is Discard,
{
}

/// Once the text has settled, nothing more follows from it: settling it again
/// changes nothing.
pub proof fn lemma_settling_is_final(before: App, once: App, twice: App, agents: Seq<AgentEntry>)
    requires
        is_settled(before, once, agents),
        is_settled(once, twice, agents),
    ensures
        twice == once,
{
}

/// The failure of an agent stays on the screen while the text stays the same, and
/// leaves it with the first change of the text.
pub proof fn lemma_agent_error_lasts_as_long_as_the_text(
    before: App,
    failed: App,
    message: Seq<char>,
    raw_output: Seq<char>,
    setup: Option<Seq<char>>,
    edited: App,
    settled: App,
    agents: Seq<AgentEntry>,
)
    requires
        has_agent_error(before, failed, message, raw_output, setup),
        edited == (App { buffer: edited.buffer, ..failed }),
        is_settled(edited, settled, agents),
    ensures
        edited.buffer.text@ == before.buffer.text@ ==> settled.content_mode == failed.content_mode,
        edited.buffer.text@ != before.buffer.text@ ==> !(settled.content_mode is AgentError),
{
}

/// Nothing stands before how the word has changed: the mouse does not drag, the history is
/// not walked through, there is a text, completions were not dismissed for the word, and
/// no character was typed that calls for others.
pub open spec fn word_decides(
    app: App,
    ctx: CompletionContext,
    is_fresh: bool,
    settings: ChangeSettings,
) -> bool {
    &&& !settings.is_dragging
    &&& !navigated_history(app.last_key)
    &&& app.buffer.text@.len() > 0
    &&& !(app.dismissed_tab_completion_wuc matches Some(w) && w@ == ctx.left@ + ctx.right@)
    &&& !is_fresh || typed_char(app.last_key) is None || !is_trigger(
        typed_char(app.last_key)->0,
        ctx.left@ + ctx.right@,
    )
}

/// Where nothing is shown, completions start exactly where the user wants them to start by
/// themselves.
pub proof fn lemma_completions_start_by_themselves(
    app: App,
    ctx: CompletionContext,
    is_fresh: bool,
    settings: ChangeSettings,
)
    requires
        word_decides(app, ctx, is_fresh, settings),
        app.content_mode is Normal,
    ensures
        action_for(app, ctx, is_fresh, settings) == (if settings.auto_suggest {
            CompletionAction::Restart { carry_over: false }
        } else {
            CompletionAction::Keep
        }),
{
}

/// The word has grown or shrunk by at most one character where it stands, or one of its
/// characters has changed.
pub open spec fn is_next_word(shown: ActiveSuggestions, word: Seq<char>, start: int) -> bool {
    &&& start == shown.word_under_cursor.start
    &&& word.len() <= shown.word_under_cursor.s@.len() + 1
    &&& shown.word_under_cursor.s@.len() <= word.len() + 1
}

/// What is shown for a word stays while the word does, and is filtered while the word is
/// typed on; no new completions are looked for. Completions that started by themselves are
/// looked for anew once the word is shorter than that for which they were found, or where
/// a pattern could be expanded. They are gone with the word.
pub proof fn lemma_shown_completions_follow_the_word(
    app: App,
    ctx: CompletionContext,
    is_fresh: bool,
    settings: ChangeSettings,
    shown: Box<ActiveSuggestions>,
)
    requires
        word_decides(app, ctx, is_fresh, settings),
        app.content_mode == ContentMode::TabCompletion(shown),
    ensures
        ({
            let word = ctx.left@ + ctx.right@;
            let start = ctx.start + byte_len(ctx.before@);
            let original = shown.original_word_under_cursor.s@;
            let stays = word == shown.word_under_cursor.s@ && start
                == shown.word_under_cursor.start;
            let action = action_for(app, ctx, is_fresh, settings);
            &&& shown.auto_started && word.len() < original.len() ==> action == (
            CompletionAction::Restart { carry_over: true })
            &&& !(shown.auto_started && word.len() < original.len()) && stays ==> action is Keep
            &&& shown.auto_started && !stays && has_glob(ctx) ==> action == (
            CompletionAction::Restart { carry_over: true })
            &&& !shown.auto_started && !stays && word.len() == 0 && original.len() > 0 ==> action
                is Discard
            &&& !(shown.auto_started && (word.len() < original.len() || has_glob(ctx))) && !stays
                && is_next_word(*shown, word, start) && (word.len() > 0 || original.len() == 0)
                ==> action is Update
            &&& !stays && start == shown.word_under_cursor.start && !is_next_word(
                *shown,
                word,
                start,
            ) && word.len() > 0 ==> action == (CompletionAction::Restart { carry_over: true })
            &&& !shown.auto_started && start != shown.word_under_cursor.start && word.len() > 0
                ==> action == (if settings.auto_suggest {
                CompletionAction::Restart { carry_over: false }
            } else {
                CompletionAction::Discard
            })
        }),
{
}

/// Completions that are awaited are waited for while the word is typed on, or deleted
/// again by a user who asked for them. Where another word stands there, others are looked
/// for if they start by themselves, and else they are given up.
pub proof fn lemma_awaited_completions_follow_the_word(
    app: App,
    ctx: CompletionContext,
    is_fresh: bool,
    settings: ChangeSettings,
    old_word: Seq<char>,
    started: bool,
)
    requires
        word_decides(app, ctx, is_fresh, settings),
        app.content_mode matches ContentMode::TabCompletionWaiting {
            wuc_substring,
            auto_started,
            ..
        } && wuc_substring.s@ == old_word && auto_started == started,
    ensures
        ({
            let word = ctx.left@ + ctx.right@;
            let action = action_for(app, ctx, is_fresh, settings);
            &&& old_word.is_prefix_of(word) ==> action is Keep
            &&& word.is_prefix_of(old_word) && !started ==> action is Keep
            &&& started && word.len() < old_word.len() ==> action == (CompletionAction::Restart {
                carry_over: true,
            })
            &&& !old_word.is_prefix_of(word) && !word.is_prefix_of(old_word) && !(started
                && word.len() < old_word.len()) ==> action == (if settings.auto_suggest {
                CompletionAction::Restart { carry_over: false }
            } else {
                CompletionAction::Discard
            })
        }),
{
}

/// A slash, a dollar sign, a tilde, a dot, a plus or an equals sign that is typed calls for
/// other completions, and so does a dash in a word of dashes; no other character does.
pub proof fn lemma_characters_that_call_for_completions(c: char, word: Seq<char>)
    ensures
        c == '/' || c == '$' || c == '~' || c == '.' || c == '+' || c == '=' ==> is_trigger(
            c,
            word,
        ),
        c == '-' ==> (is_trigger(c, word) <==> forall|i: int|
            0 <= i < word.len() ==> #[trigger] word[i] == '-'),
        is_trigger(c, word) ==> c == '/' || c == '$' || c == '~' || c == '.' || c == '+' || c == '='
            || c == '-',
{
}

/// Completions that started by themselves are looked for anew when such a character is
/// typed. Those on the screen stay meanwhile behind a dash or a dot, and only there.
pub proof fn lemma_trigger_starts_anew(
    app: App,
    ctx: CompletionContext,
    settings: ChangeSettings,
    c: char,
)
    requires
        !settings.is_dragging,
        !navigated_history(app.last_key),
        app.buffer.text@.len() > 0,
        !(app.dismissed_tab_completion_wuc matches Some(w) && w@ == ctx.left@ + ctx.right@),
        auto_started(app.content_mode),
        app.last_key matches Some(k) && k.key.code == KeyCode::Char(c) && !k.key.control
            && !k.key.alt,
        c == '/' || c == '$' || c == '~' || c == '.' || c == '+' || c == '=' || (c == '-' && forall|
            i: int,
        |
            0 <= i < (ctx.left@ + ctx.right@).len() ==> #[trigger] (ctx.left@ + ctx.right@)[i]
                == '-'),
    ensures
        action_for(app, ctx, true, settings) == (CompletionAction::Restart {
            carry_over: c == '-' || c == '.',
        }),
{
}

/// A key types a character unless it is held with Control or Alt. It walks through the
/// history where one of its actions goes to another entry or accepts one.
pub proof fn lemma_what_a_key_does(key: LastKeyPress, c: char, i: int)
    ensures
        typed_char(Some(key)) == Some(c) <==> key.key.code == KeyCode::Char(c) && !key.key.control
            && !key.key.alt,
        typed_char(None) is None,
        !navigated_history(None),
        0 <= i < key.actions@.len() && (key.actions@[i] is PrevHistoryEntry
            || key.actions@[i] is NextHistoryEntry || key.actions@[i] is FuzzyHistoryAcceptEntry
            || key.actions@[i] is FuzzyHistoryAcceptAndEdit
            || key.actions@[i] is FuzzyHistoryAcceptAndRun) ==> navigated_history(Some(key)),
        (forall|k: int| 0 <= k < key.actions@.len() ==> (#[trigger] key.actions@[k]) is Other)
            ==> !navigated_history(Some(key)),
{
    if 0 <= i < key.actions@.len() && !(key.actions@[i] is Other) {
        assert(walks_history(key.actions@[i]));
    }
    if forall|k: int| 0 <= k < key.actions@.len() ==> (#[trigger] key.actions@[k]) is Other {
        assert forall|k: int| 0 <= k < key.actions@.len() implies !walks_history(
            #[trigger] key.actions@[k],
        ) by {
            assert(key.actions@[k] is Other);
        }
    }
}

/// Completions that are kept stay as they are; those that are filtered get the new word,
/// and nothing else of them changes; all others leave the screen. Whatever is done, the
/// text stays, and unless they are kept, none are dismissed any more.
pub proof fn lemma_what_is_done_to_completions(
    before: App,
    after: App,
    action: CompletionAction,
    word: Seq<char>,
    start: int,
)
    requires
        has_done(before, after, action, word, start),
    ensures
        after.buffer == before.buffer,
        action is Keep ==> after == before,
        !(action is Keep) ==> after.dismissed_tab_completion_wuc is None,
        action is Update ==> (before.content_mode matches ContentMode::TabCompletion(shown) ==> (
        after.content_mode matches ContentMode::TabCompletion(now) && now.builder == shown.builder
            && now.original_word_under_cursor == shown.original_word_under_cursor
            && now.auto_started == shown.auto_started && now.word_under_cursor.s@ == word
            && now.word_under_cursor.start == start)),
        action is Discard || action is Restart ==> !(after.content_mode is TabCompletion)
            && !(after.content_mode is TabCompletionWaiting),
        !(before.content_mode is TabCompletion) && !(before.content_mode is TabCompletionWaiting)
            ==> after.content_mode == before.content_mode,
{
}

/// A text that asks for an agent opens the search through the questions, unless that was
/// dismissed for this text or the history is walked through; a text that asks for none
/// closes it. Walking along the prompt ends once the cursor has left the start of the
/// text. What else is shown stays.
pub proof fn lemma_text_decides_what_is_shown(
    before: App,
    after: App,
    agents: Seq<AgentEntry>,
)
    requires
        is_settled(before, after, agents),
    ensures
        after.buffer == before.buffer,
        ({
            let asks = !none_asked(agents, before.buffer.text@);
            let is_dismissed = before.dismissed_agent_mode_buffer matches Some(b) && b@
                == before.buffer.text@;
            let prompts = ContentMode::FuzzyHistorySearch(FuzzyHistorySource::AgentPrompts);
            &&& before.content_mode is Normal && asks && !is_dismissed && !navigated_history(
                before.last_key,
            ) ==> after.content_mode == prompts
            &&& before.content_mode is Normal && (!asks || is_dismissed || navigated_history(
                before.last_key,
            )) ==> after.content_mode is Normal
            &&& before.content_mode == prompts ==> after.content_mode == (if asks {
                prompts
            } else {
                ContentMode::Normal
            })
            &&& before.content_mode is PromptDirSelect && before.buffer.cursor == 0
                ==> after.content_mode == before.content_mode
            &&& before.content_mode is PromptDirSelect && before.buffer.cursor != 0
                ==> !(after.content_mode is PromptDirSelect)
            &&& before.content_mode is TabCompletion || before.content_mode is TabCompletionWaiting
                || before.content_mode is AgentModeWaiting
                || before.content_mode is TabCompletionAskForFlycomp
                || before.content_mode is TabCompletionRunningFlycomp
                || before.content_mode is TabCompletionFlycompResult ==> after.content_mode
                == before.content_mode
            &&& after.dismissed_agent_mode_buffer is Some <==> is_dismissed
        }),
        before.last_key matches Some(k) ==> after.last_processed_key_sequence == k.sequence_number,
{
}

/// A choice among an agent's suggestions is given up with the first change of the text,
/// and the suggestions stay.
pub proof fn lemma_choice_is_given_up_with_the_text(
    before: App,
    after: App,
    agents: Seq<AgentEntry>,
)
    requires
        is_settled(before, after, agents),
        before.content_mode is AgentOutputSelection,
    ensures
        before.content_mode matches ContentMode::AgentOutputSelection(b) && after.content_mode
            matches ContentMode::AgentOutputSelection(a) && {
            &&& a.suggestions == b.suggestions
            &&& b.last_buffer_content@ == before.buffer.text@ ==> a.selected_idx == b.selected_idx
            &&& b.last_buffer_content@ != before.buffer.text@ ==> a.selected_idx is None
            &&& a.last_buffer_content@ == before.buffer.text@
        },
{
}

/// The tooltip is that of the last part that has one and that the cursor stands in, or at
/// an end of; there is none where no such part is.
pub proof fn lemma_tooltip_is_that_of_the_last_part(parts: Seq<FormattedPart>, cursor: nat) -> (i:
    int)
    ensures
        match tooltip_at(parts, cursor) {
            Some(text) => {
                &&& 0 <= i < parts.len()
                &&& has_tooltip_at(parts[i], cursor)
                &&& parts[i].tooltip->0@ == text
                &&& forall|k: int|
                    i < k < parts.len() ==> !has_tooltip_at(#[trigger] parts[k], cursor)
            },
            None => forall|k: int|
                0 <= k < parts.len() ==> !has_tooltip_at(#[trigger] parts[k], cursor),
        },
    decreases parts.len(),
{
    if parts.len() == 0 || has_tooltip_at(parts.last(), cursor) {
        parts.len() - 1
    } else {
        let rest = parts.drop_last();
        let i = lemma_tooltip_is_that_of_the_last_part(rest, cursor);
        assert forall|k: int| 0 <= k < rest.len() implies parts[k] == rest[k] by {}
        i
    }
}

/// The part has a tooltip, and the cursor stands in it or at one of its ends.
pub open spec fn has_tooltip_at(part: FormattedPart, cursor: nat) -> bool {
    part.tooltip is Some && part.start <= cursor && cursor <= part.end
}

/// A past command is suggested behind a text exactly where the user wants that, there is a
/// text, and it was not dismissed for it.
pub proof fn lemma_when_history_is_suggested(app: App, show_inline_history: bool)
    ensures
        wants_inline_suggestion(app, show_inline_history) <==> show_inline_history
            && app.buffer.text@.len() > 0 && !(app.dismissed_inline_suggestion_buffer matches Some(b)
            && b@ == app.buffer.text@),
{
}

/// The text is drawn as a question while an agent is asked, answers or has failed, and
/// while the questions of the history are searched; not while other histories are.
pub proof fn lemma_when_the_text_is_a_question(mode: ContentMode)
    ensures
        mode is AgentModeWaiting || mode is AgentOutputSelection || mode is AgentError
            ==> is_agent_text(mode),
        mode matches ContentMode::FuzzyHistorySearch(source) ==> (is_agent_text(mode)
            <==> source is AgentPrompts),
        mode is Normal || mode is TabCompletion || mode is TabCompletionWaiting
            || mode is PromptDirSelect || mode is TabCompletionAskForFlycomp
            || mode is TabCompletionRunningFlycomp || mode is TabCompletionFlycompResult
            ==> !is_agent_text(mode),
{
}

/// A key is fresh where it came after the last one that was taken into account.
pub proof fn lemma_when_a_key_is_fresh(app: App, key: LastKeyPress)
    requires
        app.last_key == Some(key),
    ensures
        is_fresh_key(app) <==> app.last_processed_key_sequence < key.sequence_number,
{
}

/// Completions are thought about once a key was pressed, where they are shown or awaited
/// or start by themselves.
pub proof fn lemma_when_completions_are_thought_about(app: App, settings: ChangeSettings)
    ensures
        minds_completions(app, settings) <==> app.last_key is Some && (settings.auto_suggest
            || app.content_mode is TabCompletion || app.content_mode is TabCompletionWaiting),
{
}

/// A pattern can be expanded where one of the ways of completing the word does that.
/// Completions started by themselves where those that are shown or awaited did.
pub proof fn lemma_how_completions_came_about(ctx: CompletionContext, mode: ContentMode, i: int)
    ensures
        0 <= i < ctx.comp_types@.len() && ctx.comp_types@[i] is GlobExpansion ==> has_glob(ctx),
        (forall|k: int|
            0 <= k < ctx.comp_types@.len() ==> !((#[trigger] ctx.comp_types@[k]) is GlobExpansion))
            ==> !has_glob(ctx),
        mode matches ContentMode::TabCompletion(shown) ==> auto_started(mode) == shown.auto_started,
        mode matches ContentMode::TabCompletionWaiting { auto_started: a, .. } ==> auto_started(mode)
            == a,
        !(mode is TabCompletion) && !(mode is TabCompletionWaiting) ==> !auto_started(mode),
{
    if 0 <= i < ctx.comp_types@.len() && ctx.comp_types@[i] is GlobExpansion {
        assert(ctx.comp_types@[i] is GlobExpansion);
    }
}

} // verus!
