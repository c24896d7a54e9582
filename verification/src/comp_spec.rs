//! Completion by the command itself: programmable completions of the shell, and
//! the line editor's own command.

use vstd::prelude::*;

verus! {

use crate::context::{expand_first_word, CompletionContext};
use crate::suggestion::{
    ActiveSuggestionsBuilder,
    BuilderView,
    CompletionFlags,
    DescriptionView,
    ProcessedSuggestion,
    ProcessedView,
    SuggestionDescription,
    UnprocessedSuggestion,
    UnprocessedView,
};
use crate::text::{
    all_white,
    byte_len,
    byte_length,
    char_count,
    find_text,
    first_at,
    first_word,
    has_prefix,
    is_first_word_between,
    occurs_at,
    pieces,
    same_text,
    split,
    substring,
    views,
    without_suffix,
    word_at_start,
};

/// What stands in place of `initial_word`: the alias for it, where there is one
/// that is not empty.
pub open spec fn alias_definition(initial_word: Seq<char>, alias: Option<Seq<char>>) -> Seq<char> {
    match alias {
        Some(a) => if a.len() > 0 {
            a
        } else {
            initial_word
        },
        None => initial_word,
    }
}

/// The command that an alias definition runs: its first word.
pub open spec fn aliased_command(definition: Seq<char>) -> Seq<char> {
    if first_word(definition).len() > 0 {
        first_word(definition)
    } else {
        definition
    }
}

/// The question that is put to the shell's programmable completion.
#[derive(Debug, PartialEq, Eq)]
pub struct CompSpecRequest {
    pub full_command: String,
    pub command_word: String,
    pub word_under_cursor: String,
    pub cursor_byte_pos: usize,
    pub word_end_byte_pos: usize,
}

/// The text that replaces the command word of a completion.
pub(crate) fn definition_of(initial_word: &str, alias: &Option<String>) -> (r: String)
    ensures
        r@ == alias_definition(initial_word@, crate::suggestion::text_view(*alias)),
{
    match alias {
        Some(a) => if a.as_str().is_empty() {
            initial_word.to_owned()
        } else {
            a.clone()
        },
        None => initial_word.to_owned(),
    }
}

/// The command that an alias definition runs.
pub(crate) fn command_of(definition: &str) -> (r: String)
    ensures
        r@ == aliased_command(definition@),
{
    let word = word_at_start(definition);
    if word.as_str().is_empty() {
        definition.to_owned()
    } else {
        word
    }
}

/// Puts the question to the shell: the command with its alias expanded, and the
/// cursor at the end of the word under it.
pub fn comp_spec_request(
    ctx: &CompletionContext,
    initial_command_word: &str,
    alias: &Option<String>,
) -> (r: CompSpecRequest)
    requires
        byte_len(
            expand_first_word(
                ctx.before@,
                alias_definition(initial_command_word@, crate::suggestion::text_view(*alias)),
            ),
        ) + byte_len(ctx.word()) <= usize::MAX,
    ensures
        ({
            let definition = alias_definition(
                initial_command_word@,
                crate::suggestion::text_view(*alias),
            );
            let before = expand_first_word(ctx.before@, definition);
            &&& r.full_command@ == before + ctx.word() + ctx.after@
            &&& r.command_word@ == aliased_command(definition)
            &&& r.word_under_cursor@ == ctx.word()
            &&& r.cursor_byte_pos == byte_len(before) + byte_len(ctx.word())
            &&& r.word_end_byte_pos == r.cursor_byte_pos
        }),
{
    let definition = definition_of(initial_command_word, alias);
    let expanded = ctx.with_cursor_at_end_of_wuc().with_expanded_alias(definition.as_str());
    let full_command = expanded.context();
    assert(full_command@ =~= expanded.before@ + ctx.word() + ctx.after@);
    let position: usize = byte_length(expanded.before.as_str()) as usize + byte_length(
        expanded.left.as_str(),
    ) as usize;
    let word_under_cursor = expanded.word_under_cursor();
    assert(word_under_cursor@ =~= ctx.word());
    CompSpecRequest {
        full_command,
        command_word: command_of(definition.as_str()),
        word_under_cursor,
        cursor_byte_pos: position,
        word_end_byte_pos: position,
    }
}

/// What the shell's programmable completion answered.
#[derive(Debug, PartialEq, Eq)]
pub struct ProgrammableCompletions {
    pub completions: Vec<String>,
    pub flags: CompletionFlags,
    pub compspec_was_useful: bool,
}

/// A completion of the line editor's own command.
#[derive(Debug, PartialEq, Eq)]
pub struct FlylineCandidate {
    pub value: String,
    /// The value of [`flyline_value`] in the quoting of the word under the
    /// cursor, where that word is quoted.
    pub quoted: Option<String>,
    /// Help text, frames separated by tabs.
    pub help: Option<String>,
}

/// What came back for a [`CompSpecRequest`]; `None` where the question failed.
#[derive(Debug, PartialEq, Eq)]
pub struct CompSpecAnswers {
    /// The answer for the line editor's own command.
    pub flyline: Option<Vec<FlylineCandidate>>,
    /// The answer for every other command.
    pub programmable: Option<ProgrammableCompletions>,
}

/// A candidate's value taken apart.
#[derive(Debug, PartialEq, Eq)]
pub struct FlylineValue {
    pub prefix: String,
    pub value: String,
    pub suffix: String,
}

/// What stands before the first mark `PREFIX_DELIM` in `raw`.
pub open spec fn marked_prefix(raw: Seq<char>) -> Seq<char> {
    if exists|i: int| occurs_at(raw, "PREFIX_DELIM"@, i) {
        raw.take(choose|i: int| first_at(raw, "PREFIX_DELIM"@, i))
    } else {
        Seq::empty()
    }
}

/// What stands behind the first mark `PREFIX_DELIM` in `raw`; all of it where
/// there is none.
pub open spec fn behind_prefix(raw: Seq<char>) -> Seq<char> {
    if exists|i: int| occurs_at(raw, "PREFIX_DELIM"@, i) {
        raw.skip((choose|i: int| first_at(raw, "PREFIX_DELIM"@, i)) + "PREFIX_DELIM"@.len())
    } else {
        raw
    }
}

/// The prefix of a candidate: the marked one, where the word starts with it.
pub open spec fn candidate_prefix(raw: Seq<char>, word: Seq<char>) -> Seq<char> {
    if marked_prefix(raw).is_prefix_of(word) {
        marked_prefix(raw)
    } else {
        Seq::empty()
    }
}

/// The value of a candidate without its marks.
pub open spec fn candidate_value(raw: Seq<char>) -> Seq<char> {
    let value = behind_prefix(raw);
    if "NO_SUFFIX"@.is_suffix_of(value) {
        value.take(value.len() - "NO_SUFFIX"@.len())
    } else {
        value
    }
}

/// What follows a candidate: a space, unless it is marked `NO_SUFFIX`.
pub open spec fn candidate_suffix(raw: Seq<char>) -> Seq<char> {
    if "NO_SUFFIX"@.is_suffix_of(behind_prefix(raw)) {
        ""@
    } else {
        " "@
    }
}

proof fn lemma_first_at_unique(s: Seq<char>, pat: Seq<char>, i: int, j: int)
    requires
        first_at(s, pat, i),
        first_at(s, pat, j),
    ensures
        i == j,
{
    assert(occurs_at(s, pat, i) && occurs_at(s, pat, j));
}

/// Takes a candidate's value apart.
pub fn flyline_value(raw: &str, word: &str) -> (r: FlylineValue)
    ensures
        r.prefix@ == candidate_prefix(raw@, word@),
        r.value@ == candidate_value(raw@),
        r.suffix@ == candidate_suffix(raw@),
{
    let found = find_text(raw, "PREFIX_DELIM");
    let n: usize = char_count(raw);
    let marked: String;
    let behind: String;
    match found {
        Some(i) => {
            let k: usize = char_count("PREFIX_DELIM");
            proof {
                lemma_first_at_unique(
                    raw@,
                    "PREFIX_DELIM"@,
                    i as int,
                    choose|j: int| first_at(raw@, "PREFIX_DELIM"@, j),
                );
            }
            marked = substring(raw, 0, i);
            behind = substring(raw, i + k, n);
            assert(marked@ =~= marked_prefix(raw@));
            assert(behind@ =~= behind_prefix(raw@));
        },
        None => {
            marked = String::new();
            behind = raw.to_owned();
            assert(marked@ =~= marked_prefix(raw@));
        },
    }
    let prefix: String = if has_prefix(word, marked.as_str()) {
        marked
    } else {
        String::new()
    };
    assert(prefix@ =~= candidate_prefix(raw@, word@));
    match without_suffix(behind.as_str(), "NO_SUFFIX") {
        Some(value) => FlylineValue { prefix, value, suffix: "".to_owned() },
        None => FlylineValue { prefix, value: behind, suffix: " ".to_owned() },
    }
}

/// The suggestion for a candidate.
pub open spec fn candidate_suggestion(c: FlylineCandidate, word: Seq<char>) -> ProcessedView {
    ProcessedView {
        s: match c.quoted {
            Some(q) => q@,
            None => candidate_value(c.value@),
        },
        prefix: candidate_prefix(c.value@, word),
        suffix: candidate_suffix(c.value@),
        description: match c.help {
            Some(h) => DescriptionView::Animation(split(h@, '\t')),
            None => DescriptionView::Static(Seq::empty()),
        },
    }
}

/// The suggestions for the line editor's own command.
pub open spec fn flyline_suggestions(
    candidates: Option<Vec<FlylineCandidate>>,
    word: Seq<char>,
) -> Option<BuilderView> {
    match candidates {
        Some(list) => Some(
            BuilderView::of_processed(
                list@.map_values(|c: FlylineCandidate| candidate_suggestion(c, word)),
            ),
        ),
        None => None,
    }
}

/// The value of a search result.
pub open spec fn builder_view(builder: Option<ActiveSuggestionsBuilder>) -> Option<BuilderView> {
    match builder {
        Some(b) => Some(b@),
        None => None,
    }
}

fn suggest_candidate(c: &FlylineCandidate, word: &str) -> (r: ProcessedSuggestion)
    ensures
        r@ == candidate_suggestion(*c, word@),
{
    let parts = flyline_value(c.value.as_str(), word);
    let s: String = match &c.quoted {
        Some(q) => q.clone(),
        None => parts.value,
    };
    let description = match &c.help {
        Some(h) => SuggestionDescription::Animation(pieces(h.as_str(), '\t')),
        None => {
            let none: Vec<String> = Vec::new();
            assert(views(none@) =~= Seq::empty());
            SuggestionDescription::Static(none)
        },
    };
    ProcessedSuggestion::new(s, parts.prefix, parts.suffix).with_description(description)
}

/// Makes suggestions of the candidates for the line editor's own command, which
/// are final as they come. Nothing comes of a question that failed.
pub fn run_flyline_compspec(
    ctx: &CompletionContext,
    candidates: &Option<Vec<FlylineCandidate>>,
) -> (r: Option<ActiveSuggestionsBuilder>)
    ensures
        builder_view(r) == flyline_suggestions(*candidates, ctx.word()),
{
    match candidates {
        Some(list) => {
            let word = ctx.word_under_cursor();
            let mut out: Vec<ProcessedSuggestion> = Vec::new();
            let mut i: usize = 0;
            while i < list.len()
                invariant
                    i <= list@.len(),
                    out@.len() == i,
                    forall|k: int|
                        0 <= k < i ==> (#[trigger] out@[k])@ == candidate_suggestion(
                            list@[k],
                            word@,
                        ),
                decreases list@.len() - i,
            {
                out.push(suggest_candidate(&list[i], word.as_str()));
                i = i + 1;
            }
            assert(crate::suggestion::processed_views(out@) =~= list@.map_values(
                |c: FlylineCandidate| candidate_suggestion(c, word@),
            ));
            Some(ActiveSuggestionsBuilder::from_processed(out))
        },
        None => None,
    }
}

/// Whether completions of `command` are those of git.
pub open spec fn is_git(command: Seq<char>) -> bool {
    command == "git"@ || "git-"@.is_prefix_of(command)
}

/// The suggestions for what a programmable completion answered.
pub open spec fn programmable_suggestions(
    answer: Option<ProgrammableCompletions>,
    command: Seq<char>,
    word: Seq<char>,
) -> Option<BuilderView> {
    match answer {
        Some(a) => Some(
            BuilderView {
                nosort: a.flags.nosort_desired,
                compspec_was_useful: Some(a.compspec_was_useful),
                ..BuilderView::of_unprocessed(
                    views(a.completions@).map_values(
                        |text: Seq<char>|
                            UnprocessedView {
                                raw_text: text,
                                full_path: None,
                                flags: a.flags,
                                word_under_cursor: word,
                                is_git_command: is_git(command),
                                custom_prefix: None,
                            },
                    ),
                )
            },
        ),
        None => None,
    }
}

/// The suggestions of the command itself: those of the line editor's own command
/// where that is what the alias definition runs, else the shell's.
pub open spec fn comp_spec_suggestions(
    word: Seq<char>,
    initial_word: Seq<char>,
    alias: Option<Seq<char>>,
    answers: CompSpecAnswers,
) -> Option<BuilderView> {
    let command = aliased_command(alias_definition(initial_word, alias));
    if command == "flyline"@ {
        flyline_suggestions(answers.flyline, word)
    } else {
        programmable_suggestions(answers.programmable, command, word)
    }
}

/// Whether the command that is completed is the line editor's own.
pub fn completes_flyline(initial_command_word: &str, alias: &Option<String>) -> (r: bool)
    ensures
        r == (aliased_command(
            alias_definition(initial_command_word@, crate::suggestion::text_view(*alias)),
        ) == "flyline"@),
{
    let definition = definition_of(initial_command_word, alias);
    let command = command_of(definition.as_str());
    same_text(command.as_str(), "flyline")
}

/// Makes suggestions of what the command's own completion answered. Nothing comes
/// of a question that failed.
pub fn run_comp_spec_completion(
    ctx: &CompletionContext,
    initial_command_word: &str,
    alias: &Option<String>,
    answers: &CompSpecAnswers,
) -> (r: Option<ActiveSuggestionsBuilder>)
    ensures
        builder_view(r) == comp_spec_suggestions(
            ctx.word(),
            initial_command_word@,
            crate::suggestion::text_view(*alias),
            *answers,
        ),
{
    let definition = definition_of(initial_command_word, alias);
    let command = command_of(definition.as_str());
    if same_text(command.as_str(), "flyline") {
        return run_flyline_compspec(ctx, &answers.flyline);
    }
    match &answers.programmable {
        Some(answer) => {
            let word = ctx.word_under_cursor();
            let git = same_text(command.as_str(), "git") || has_prefix(command.as_str(), "git-");
            let mut out: Vec<UnprocessedSuggestion> = Vec::new();
            let mut i: usize = 0;
            while i < answer.completions.len()
                invariant
                    i <= answer.completions@.len(),
                    out@.len() == i,
                    word@ == ctx.word(),
                    git == is_git(command@),
                    forall|k: int|
                        0 <= k < i ==> (#[trigger] out@[k])@ == (UnprocessedView {
                            raw_text: answer.completions@[k]@,
                            full_path: None,
                            flags: answer.flags,
                            word_under_cursor: word@,
                            is_git_command: is_git(command@),
                            custom_prefix: None,
                        }),
                decreases answer.completions@.len() - i,
            {
                out.push(
                    UnprocessedSuggestion {
                        raw_text: answer.completions[i].clone(),
                        full_path: None,
                        flags: answer.flags,
                        word_under_cursor: word.clone(),
                        is_git_command: git,
                        custom_prefix: None,
                    },
                );
                i = i + 1;
            }
            let ghost expected = programmable_suggestions(
                answers.programmable,
                command@,
                ctx.word(),
            );
            assert(crate::suggestion::unprocessed_views(out@) =~= expected->0.unprocessed);
            let r = ActiveSuggestionsBuilder::from_unprocessed(out).with_nosort(
                answer.flags.nosort_desired,
            ).with_compspec_was_useful(Some(answer.compspec_was_useful));
            Some(r)
        },
        None => None,
    }
}

/// `command` is what an alias runs, or the word itself where there is no alias: the first
/// word of what stands between white space.
pub open spec fn runs(
    initial_word: Seq<char>,
    alias: Option<Seq<char>>,
    lead: Seq<char>,
    command: Seq<char>,
    tail: Seq<char>,
) -> bool {
    &&& is_first_word_between(lead, command, tail)
    &&& match alias {
        Some(a) => if a.len() == 0 {
            initial_word == lead + command + tail
        } else {
            a == lead + command + tail
        },
        None => initial_word == lead + command + tail,
    }
}

/// The command that is completed is the first word of the alias, or of the word itself
/// where it has none; what holds no word stays as it is.
pub proof fn lemma_alias_tells_the_command(
    initial_word: Seq<char>,
    alias: Option<Seq<char>>,
    lead: Seq<char>,
    command: Seq<char>,
    tail: Seq<char>,
)
    ensures
        runs(initial_word, alias, lead, command, tail) ==> aliased_command(
            alias_definition(initial_word, alias),
        ) == command,
        all_white(lead) ==> aliased_command(lead) == lead,
{
    if runs(initial_word, alias, lead, command, tail) {
        crate::text::lemma_first_word_is_found(lead, command, tail);
    }
    if all_white(lead) {
        let (a, b) = crate::text::lemma_first_word_stands(lead);
    }
}

/// Whether completions of `command` are those of git: git itself, or one of the programs
/// whose name continues it behind a dash.
pub open spec fn is_named_git(command: Seq<char>) -> bool {
    command == seq!['g', 'i', 't'] || (command.len() >= 4 && command.take(4) == seq![
        'g',
        'i',
        't',
        '-',
    ])
}

/// `u` is what the programmable completion answered, as it answered it.
pub open spec fn is_answered(
    u: UnprocessedView,
    text: Seq<char>,
    flags: CompletionFlags,
    word: Seq<char>,
    command: Seq<char>,
) -> bool {
    &&& u.raw_text == text
    &&& u.flags == flags
    &&& u.word_under_cursor == word
    &&& u.is_git_command == is_named_git(command)
    &&& u.full_path is None
    &&& u.custom_prefix is None
}

/// Every text that the programmable completion answered becomes a suggestion with the
/// flags of the answer, in the order of the answer, and nothing else does. Sorting is left
/// out where the answer asks for that. Nothing comes of a question that failed.
pub proof fn lemma_answers_keep_their_flags(
    word: Seq<char>,
    initial_word: Seq<char>,
    alias: Option<Seq<char>>,
    answers: CompSpecAnswers,
    lead: Seq<char>,
    command: Seq<char>,
    tail: Seq<char>,
)
    requires
        runs(initial_word, alias, lead, command, tail),
        command != "flyline"@,
    ensures
        match answers.programmable {
            Some(a) => comp_spec_suggestions(word, initial_word, alias, answers) matches Some(b) && {
                &&& b.processed.len() == 0
                &&& b.unprocessed.len() == a.completions@.len()
                &&& forall|i: int|
                    0 <= i < a.completions@.len() ==> is_answered(
                        #[trigger] b.unprocessed[i],
                        a.completions@[i]@,
                        a.flags,
                        word,
                        command,
                    )
                &&& b.nosort == a.flags.nosort_desired
                &&& b.compspec_was_useful == Some(a.compspec_was_useful)
                &&& b.auto_accept_if_solo
                &&& b.insert_common_prefix
                &&& b.common_prefix is None
                &&& !b.should_run_flycomp
            },
            None => comp_spec_suggestions(word, initial_word, alias, answers) is None,
        },
{
    lemma_alias_tells_the_command(initial_word, alias, lead, command, tail);
    reveal_strlit("git");
    reveal_strlit("git-");
    assert("git"@ =~= seq!['g', 'i', 't']);
    assert("git-"@ =~= seq!['g', 'i', 't', '-']);
    if command.len() >= 4 {
        assert("git-"@.is_prefix_of(command) <==> command.take(4) == "git-"@) by {
            if "git-"@.is_prefix_of(command) {
                assert(command.take(4) =~= "git-"@);
            }
        }
    }
    if let Some(a) = answers.programmable {
        let b = comp_spec_suggestions(word, initial_word, alias, answers)->0;
        assert forall|i: int| 0 <= i < a.completions@.len() implies is_answered(
            #[trigger] b.unprocessed[i],
            a.completions@[i]@,
            a.flags,
            word,
            command,
        ) by {
            assert(views(a.completions@)[i] == a.completions@[i]@);
        }
    }
}

/// The line editor's own command is completed from its own candidates, one suggestion for
/// each in their order, whatever the shell answers. All of them are final.
pub proof fn lemma_own_command_has_own_candidates(
    word: Seq<char>,
    initial_word: Seq<char>,
    alias: Option<Seq<char>>,
    answers: CompSpecAnswers,
    lead: Seq<char>,
    tail: Seq<char>,
)
    requires
        runs(initial_word, alias, lead, "flyline"@, tail),
    ensures
        match answers.flyline {
            Some(list) => comp_spec_suggestions(word, initial_word, alias, answers) matches Some(b)
                && {
                &&& b.unprocessed.len() == 0
                &&& b.processed.len() == list@.len()
                &&& forall|i: int|
                    0 <= i < list@.len() ==> #[trigger] b.processed[i] == candidate_suggestion(
                        list@[i],
                        word,
                    )
                &&& !b.nosort
                &&& b.auto_accept_if_solo
                &&& b.insert_common_prefix
                &&& b.common_prefix is None
                &&& b.compspec_was_useful is None
                &&& !b.should_run_flycomp
            },
            None => comp_spec_suggestions(word, initial_word, alias, answers) is None,
        },
{
    lemma_alias_tells_the_command(initial_word, alias, lead, "flyline"@, tail);
}

/// What follows the mark for the prefix, or all of a value without one.
pub open spec fn is_behind_mark(raw: Seq<char>, prefix: Seq<char>, rest: Seq<char>) -> bool {
    if exists|i: int| occurs_at(raw, "PREFIX_DELIM"@, i) {
        raw == prefix + "PREFIX_DELIM"@ + rest && first_at(
            raw,
            "PREFIX_DELIM"@,
            prefix.len() as int,
        )
    } else {
        prefix.len() == 0 && rest == raw
    }
}

/// A candidate is suggested as what follows its prefix, which stays before it where the
/// word starts with it. A space follows, unless the value ends in the mark that there is
/// to be none; that mark is not part of the suggestion. A value that was quoted is
/// suggested as it was. The help is shown in the frames between its tabs.
pub proof fn lemma_candidate_is_taken_apart(
    c: FlylineCandidate,
    word: Seq<char>,
    prefix: Seq<char>,
    rest: Seq<char>,
    value: Seq<char>,
)
    requires
        is_behind_mark(c.value@, prefix, rest),
    ensures
        ({
            let p = candidate_suggestion(c, word);
            &&& prefix.is_prefix_of(word) ==> p.prefix == prefix
            &&& !prefix.is_prefix_of(word) ==> p.prefix.len() == 0
            &&& rest == value + "NO_SUFFIX"@ ==> p.suffix.len() == 0 && (c.quoted is None ==> p.s
                == value)
            &&& !"NO_SUFFIX"@.is_suffix_of(rest) ==> p.suffix == seq![' '] && (c.quoted is None
                ==> p.s == rest)
            &&& c.quoted matches Some(q) ==> p.s == q@
            &&& c.help matches Some(h) ==> p.description == DescriptionView::Animation(
                split(h@, '\t'),
            )
            &&& c.help is None ==> p.description == DescriptionView::Static(Seq::empty())
        }),
{
    reveal_strlit("");
    reveal_strlit(" ");
    assert(" "@ =~= seq![' ']);
    let raw = c.value@;
    if exists|i: int| occurs_at(raw, "PREFIX_DELIM"@, i) {
        lemma_first_at_unique(
            raw,
            "PREFIX_DELIM"@,
            prefix.len() as int,
            choose|i: int| first_at(raw, "PREFIX_DELIM"@, i),
        );
        assert(raw.take(prefix.len() as int) =~= prefix);
        assert(raw.skip(prefix.len() as int + "PREFIX_DELIM"@.len()) =~= rest);
    } else {
        assert(prefix =~= Seq::empty());
    }
    assert(behind_prefix(raw) == rest);
    assert(marked_prefix(raw) == prefix);
    if rest == value + "NO_SUFFIX"@ {
        assert(rest.skip(rest.len() - "NO_SUFFIX"@.len()) =~= "NO_SUFFIX"@);
        assert(rest.take(value.len() as int) =~= value);
    }
}

} // verus!
