//! The search for completions: the ways of completing a word are tried in turn,
//! and the first that finds something wins.

use vstd::prelude::*;

verus! {

use crate::comp_spec::{
    builder_view,
    comp_spec_suggestions,
    run_comp_spec_completion,
    CompSpecAnswers,
};
use crate::context::CompletionContext;
use crate::files::{
    is_suggestion_of_match,
    is_wanted_name,
    lemma_every_wanted_file_is_suggested,
    lemma_only_wanted_files_are_suggested,
    pattern_suggestions,
    tab_complete_glob_expansion,
    PathPatternExpansion,
};
use crate::fuzzy::{
    arinae_score,
    fuzzy_match_with_threshold,
    match_score,
    FuzzyCutoffs,
    FuzzyMatchThreshold,
};
use crate::lists::{lemma_pick_contains, lemma_pick_member, lemma_pick_order, pick};
use crate::paths::{
    each_matches,
    found_text,
    fuzzy_suggestions,
    hits_below,
    is_cut_at_cursor,
    leads_down,
    lemma_no_path_is_left_out,
    names_of,
    tab_complete_fuzzy_filename,
    DirEntry,
};
use crate::suggestion::{
    is_as_usual,
    processed_views,
    text_view,
    unprocessed_views,
    ActiveSuggestionsBuilder,
    BuilderView,
    CompType,
    CompletionFlags,
    FullPath,
    PathStat,
    ProcessedSuggestion,
    ProcessedView,
    QuoteType,
    UnprocessedSuggestion,
    UnprocessedView,
};
use crate::text::{
    byte_len,
    byte_length,
    char_count,
    concat,
    concat3,
    count_of,
    has_prefix,
    has_solid,
    join,
    joined,
    lemma_byte_len_bounds,
    substring,
    trim,
    trimmed,
    views,
    without_prefix,
};
use crate::words::{
    first_word_suggestions,
    fuzzy_first_word_suggestions,
    host_suggestions,
    tab_complete_first_word,
    tab_complete_fuzzy_first_word,
    tab_complete_hostname_expansion,
    tab_complete_tilde_expansion,
    tilde_suggestions,
    CommandWordInfo,
    UserInfo,
};

/// A path pattern in its quoting, with what it matches.
#[derive(Debug, PartialEq, Eq)]
pub struct GlobAnswer {
    pub expanded: PathPatternExpansion,
    pub quote_type: Option<QuoteType>,
}

/// A word in its quoting and without it, with the directory in which its segments
/// are looked for.
#[derive(Debug, PartialEq, Eq)]
pub struct DirAnswer {
    pub dequoted: String,
    pub quote_type: Option<QuoteType>,
    pub base: DirEntry,
}

/// What the shell and the disk answered for one way of completing a word. Each
/// way looks at its own answers only.
#[derive(Debug, PartialEq, Eq)]
pub struct ShellAnswers {
    /// The words that a command can start with.
    pub words: Vec<CommandWordInfo>,
    /// The alias for the command word.
    pub alias: Option<String>,
    pub comp_spec: CompSpecAnswers,
    /// The variables whose name starts with the word under the cursor.
    pub vars: Vec<String>,
    pub hosts: Vec<String>,
    pub users: Vec<UserInfo>,
    pub glob: GlobAnswer,
    /// The final forms of the suggestions for `glob`, in their order.
    pub glob_processed: Vec<ProcessedSuggestion>,
    /// The pattern that leaves out what stands right of the cursor.
    pub fallback_glob: GlobAnswer,
    pub dir: DirAnswer,
    /// The word that leaves out what stands right of the cursor.
    pub fallback_dir: DirAnswer,
}

impl GlobAnswer {
    /// A pattern that matches nothing, without quoting.
    pub open spec fn is_nothing(self) -> bool {
        &&& self.expanded.static_prefix is None
        &&& !self.expanded.wants_hidden
        &&& self.expanded.matches@.len() == 0
        &&& self.quote_type is None
    }
}

impl DirAnswer {
    /// No word, and a directory without a name or a path that could not be read.
    pub open spec fn is_nothing(self) -> bool {
        &&& self.dequoted@.len() == 0
        &&& self.quote_type is None
        &&& self.base.name@.len() == 0
        &&& self.base.path.path@.len() == 0
        &&& self.base.path.stat == (PathStat { is_symlink: false, target: None })
        &&& self.base.is_dir
        &&& self.base.entries is None
    }
}

fn no_matches() -> (r: GlobAnswer)
    ensures
        r.is_nothing(),
{
    GlobAnswer {
        expanded: PathPatternExpansion {
            static_prefix: None,
            wants_hidden: false,
            matches: Vec::new(),
        },
        quote_type: None,
    }
}

fn no_directory() -> (r: DirAnswer)
    ensures
        r.is_nothing(),
{
    DirAnswer {
        dequoted: String::new(),
        quote_type: None,
        base: DirEntry {
            name: String::new(),
            path: FullPath {
                path: String::new(),
                stat: PathStat { is_symlink: false, target: None },
            },
            is_dir: true,
            entries: None,
        },
    }
}

impl ShellAnswers {
    /// No answer to anything.
    pub fn nothing() -> (r: ShellAnswers)
        ensures
            r.words@.len() == 0,
            r.alias is None,
            r.comp_spec == (CompSpecAnswers { flyline: None, programmable: None }),
            r.vars@.len() == 0,
            r.hosts@.len() == 0,
            r.users@.len() == 0,
            r.glob.is_nothing(),
            r.glob_processed@.len() == 0,
            r.fallback_glob.is_nothing(),
            r.dir.is_nothing(),
            r.fallback_dir.is_nothing(),
    {
        ShellAnswers {
            words: Vec::new(),
            alias: None,
            comp_spec: CompSpecAnswers { flyline: None, programmable: None },
            vars: Vec::new(),
            hosts: Vec::new(),
            users: Vec::new(),
            glob: no_matches(),
            glob_processed: Vec::new(),
            fallback_glob: no_matches(),
            dir: no_directory(),
            fallback_dir: no_directory(),
        }
    }
}

/// A list that holds something, marked with the way in which it was found.
pub open spec fn if_found(builder: BuilderView, comp_type: CompType) -> Option<BuilderView> {
    if builder.count() > 0 {
        Some(BuilderView { comp_type, ..builder })
    } else {
        None
    }
}

fn keep_if_found(builder: ActiveSuggestionsBuilder, comp_type: &CompType) -> (r: Option<
    ActiveSuggestionsBuilder,
>)
    ensures
        builder_view(r) == if_found(builder@, *comp_type),
{
    if builder.is_empty() {
        None
    } else {
        Some(builder.with_comp_type(comp_type.copied()))
    }
}

/// What the command's own completion found. Where it had nothing useful to say,
/// the result may ask for a completion to be made for the command.
pub open spec fn command_completions(
    found: Option<BuilderView>,
    comp_type: CompType,
    will_run_flycomp: bool,
) -> Option<BuilderView> {
    match found {
        Some(b) => {
            let run = b.should_run_flycomp || (b.compspec_was_useful == Some(false)
                && will_run_flycomp);
            if b.count() > 0 || run {
                Some(BuilderView { comp_type, should_run_flycomp: run, ..b })
            } else {
                None
            }
        },
        None => None,
    }
}

/// What is left of a word for the command's own completion when the word is to be
/// matched loosely: the dashes of a long flag, or the first character. A shorter
/// word is not matched loosely.
pub open spec fn stem(word: Seq<char>) -> Option<Seq<char>> {
    if "--"@.is_prefix_of(word) {
        Some(word.take("--"@.len() as int))
    } else if byte_len(word) <= 1 {
        None
    } else {
        Some(word.take(1))
    }
}

/// What is left of a word for the command's own completion when the word is to be
/// matched loosely.
pub fn fuzzy_stem(word: &str) -> (r: Option<String>)
    ensures
        text_view(r) == stem(word@),
        r matches Some(s) ==> s@.is_prefix_of(word@),
{
    if has_prefix(word, "--") {
        let r = substring(word, 0, char_count("--"));
        assert(r@ =~= word@.take("--"@.len() as int));
        Some(r)
    } else if byte_length(word) <= 1 {
        None
    } else {
        proof {
            lemma_byte_len_bounds(word@);
        }
        let r = substring(word, 0, 1);
        assert(r@ =~= word@.take(1));
        Some(r)
    }
}

/// `text` without `start`, where it starts with it.
pub open spec fn without_start(text: Seq<char>, start: Seq<char>) -> Seq<char> {
    if start.is_prefix_of(text) {
        text.skip(start.len() as int)
    } else {
        text
    }
}

fn strip_start(text: &str, start: &str) -> (r: String)
    ensures
        r@ == without_start(text@, start@),
{
    match without_prefix(text, start) {
        Some(rest) => rest,
        None => text.to_owned(),
    }
}

/// The score of what follows the stem of a suggestion for what follows the stem of
/// the word.
pub open spec fn word_score(
    text: Seq<char>,
    stem: Seq<char>,
    word: Seq<char>,
    cutoff: i64,
) -> Option<i64> {
    match_score(without_start(text, stem), without_start(word, stem), cutoff)
}

/// A list of which only the suggestions with a score are left. None of them is
/// accepted or inserted without asking.
pub open spec fn with_scores(
    b: BuilderView,
    processed_scores: Seq<Option<i64>>,
    unprocessed_scores: Seq<Option<i64>>,
) -> BuilderView {
    BuilderView {
        processed: pick(b.processed, |i: int| processed_scores[i] is Some),
        unprocessed: pick(b.unprocessed, |i: int| unprocessed_scores[i] is Some),
        auto_accept_if_solo: false,
        insert_common_prefix: false,
        ..b
    }
}

/// The suggestions for the stem that match the word.
pub open spec fn fuzzy_command_completions(
    found: Option<BuilderView>,
    comp_type: CompType,
    stem: Seq<char>,
    word: Seq<char>,
    cutoff: i64,
) -> Option<BuilderView> {
    match found {
        Some(b) => if_found(
            with_scores(
                b,
                b.processed.map_values(|p: ProcessedView| word_score(p.s, stem, word, cutoff)),
                b.unprocessed.map_values(
                    |u: UnprocessedView| word_score(u.raw_text, stem, word, cutoff),
                ),
            ),
            comp_type,
        ),
        None => None,
    }
}

/// Keeps the suggestions that have a score, in the order in which they stand.
pub fn keep_scored(
    builder: ActiveSuggestionsBuilder,
    processed_scores: &Vec<Option<i64>>,
    unprocessed_scores: &Vec<Option<i64>>,
) -> (r: ActiveSuggestionsBuilder)
    requires
        processed_scores@.len() == builder.processed@.len(),
        unprocessed_scores@.len() == builder.unprocessed@.len(),
    ensures
        r@ == with_scores(builder@, processed_scores@, unprocessed_scores@),
{
    let mut out = builder;
    let ghost done = processed_views(out.processed@);
    let ghost keep_done = |i: int| processed_scores@[i] is Some;
    let mut processed: Vec<ProcessedSuggestion> = Vec::new();
    assert(processed_views(processed@) =~= pick(done.take(0), keep_done));
    let mut i: usize = 0;
    while i < out.processed.len()
        invariant
            i <= out.processed@.len(),
            out.processed@.len() == processed_scores@.len(),
            done == processed_views(out.processed@),
            keep_done == (|i: int| processed_scores@[i] is Some),
            processed_views(processed@) == pick(done.take(i as int), keep_done),
        decreases out.processed@.len() - i,
    {
        assert(done.take(i + 1).drop_last() =~= done.take(i as int));
        if processed_scores[i].is_some() {
            let ghost before = processed@;
            processed.push(out.processed[i].copied());
            assert(processed_views(processed@) =~= processed_views(before).push(done[i as int]));
        }
        i = i + 1;
    }
    assert(done.take(done.len() as int) =~= done);
    let ghost waiting = unprocessed_views(out.unprocessed@);
    let ghost keep_waiting = |i: int| unprocessed_scores@[i] is Some;
    let mut unprocessed: Vec<UnprocessedSuggestion> = Vec::new();
    assert(unprocessed_views(unprocessed@) =~= pick(waiting.take(0), keep_waiting));
    let mut j: usize = 0;
    while j < out.unprocessed.len()
        invariant
            j <= out.unprocessed@.len(),
            out.unprocessed@.len() == unprocessed_scores@.len(),
            waiting == unprocessed_views(out.unprocessed@),
            keep_waiting == (|i: int| unprocessed_scores@[i] is Some),
            unprocessed_views(unprocessed@) == pick(waiting.take(j as int), keep_waiting),
        decreases out.unprocessed@.len() - j,
    {
        assert(waiting.take(j + 1).drop_last() =~= waiting.take(j as int));
        if unprocessed_scores[j].is_some() {
            let ghost before = unprocessed@;
            unprocessed.push(out.unprocessed[j].copied());
            assert(unprocessed_views(unprocessed@) =~= unprocessed_views(before).push(
                waiting[j as int],
            ));
        }
        j = j + 1;
    }
    assert(waiting.take(waiting.len() as int) =~= waiting);
    out.processed = processed;
    out.unprocessed = unprocessed;
    out.auto_accept_if_solo = false;
    out.insert_common_prefix = false;
    out
}

fn score_processed(
    list: &Vec<ProcessedSuggestion>,
    stem: &str,
    word: &str,
    cutoffs: &FuzzyCutoffs,
) -> (r: Vec<Option<i64>>)
    ensures
        r@ == processed_views(list@).map_values(
            |p: ProcessedView| word_score(p.s, stem@, word@, cutoffs.high),
        ),
{
    let pattern = strip_start(word, stem);
    let mut scores: Vec<Option<i64>> = Vec::new();
    let mut i: usize = 0;
    while i < list.len()
        invariant
            i <= list@.len(),
            pattern@ == without_start(word@, stem@),
            scores@.len() == i,
            forall|k: int|
                0 <= k < i ==> #[trigger] scores@[k] == word_score(
                    list@[k].s@,
                    stem@,
                    word@,
                    cutoffs.high,
                ),
        decreases list@.len() - i,
    {
        let text = strip_start(list[i].s.as_str(), stem);
        scores.push(
            fuzzy_match_with_threshold(
                text.as_str(),
                pattern.as_str(),
                FuzzyMatchThreshold::High,
                cutoffs,
            ),
        );
        i = i + 1;
    }
    scores
}

fn score_unprocessed(
    list: &Vec<UnprocessedSuggestion>,
    stem: &str,
    word: &str,
    cutoffs: &FuzzyCutoffs,
) -> (r: Vec<Option<i64>>)
    ensures
        r@ == unprocessed_views(list@).map_values(
            |u: UnprocessedView| word_score(u.raw_text, stem@, word@, cutoffs.high),
        ),
{
    let pattern = strip_start(word, stem);
    let mut scores: Vec<Option<i64>> = Vec::new();
    let mut i: usize = 0;
    while i < list.len()
        invariant
            i <= list@.len(),
            pattern@ == without_start(word@, stem@),
            scores@.len() == i,
            forall|k: int|
                0 <= k < i ==> #[trigger] scores@[k] == word_score(
                    list@[k].raw_text@,
                    stem@,
                    word@,
                    cutoffs.high,
                ),
        decreases list@.len() - i,
    {
        let text = strip_start(list[i].match_text(), stem);
        scores.push(
            fuzzy_match_with_threshold(
                text.as_str(),
                pattern.as_str(),
                FuzzyMatchThreshold::High,
                cutoffs,
            ),
        );
        i = i + 1;
    }
    scores
}

/// The mark that opens and closes a quoted word.
pub open spec fn quote_mark(quote_type: Option<QuoteType>) -> Seq<char> {
    match quote_type {
        Some(QuoteType::DoubleQuote) => "\""@,
        Some(QuoteType::SingleQuote) => "'"@,
        _ => ""@,
    }
}

fn mark_of(quote_type: Option<QuoteType>) -> (r: &'static str)
    ensures
        r@ == quote_mark(quote_type),
{
    match quote_type {
        Some(QuoteType::DoubleQuote) => "\"",
        Some(QuoteType::SingleQuote) => "'",
        _ => "",
    }
}

/// The text for one of the matches that are inserted together. The quoting of the
/// last one is closed by its own suffix.
pub open spec fn glob_word(
    suggestion: ProcessedView,
    is_last: bool,
    quote_type: Option<QuoteType>,
) -> Seq<char> {
    quote_mark(quote_type) + suggestion.prefix + suggestion.s + (if is_last {
        suggestion.suffix
    } else {
        quote_mark(quote_type)
    })
}

/// All matches of a pattern, separated by spaces.
pub open spec fn glob_text(list: Seq<ProcessedView>, quote_type: Option<QuoteType>) -> Seq<char> {
    join(
        Seq::new(
            list.len(),
            |i: int| glob_word(list[i], i == list.len() - 1, quote_type),
        ),
        " "@,
    )
}

/// What a pattern expands to: its matches one by one where they are only shown,
/// else all of them as one text.
pub open spec fn glob_completions(
    list: Seq<ProcessedView>,
    quote_type: Option<QuoteType>,
    auto_started: bool,
) -> BuilderView {
    if auto_started || list.len() <= 1 {
        BuilderView::of_processed(list)
    } else {
        BuilderView::of_processed(
            seq![ProcessedView::plain(glob_text(list, quote_type), ""@, ""@)],
        )
    }
}

/// Joins all matches of a pattern into the text that replaces it.
pub fn join_glob_matches(
    list: &Vec<ProcessedSuggestion>,
    quote_type: Option<QuoteType>,
) -> (r: String)
    ensures
        r@ == glob_text(processed_views(list@), quote_type),
{
    let mark = mark_of(quote_type);
    let ghost all = processed_views(list@);
    let n: usize = list.len();
    let mut parts: Vec<String> = Vec::new();
    let mut i: usize = 0;
    while i < n
        invariant
            i <= n,
            n == list@.len(),
            all == processed_views(list@),
            mark@ == quote_mark(quote_type),
            parts@.len() == i,
            forall|k: int|
                0 <= k < i ==> (#[trigger] parts@[k])@ == glob_word(
                    all[k],
                    k == n - 1,
                    quote_type,
                ),
        decreases n - i,
    {
        let head = concat3(mark, list[i].prefix.as_str(), list[i].s.as_str());
        let end: &str = if i + 1 == n {
            list[i].suffix.as_str()
        } else {
            mark
        };
        parts.push(concat(head.as_str(), end));
        i = i + 1;
    }
    assert(views(parts@) =~= Seq::new(
        all.len(),
        |i: int| glob_word(all[i], i == all.len() - 1, quote_type),
    ));
    joined(&parts, " ")
}

/// The final forms of `suggestions`, as far as they are known.
pub open spec fn final_forms(
    suggestions: Seq<UnprocessedView>,
    done: Seq<ProcessedView>,
) -> Seq<ProcessedView> {
    if done.len() <= suggestions.len() {
        done
    } else {
        done.take(suggestions.len() as int)
    }
}

fn first_processed(list: &Vec<ProcessedSuggestion>, n: usize) -> (r: Vec<ProcessedSuggestion>)
    requires
        n <= list@.len(),
    ensures
        processed_views(r@) == processed_views(list@).take(n as int),
{
    let mut out: Vec<ProcessedSuggestion> = Vec::new();
    let mut i: usize = 0;
    while i < n
        invariant
            i <= n <= list@.len(),
            out@.len() == i,
            forall|k: int| 0 <= k < i ==> (#[trigger] out@[k])@ == list@[k]@,
        decreases n - i,
    {
        out.push(list[i].copied());
        i = i + 1;
    }
    assert(processed_views(out@) =~= processed_views(list@).take(n as int));
    out
}

fn complete_glob(word: &str, answers: &ShellAnswers, auto_started: bool) -> (r:
    ActiveSuggestionsBuilder)
    ensures
        r@ == glob_completions(
            final_forms(
                pattern_suggestions(
                    answers.glob.expanded,
                    CompletionFlags::file_name(answers.glob.quote_type),
                    word@,
                    true,
                ),
                processed_views(answers.glob_processed@),
            ),
            answers.glob.quote_type,
            auto_started,
        ),
{
    let quote_type = answers.glob.quote_type;
    let (found, _flags) = tab_complete_glob_expansion(&answers.glob.expanded, quote_type, word);
    let n: usize = if answers.glob_processed.len() <= found.len() {
        answers.glob_processed.len()
    } else {
        found.len()
    };
    let list = first_processed(&answers.glob_processed, n);
    assert(processed_views(list@) =~= final_forms(
        unprocessed_views(found@),
        processed_views(answers.glob_processed@),
    ));
    if auto_started || list.len() <= 1 {
        ActiveSuggestionsBuilder::from_processed(list)
    } else {
        let text = join_glob_matches(&list, quote_type);
        let mut one: Vec<ProcessedSuggestion> = Vec::new();
        one.push(ProcessedSuggestion::new(text, "".to_owned(), "".to_owned()));
        assert(processed_views(one@) =~= seq![
            ProcessedView::plain(
                glob_text(processed_views(list@), quote_type),
                ""@,
                ""@,
            ),
        ]);
        ActiveSuggestionsBuilder::from_processed(one)
    }
}

/// A suggestion for what stands left of the cursor, followed by what stands right
/// of it. Whether such a path exists is not known.
pub open spec fn with_right_part(u: UnprocessedView, right: Seq<char>) -> UnprocessedView {
    UnprocessedView {
        raw_text: u.raw_text + right,
        full_path: None,
        flags: CompletionFlags { no_suffix_desired: true, ..u.flags },
        ..u
    }
}

/// The suggestions for the whole word, or, where there are none and something
/// stands right of the cursor, those for the part left of it.
pub open spec fn with_fallback(
    whole: Seq<UnprocessedView>,
    left_part: Seq<UnprocessedView>,
    right: Seq<char>,
) -> Seq<UnprocessedView> {
    if whole.len() == 0 && right.len() > 0 {
        left_part.map_values(|u: UnprocessedView| with_right_part(u, right))
    } else {
        whole
    }
}

fn append_right_part(list: &Vec<UnprocessedSuggestion>, right: &str) -> (r: Vec<
    UnprocessedSuggestion,
>)
    ensures
        unprocessed_views(r@) == unprocessed_views(list@).map_values(
            |u: UnprocessedView| with_right_part(u, right@),
        ),
{
    let mut out: Vec<UnprocessedSuggestion> = Vec::new();
    let mut i: usize = 0;
    while i < list.len()
        invariant
            i <= list@.len(),
            out@.len() == i,
            forall|k: int|
                0 <= k < i ==> (#[trigger] out@[k])@ == with_right_part(list@[k]@, right@),
        decreases list@.len() - i,
    {
        let u = &list[i];
        let mut flags = u.flags;
        flags.no_suffix_desired = true;
        out.push(
            UnprocessedSuggestion {
                raw_text: concat(u.raw_text.as_str(), right),
                full_path: None,
                flags,
                word_under_cursor: u.word_under_cursor.clone(),
                is_git_command: u.is_git_command,
                custom_prefix: crate::suggestion::copied_text(&u.custom_prefix),
            },
        );
        i = i + 1;
    }
    assert(unprocessed_views(out@) =~= unprocessed_views(list@).map_values(
        |u: UnprocessedView| with_right_part(u, right@),
    ));
    out
}

/// Whether a completion that nobody asked for is left out: for a word of white
/// space every file would be offered.
pub open spec fn skips_files(auto_started: bool, word: Seq<char>) -> bool {
    auto_started && trim(word).len() == 0
}

/// The suggestions of files whose name starts with the word.
pub open spec fn file_completions(
    word: Seq<char>,
    right: Seq<char>,
    glob: GlobAnswer,
    fallback: GlobAnswer,
) -> BuilderView {
    BuilderView {
        insert_common_prefix: right.len() == 0,
        ..BuilderView::of_unprocessed(
            with_fallback(
                pattern_suggestions(
                    glob.expanded,
                    CompletionFlags::file_name(glob.quote_type),
                    word,
                    true,
                ),
                pattern_suggestions(
                    fallback.expanded,
                    CompletionFlags::file_name(fallback.quote_type),
                    word,
                    true,
                ),
                right,
            ),
        )
    }
}

fn complete_files(ctx: &CompletionContext, answers: &ShellAnswers) -> (r: ActiveSuggestionsBuilder)
    ensures
        r@ == file_completions(ctx.word(), ctx.right@, answers.glob, answers.fallback_glob),
{
    let word = ctx.word_under_cursor();
    let right = ctx.word_right_of_cursor();
    let (whole, _flags) = tab_complete_glob_expansion(
        &answers.glob.expanded,
        answers.glob.quote_type,
        word.as_str(),
    );
    let found: Vec<UnprocessedSuggestion> = if whole.len() == 0 && !right.is_empty() {
        let (left_part, _flags2) = tab_complete_glob_expansion(
            &answers.fallback_glob.expanded,
            answers.fallback_glob.quote_type,
            word.as_str(),
        );
        append_right_part(&left_part, right)
    } else {
        whole
    };
    ActiveSuggestionsBuilder::from_unprocessed(found).with_insert_common_prefix(right.is_empty())
}

/// The suggestions of files whose path matches the word.
pub open spec fn fuzzy_file_completions(
    right: Seq<char>,
    dir: DirAnswer,
    fallback: DirAnswer,
    cutoff: i64,
) -> BuilderView {
    BuilderView {
        auto_accept_if_solo: false,
        insert_common_prefix: false,
        ..BuilderView::of_unprocessed(
            with_fallback(
                fuzzy_suggestions(
                    dir.dequoted@,
                    count_of(right, '/'),
                    dir.base,
                    CompletionFlags::file_name(dir.quote_type),
                    cutoff,
                ),
                fuzzy_suggestions(
                    fallback.dequoted@,
                    0,
                    fallback.base,
                    CompletionFlags::file_name(fallback.quote_type),
                    cutoff,
                ),
                right,
            ),
        )
    }
}

fn complete_fuzzy_files(
    ctx: &CompletionContext,
    answers: &ShellAnswers,
    cutoffs: &FuzzyCutoffs,
) -> (r: ActiveSuggestionsBuilder)
    ensures
        r@ == fuzzy_file_completions(ctx.right@, answers.dir, answers.fallback_dir, cutoffs.medium),
{
    let right = ctx.word_right_of_cursor();
    let (whole, _flags) = tab_complete_fuzzy_filename(
        ctx,
        answers.dir.dequoted.as_str(),
        answers.dir.quote_type,
        &answers.dir.base,
        cutoffs,
    );
    let found: Vec<UnprocessedSuggestion> = if whole.len() == 0 && !right.is_empty() {
        let fallback = ctx.with_wuc_replaced(ctx.word_left_of_cursor());
        assert(count_of(fallback.right@, '/') == 0);
        let (left_part, _flags2) = tab_complete_fuzzy_filename(
            &fallback,
            answers.fallback_dir.dequoted.as_str(),
            answers.fallback_dir.quote_type,
            &answers.fallback_dir.base,
            cutoffs,
        );
        append_right_part(&left_part, right)
    } else {
        whole
    };
    ActiveSuggestionsBuilder::from_unprocessed(found).with_auto_accept_if_solo(
        false,
    ).with_insert_common_prefix(false)
}

/// How a completion was asked for.
#[derive(Clone, Copy, Debug, PartialEq, Eq)]
pub struct SearchMode {
    /// Whether it started by itself while the user typed.
    pub auto_started: bool,
    /// Whether a completion is to be made for a command that has none.
    pub will_run_flycomp: bool,
    pub cutoffs: FuzzyCutoffs,
}

/// What one way of completing finds.
pub open spec fn completion_of(
    ctx: CompletionContext,
    comp_type: CompType,
    mode: SearchMode,
    answers: ShellAnswers,
) -> Option<BuilderView> {
    let word = ctx.word();
    match comp_type {
        CompType::NoCompletion => None,
        CompType::FirstWord => if_found(
            first_word_suggestions(
                word,
                word,
                answers.words@,
                answers.glob.expanded,
                answers.glob.quote_type,
            ),
            comp_type,
        ),
        CompType::FuzzyFirstWord => if_found(
            fuzzy_first_word_suggestions(
                word,
                answers.words@,
                answers.dir.dequoted@,
                answers.dir.quote_type,
                answers.dir.base,
                mode.cutoffs,
            ),
            comp_type,
        ),
        CompType::CommandComp { command_word } => command_completions(
            comp_spec_suggestions(
                word,
                command_word@,
                text_view(answers.alias),
                answers.comp_spec,
            ),
            comp_type,
            mode.will_run_flycomp,
        ),
        CompType::FuzzyCommandComp { command_word } => match stem(word) {
            Some(s) => fuzzy_command_completions(
                comp_spec_suggestions(
                    s,
                    command_word@,
                    text_view(answers.alias),
                    answers.comp_spec,
                ),
                comp_type,
                s,
                word,
                mode.cutoffs.high,
            ),
            None => None,
        },
        CompType::EnvVariable => if_found(
            BuilderView::of_processed(
                views(answers.vars@).map_values(
                    |v: Seq<char>|
                        ProcessedView::plain(
                            v,
                            ""@,
                            if ctx.is_inside_quotes {
                                ""@
                            } else {
                                " "@
                            },
                        ),
                ),
            ),
            comp_type,
        ),
        CompType::HostnameExpansion => if_found(
            BuilderView::of_processed(host_suggestions(word, views(answers.hosts@))),
            comp_type,
        ),
        CompType::TildeExpansion => if_found(
            BuilderView::of_processed(tilde_suggestions(word, answers.users@)),
            comp_type,
        ),
        CompType::GlobExpansion => if_found(
            glob_completions(
                final_forms(
                    pattern_suggestions(
                        answers.glob.expanded,
                        CompletionFlags::file_name(answers.glob.quote_type),
                        word,
                        true,
                    ),
                    processed_views(answers.glob_processed@),
                ),
                answers.glob.quote_type,
                mode.auto_started,
            ),
            comp_type,
        ),
        CompType::FilenameExpansion => if skips_files(mode.auto_started, word) {
            None
        } else {
            if_found(
                file_completions(word, ctx.right@, answers.glob, answers.fallback_glob),
                comp_type,
            )
        },
        CompType::FuzzyFilenameExpansion => if skips_files(mode.auto_started, word) {
            None
        } else {
            if_found(
                fuzzy_file_completions(
                    ctx.right@,
                    answers.dir,
                    answers.fallback_dir,
                    mode.cutoffs.medium,
                ),
                comp_type,
            )
        },
    }
}

fn complete_command(
    ctx: &CompletionContext,
    comp_type: &CompType,
    command_word: &str,
    mode: &SearchMode,
    answers: &ShellAnswers,
) -> (r: Option<ActiveSuggestionsBuilder>)
    ensures
        builder_view(r) == command_completions(
            comp_spec_suggestions(
                ctx.word(),
                command_word@,
                text_view(answers.alias),
                answers.comp_spec,
            ),
            *comp_type,
            mode.will_run_flycomp,
        ),
{
    match run_comp_spec_completion(ctx, command_word, &answers.alias, &answers.comp_spec) {
        Some(found) => {
            let useless = match found.compspec_was_useful {
                Some(useful) => !useful,
                None => false,
            };
            let run = found.should_run_flycomp || (useless && mode.will_run_flycomp);
            if !found.is_empty() || run {
                let mut builder = found.with_comp_type(comp_type.copied());
                builder.should_run_flycomp = run;
                Some(builder)
            } else {
                None
            }
        },
        None => None,
    }
}

fn complete_fuzzy_command(
    ctx: &CompletionContext,
    comp_type: &CompType,
    command_word: &str,
    mode: &SearchMode,
    answers: &ShellAnswers,
) -> (r: Option<ActiveSuggestionsBuilder>)
    ensures
        builder_view(r) == (match stem(ctx.word()) {
            Some(s) => fuzzy_command_completions(
                comp_spec_suggestions(
                    s,
                    command_word@,
                    text_view(answers.alias),
                    answers.comp_spec,
                ),
                *comp_type,
                s,
                ctx.word(),
                mode.cutoffs.high,
            ),
            None => None,
        }),
{
    let word = ctx.word_under_cursor();
    let start = match fuzzy_stem(word.as_str()) {
        Some(start) => start,
        None => {
            return None;
        },
    };
    let shortened = ctx.with_wuc_replaced(start.as_str());
    assert(shortened.word() =~= start@);
    match run_comp_spec_completion(&shortened, command_word, &answers.alias, &answers.comp_spec) {
        Some(found) => {
            let processed_scores = score_processed(
                &found.processed,
                start.as_str(),
                word.as_str(),
                &mode.cutoffs,
            );
            let unprocessed_scores = score_unprocessed(
                &found.unprocessed,
                start.as_str(),
                word.as_str(),
                &mode.cutoffs,
            );
            let narrowed = keep_scored(found, &processed_scores, &unprocessed_scores);
            keep_if_found(narrowed, comp_type)
        },
        None => None,
    }
}

/// Tries one way of completing the word under the cursor.
pub fn complete_with(
    ctx: &CompletionContext,
    comp_type: &CompType,
    mode: &SearchMode,
    answers: &ShellAnswers,
) -> (r: Option<ActiveSuggestionsBuilder>)
    ensures
        builder_view(r) == completion_of(*ctx, *comp_type, *mode, *answers),
{
    let word = ctx.word_under_cursor();
    match comp_type {
        CompType::NoCompletion => None,
        CompType::FirstWord => keep_if_found(
            tab_complete_first_word(
                word.as_str(),
                word.as_str(),
                &answers.words,
                &answers.glob.expanded,
                answers.glob.quote_type,
            ),
            comp_type,
        ),
        CompType::FuzzyFirstWord => keep_if_found(
            tab_complete_fuzzy_first_word(
                word.as_str(),
                &answers.words,
                answers.dir.dequoted.as_str(),
                answers.dir.quote_type,
                &answers.dir.base,
                &mode.cutoffs,
            ),
            comp_type,
        ),
        CompType::CommandComp { command_word } => complete_command(
            ctx,
            comp_type,
            command_word.as_str(),
            mode,
            answers,
        ),
        CompType::FuzzyCommandComp { command_word } => complete_fuzzy_command(
            ctx,
            comp_type,
            command_word.as_str(),
            mode,
            answers,
        ),
        CompType::EnvVariable => {
            let suffix: &str = if ctx.is_inside_quotes {
                ""
            } else {
                " "
            };
            let list = ProcessedSuggestion::from_string_vec(&answers.vars, "", suffix);
            assert(processed_views(list@) =~= views(answers.vars@).map_values(
                |v: Seq<char>|
                    ProcessedView::plain(
                        v,
                        ""@,
                        if ctx.is_inside_quotes {
                            ""@
                        } else {
                            " "@
                        },
                    ),
            ));
            keep_if_found(ActiveSuggestionsBuilder::from_processed(list), comp_type)
        },
        CompType::HostnameExpansion => {
            let list = tab_complete_hostname_expansion(word.as_str(), &answers.hosts);
            keep_if_found(ActiveSuggestionsBuilder::from_processed(list), comp_type)
        },
        CompType::TildeExpansion => {
            let list = tab_complete_tilde_expansion(word.as_str(), &answers.users);
            keep_if_found(ActiveSuggestionsBuilder::from_processed(list), comp_type)
        },
        CompType::GlobExpansion => keep_if_found(
            complete_glob(word.as_str(), answers, mode.auto_started),
            comp_type,
        ),
        CompType::FilenameExpansion => {
            if mode.auto_started && trimmed(word.as_str()).as_str().is_empty() {
                return None;
            }
            keep_if_found(complete_files(ctx, answers), comp_type)
        },
        CompType::FuzzyFilenameExpansion => {
            if mode.auto_started && trimmed(word.as_str()).as_str().is_empty() {
                return None;
            }
            keep_if_found(complete_fuzzy_files(ctx, answers, &mode.cutoffs), comp_type)
        },
    }
}

/// The first thing that the ways of completing find, tried from the `i`-th on.
/// Ways for which there are no answers yet are not tried.
pub open spec fn search_from(
    ctx: CompletionContext,
    mode: SearchMode,
    answers: Seq<ShellAnswers>,
    i: int,
) -> Option<BuilderView>
    decreases ctx.comp_types@.len() - i,
{
    if i < 0 || i >= ctx.comp_types@.len() || i >= answers.len() {
        None
    } else {
        match completion_of(ctx, ctx.comp_types@[i], mode, answers[i]) {
            Some(found) => Some(found),
            None => search_from(ctx, mode, answers, i + 1),
        }
    }
}

/// Where the search for completions stands.
#[derive(Debug, PartialEq, Eq)]
pub enum SearchOutcome {
    /// A way of completing has found something: the search is over.
    Found(ActiveSuggestionsBuilder),
    /// Nothing was found so far; the answers for this way are needed.
    Ask(usize),
    /// No way finds anything.
    Nothing,
}

/// Tries the ways of completing the word under the cursor in turn. The `i`-th of
/// `answers` is for the `i`-th way; answers for later ways are asked for only where
/// those before them find nothing.
pub fn gen_completions_uncomitted(
    ctx: &CompletionContext,
    mode: &SearchMode,
    answers: &Vec<ShellAnswers>,
) -> (r: SearchOutcome)
    ensures
        match search_from(*ctx, *mode, answers@, 0) {
            Some(found) => r matches SearchOutcome::Found(builder) && builder@ == found,
            None => if answers@.len() < ctx.comp_types@.len() {
                r matches SearchOutcome::Ask(i) && i == answers@.len()
            } else {
                r is Nothing
            },
        },
{
    let mut i: usize = 0;
    while i < ctx.comp_types.len() && i < answers.len()
        invariant
            i <= ctx.comp_types@.len(),
            i <= answers@.len(),
            search_from(*ctx, *mode, answers@, 0) == search_from(*ctx, *mode, answers@, i as int),
        decreases ctx.comp_types@.len() - i,
    {
        if let Some(found) = complete_with(ctx, &ctx.comp_types[i], mode, &answers[i]) {
            return SearchOutcome::Found(found);
        }
        i = i + 1;
    }
    if i < ctx.comp_types.len() {
        SearchOutcome::Ask(i)
    } else {
        SearchOutcome::Nothing
    }
}

/// The way that wins is the first that finds something, and the search comes to
/// nothing only where no way finds anything.
pub proof fn lemma_first_way_wins(
    ctx: CompletionContext,
    mode: SearchMode,
    answers: Seq<ShellAnswers>,
    from: int,
)
    requires
        0 <= from <= ctx.comp_types@.len(),
        answers.len() == ctx.comp_types@.len(),
    ensures
        search_from(ctx, mode, answers, from) is None <==> forall|k: int|
            from <= k < answers.len() ==> completion_of(
                ctx,
                ctx.comp_types@[k],
                mode,
                #[trigger] answers[k],
            ) is None,
        search_from(ctx, mode, answers, from) is Some ==> exists|k: int|
            from <= k < answers.len() && search_from(ctx, mode, answers, from) == completion_of(
                ctx,
                ctx.comp_types@[k],
                mode,
                #[trigger] answers[k],
            ) && forall|j: int|
                from <= j < k ==> completion_of(
                    ctx,
                    ctx.comp_types@[j],
                    mode,
                    #[trigger] answers[j],
                ) is None,
    decreases answers.len() - from,
{
    if from < answers.len() {
        lemma_first_way_wins(ctx, mode, answers, from + 1);
        let here = completion_of(ctx, ctx.comp_types@[from], mode, answers[from]);
        if here is None {
            if search_from(ctx, mode, answers, from + 1) is Some {
                let k = choose|k: int|
                    from + 1 <= k < answers.len() && search_from(ctx, mode, answers, from + 1)
                        == completion_of(ctx, ctx.comp_types@[k], mode, #[trigger] answers[k])
                        && forall|j: int|
                        from + 1 <= j < k ==> completion_of(
                            ctx,
                            ctx.comp_types@[j],
                            mode,
                            #[trigger] answers[j],
                        ) is None;
                assert(from <= k < answers.len());
                assert forall|j: int| from <= j < k implies completion_of(
                    ctx,
                    ctx.comp_types@[j],
                    mode,
                    #[trigger] answers[j],
                ) is None by {
                    if j == from {
                    }
                }
            } else {
                assert forall|k: int| from <= k < answers.len() implies completion_of(
                    ctx,
                    ctx.comp_types@[k],
                    mode,
                    #[trigger] answers[k],
                ) is None by {
                    if k == from {
                    }
                }
            }
        } else {
            assert(answers[from] == answers[from]);
        }
    }
}

/// Once the answers gathered so far lead to completions, further answers change
/// nothing: they need not be gathered.
pub proof fn lemma_more_answers_change_nothing(
    ctx: CompletionContext,
    mode: SearchMode,
    some: Seq<ShellAnswers>,
    all: Seq<ShellAnswers>,
    from: int,
)
    requires
        0 <= from,
        some.is_prefix_of(all),
        search_from(ctx, mode, some, from) is Some,
    ensures
        search_from(ctx, mode, all, from) == search_from(ctx, mode, some, from),
    decreases ctx.comp_types@.len() - from,
{
    assert(some[from] == all[from]);
    if completion_of(ctx, ctx.comp_types@[from], mode, some[from]) is None {
        lemma_more_answers_change_nothing(ctx, mode, some, all, from + 1);
    }
}

/// What a way of completing finds bears its mark, and is worth showing: it holds a
/// suggestion, or asks for a completion to be made for the command.
pub proof fn lemma_completion_is_worth_showing(
    ctx: CompletionContext,
    comp_type: CompType,
    mode: SearchMode,
    answers: ShellAnswers,
)
    ensures
        completion_of(ctx, comp_type, mode, answers) matches Some(found) ==> {
            &&& found.comp_type == comp_type
            &&& found.count() > 0 || (found.should_run_flycomp && mode.will_run_flycomp
                && comp_type is CommandComp)
            &&& found.common_prefix is None
        },
{
}

/// The longest text that `a` and `b` both start with.
pub open spec fn common_start(a: Seq<char>, b: Seq<char>) -> Seq<char>
    decreases a.len(),
{
    if a.len() == 0 || b.len() == 0 || a[0] != b[0] {
        Seq::empty()
    } else {
        seq![a[0]] + common_start(a.skip(1), b.skip(1))
    }
}

/// The longest text that all of `texts` start with.
pub open spec fn common_start_of(texts: Seq<Seq<char>>) -> Seq<char>
    decreases texts.len(),
{
    if texts.len() == 0 {
        Seq::empty()
    } else if texts.len() == 1 {
        texts[0]
    } else {
        common_start(common_start_of(texts.drop_last()), texts.last())
    }
}

proof fn lemma_common_start(a: Seq<char>, b: Seq<char>)
    ensures
        common_start(a, b).is_prefix_of(a),
        common_start(a, b).is_prefix_of(b),
        forall|p: Seq<char>| #[trigger]
            p.is_prefix_of(a) && p.is_prefix_of(b) ==> p.is_prefix_of(common_start(a, b)),
    decreases a.len(),
{
    if a.len() == 0 || b.len() == 0 || a[0] != b[0] {
        assert forall|p: Seq<char>| #[trigger]
            p.is_prefix_of(a) && p.is_prefix_of(b) implies p.is_prefix_of(common_start(a, b)) by {
            if p.len() > 0 {
                assert(p[0] == a[0] && p[0] == b[0]);
            }
            assert(p =~= Seq::empty());
        }
    } else {
        lemma_common_start(a.skip(1), b.skip(1));
        let c = common_start(a.skip(1), b.skip(1));
        assert(common_start(a, b) =~= seq![a[0]] + c);
        assert(common_start(a, b) =~= a.take(common_start(a, b).len() as int)) by {
            assert forall|i: int| 0 <= i < common_start(a, b).len() implies common_start(a, b)[i]
                == a[i] by {
                if i > 0 {
                    assert(c[i - 1] == a.skip(1)[i - 1]);
                }
            }
        }
        assert(common_start(a, b) =~= b.take(common_start(a, b).len() as int)) by {
            assert forall|i: int| 0 <= i < common_start(a, b).len() implies common_start(a, b)[i]
                == b[i] by {
                if i > 0 {
                    assert(c[i - 1] == b.skip(1)[i - 1]);
                }
            }
        }
        assert forall|p: Seq<char>| #[trigger]
            p.is_prefix_of(a) && p.is_prefix_of(b) implies p.is_prefix_of(common_start(a, b)) by {
            if p.len() > 0 {
                let q = p.skip(1);
                assert(q =~= a.skip(1).take(q.len() as int));
                assert(q =~= b.skip(1).take(q.len() as int));
                assert(q.is_prefix_of(a.skip(1)) && q.is_prefix_of(b.skip(1)));
                assert(q.is_prefix_of(c));
                assert(p =~= seq![p[0]] + q);
                assert(p =~= common_start(a, b).take(p.len() as int));
            }
        }
    }
}

/// What all texts start with is a start of each of them, and no longer text is.
pub proof fn lemma_common_start_of(texts: Seq<Seq<char>>)
    requires
        texts.len() > 0,
    ensures
        forall|i: int|
            0 <= i < texts.len() ==> common_start_of(texts).is_prefix_of(#[trigger] texts[i]),
        forall|p: Seq<char>|
            (forall|i: int| 0 <= i < texts.len() ==> p.is_prefix_of(#[trigger] texts[i]))
                ==> #[trigger] p.is_prefix_of(common_start_of(texts)),
    decreases texts.len(),
{
    if texts.len() == 1 {
        assert(texts[0].is_prefix_of(texts[0]));
    } else {
        let rest = texts.drop_last();
        lemma_common_start_of(rest);
        lemma_common_start(common_start_of(rest), texts.last());
        let c = common_start_of(texts);
        assert forall|i: int| 0 <= i < texts.len() implies c.is_prefix_of(#[trigger] texts[i]) by {
            if i < rest.len() {
                assert(common_start_of(rest).is_prefix_of(rest[i]));
            }
        }
        assert forall|p: Seq<char>|
            (forall|i: int| 0 <= i < texts.len() ==> p.is_prefix_of(#[trigger] texts[i])) implies
            #[trigger] p.is_prefix_of(c) by {
            assert forall|i: int| 0 <= i < rest.len() implies p.is_prefix_of(
                #[trigger] rest[i],
            ) by {
                assert(p.is_prefix_of(texts[i]));
            }
            assert(p.is_prefix_of(common_start_of(rest)));
            assert(p.is_prefix_of(texts[texts.len() - 1]));
        }
    }
}

fn common_start_text(a: &str, b: &str) -> (r: String)
    ensures
        r@ == common_start(a@, b@),
{
    let x = crate::text::chars_of(a);
    let y = crate::text::chars_of(b);
    let mut i: usize = 0;
    assert(a@.skip(0) =~= a@ && b@.skip(0) =~= b@);
    assert(a@.take(0) + common_start(a@, b@) =~= common_start(a@, b@));
    while i < x.len() && i < y.len() && x[i] == y[i]
        invariant
            x@ == a@,
            y@ == b@,
            i <= x@.len(),
            i <= y@.len(),
            common_start(a@, b@) == a@.take(i as int) + common_start(
                a@.skip(i as int),
                b@.skip(i as int),
            ),
        decreases x@.len() - i,
    {
        assert(a@.skip(i as int).skip(1) =~= a@.skip(i + 1));
        assert(b@.skip(i as int).skip(1) =~= b@.skip(i + 1));
        assert(a@.take(i + 1) =~= a@.take(i as int) + seq![a@[i as int]]);
        i = i + 1;
    }
    assert(common_start(a@.skip(i as int), b@.skip(i as int)) =~= Seq::empty());
    let r = substring(a, 0, i);
    assert(r@ =~= a@.take(i as int));
    r
}

/// The text that a suggestion puts before its suffix.
pub open spec fn shown_texts(list: Seq<ProcessedView>) -> Seq<Seq<char>> {
    list.map_values(|p: ProcessedView| p.prefix + p.s)
}

/// What all suggestions start with, where that is anything.
pub open spec fn common_prefix_of(list: Seq<ProcessedView>) -> Option<Seq<char>> {
    let common = common_start_of(shown_texts(list));
    if common.len() > 0 {
        Some(common)
    } else {
        None
    }
}

impl ActiveSuggestionsBuilder {
    /// Works out what all processed suggestions start with.
    pub fn set_common_prefix(&mut self)
        ensures
            final(self)@ == (BuilderView {
                common_prefix: common_prefix_of(old(self)@.processed),
                ..old(self)@
            }),
    {
        let ghost texts = shown_texts(self@.processed);
        let mut common = String::new();
        let mut i: usize = 0;
        assert(common@ =~= common_start_of(texts.take(0)));
        while i < self.processed.len()
            invariant
                i <= self.processed@.len(),
                texts == shown_texts(processed_views(self.processed@)),
                common@ == common_start_of(texts.take(i as int)),
                self@ == old(self)@,
            decreases self.processed@.len() - i,
        {
            let text = concat(self.processed[i].prefix.as_str(), self.processed[i].s.as_str());
            assert(text@ == texts[i as int]);
            assert(texts.take(i + 1).drop_last() =~= texts.take(i as int));
            if i == 0 {
                common = text;
            } else {
                common = common_start_text(common.as_str(), text.as_str());
            }
            i = i + 1;
        }
        assert(texts.take(texts.len() as int) =~= texts);
        self.common_prefix = if common.as_str().is_empty() {
            None
        } else {
            Some(common)
        };
    }
}

/// The outcome of a search once the suggestions in `done` are final: they take the
/// place of as many of those that were not, and what all start with is worked out
/// where none is left.
pub open spec fn finished_search(
    found: BuilderView,
    done: Seq<ProcessedView>,
) -> BuilderView {
    let forms = final_forms(found.unprocessed, done);
    let processed = found.processed + forms;
    let unprocessed = found.unprocessed.skip(forms.len() as int);
    BuilderView {
        processed,
        unprocessed,
        common_prefix: if found.insert_common_prefix && unprocessed.len() == 0 {
            common_prefix_of(processed)
        } else {
            found.common_prefix
        },
        ..found
    }
}

/// Takes in the suggestions that have become final since the search ended.
pub fn gen_completions_internal(
    found: Option<ActiveSuggestionsBuilder>,
    done: &Vec<ProcessedSuggestion>,
) -> (r: Option<ActiveSuggestionsBuilder>)
    ensures
        builder_view(r) == (match found {
            Some(b) => Some(finished_search(b@, processed_views(done@))),
            None => None,
        }),
{
    match found {
        Some(builder) => {
            let mut out = builder;
            let ghost start = out@;
            let n: usize = if done.len() < out.unprocessed.len() {
                done.len()
            } else {
                out.unprocessed.len()
            };
            let mut forms = first_processed(done, n);
            let ghost all = processed_views(forms@);
            assert(all =~= final_forms(start.unprocessed, processed_views(done@)));
            let ghost before = out.processed@;
            let ghost more = forms@;
            out.processed.append(&mut forms);
            assert(processed_views(out.processed@) =~= processed_views(before) + processed_views(
                more,
            ));
            let ghost waiting = out.unprocessed@;
            let rest = out.unprocessed.split_off(n);
            out.unprocessed = rest;
            assert(unprocessed_views(out.unprocessed@) =~= unprocessed_views(waiting).skip(
                n as int,
            ));
            if out.insert_common_prefix && out.unprocessed.len() == 0 {
                out.set_common_prefix();
            }
            Some(out)
        },
        None => None,
    }
}

/// The pattern whose matches complete the word under the cursor: a star where the
/// cursor stands.
pub fn filename_pattern(ctx: &CompletionContext) -> (r: String)
    ensures
        r@ == ctx.left@ + "*"@ + ctx.right@,
{
    concat3(ctx.word_left_of_cursor(), "*", ctx.word_right_of_cursor())
}

/// The pattern that leaves out what stands right of the cursor.
pub fn fallback_filename_pattern(ctx: &CompletionContext) -> (r: String)
    ensures
        r@ == ctx.left@ + "*"@,
{
    concat(ctx.word_left_of_cursor(), "*")
}

/// The pattern whose matches complete a first word that is a path.
pub fn first_word_pattern(command: &str) -> (r: String)
    ensures
        r@ == command@ + "*"@,
{
    concat(command, "*")
}

/// Where in the word the cursor stands makes no difference to the command's own
/// completion.
pub proof fn lemma_cursor_place_makes_no_difference(
    a: CompletionContext,
    b: CompletionContext,
    comp_type: CompType,
    mode: SearchMode,
    answers: ShellAnswers,
)
    requires
        comp_type is CommandComp || comp_type is FuzzyCommandComp,
        a.word() == b.word(),
    ensures
        completion_of(a, comp_type, mode, answers) == completion_of(b, comp_type, mode, answers),
{
}

/// Whether all suggestions start with `p`.
pub open spec fn all_start_with(list: Seq<ProcessedView>, p: Seq<char>) -> bool {
    forall|i: int|
        0 <= i < list.len() ==> p.is_prefix_of((#[trigger] list[i]).prefix + list[i].s)
}

/// What is inserted for all suggestions at once is a start of each of them, and
/// the longest such.
pub proof fn lemma_common_prefix_is_common(list: Seq<ProcessedView>)
    requires
        list.len() > 0,
    ensures
        common_prefix_of(list) matches Some(common) ==> all_start_with(list, common),
        forall|p: Seq<char>|
            p.len() > 0 && #[trigger] all_start_with(list, p) ==> (common_prefix_of(list)
                matches Some(common) && p.is_prefix_of(common)),
{
    let texts = shown_texts(list);
    lemma_common_start_of(texts);
    assert forall|i: int| 0 <= i < list.len() implies common_start_of(texts).is_prefix_of(
        (#[trigger] list[i]).prefix + list[i].s,
    ) by {
        assert(texts[i] == list[i].prefix + list[i].s);
    }
    assert forall|p: Seq<char>| p.len() > 0 && #[trigger] all_start_with(list, p) implies (
    common_prefix_of(list) matches Some(common) && p.is_prefix_of(common)) by {
        assert forall|i: int| 0 <= i < texts.len() implies p.is_prefix_of(
            #[trigger] texts[i],
        ) by {
            assert(texts[i] == list[i].prefix + list[i].s);
        }
        assert(p.is_prefix_of(common_start_of(texts)));
    }
}

/// For a word that holds anything but white space, it makes no difference whether a
/// completion started by itself or was asked for, except that the matches of a pattern are
/// inserted only where that was asked for. For a word of white space, files are offered
/// only where they were asked for.
pub proof fn lemma_only_white_space_is_skipped(
    ctx: CompletionContext,
    comp_type: CompType,
    mode: SearchMode,
    answers: ShellAnswers,
)
    ensures
        has_solid(ctx.left@ + ctx.right@) && !(comp_type is GlobExpansion) ==> completion_of(
            ctx,
            comp_type,
            SearchMode { auto_started: true, ..mode },
            answers,
        ) == completion_of(ctx, comp_type, SearchMode { auto_started: false, ..mode }, answers),
        !has_solid(ctx.left@ + ctx.right@) && (comp_type is FilenameExpansion
            || comp_type is FuzzyFilenameExpansion) ==> completion_of(
            ctx,
            comp_type,
            SearchMode { auto_started: true, ..mode },
            answers,
        ) is None,
{
    let r = crate::text::lemma_trim_cuts(ctx.left@ + ctx.right@);
}

/// Files are looked for: the user asked for them, or the word is more than white space.
pub open spec fn looks_for_files(ctx: CompletionContext, mode: SearchMode) -> bool {
    !mode.auto_started || has_solid(ctx.left@ + ctx.right@)
}

proof fn lemma_files_are_not_skipped(ctx: CompletionContext, mode: SearchMode)
    requires
        looks_for_files(ctx, mode),
    ensures
        !skips_files(mode.auto_started, ctx.word()),
{
    let r = crate::text::lemma_trim_cuts(ctx.left@ + ctx.right@);
}

/// Every file that the pattern of the word matches and that has a wanted name is
/// suggested. A file that is alone is accepted, and what all of them start with is
/// inserted where the cursor stands at the end of the word.
pub proof fn lemma_every_file_is_offered(
    ctx: CompletionContext,
    mode: SearchMode,
    answers: ShellAnswers,
    k: int,
) -> (i: int)
    requires
        looks_for_files(ctx, mode),
        answers.glob.expanded.matches@.len() <= 10_000,
        0 <= k < answers.glob.expanded.matches@.len(),
        is_wanted_name(
            answers.glob.expanded.matches@[k].quoted_rhs@,
            answers.glob.expanded.wants_hidden,
            true,
        ),
    ensures
        completion_of(ctx, CompType::FilenameExpansion, mode, answers) matches Some(b) && {
            &&& 0 <= i < b.unprocessed.len()
            &&& b.unprocessed[i].raw_text == answers.glob.expanded.matches@[k].unexpanded@
            &&& b.processed.len() == 0
            &&& b.comp_type is FilenameExpansion
            &&& b.auto_accept_if_solo
            &&& b.insert_common_prefix == (ctx.right@.len() == 0)
            &&& !b.nosort && b.common_prefix is None && !b.should_run_flycomp
        },
{
    lemma_files_are_not_skipped(ctx, mode);
    lemma_every_wanted_file_is_suggested(
        answers.glob.expanded,
        CompletionFlags::file_name(answers.glob.quote_type),
        ctx.word(),
        true,
        k,
    )
}

/// No match of the pattern has a wanted name.
pub open spec fn has_no_wanted_match(expanded: PathPatternExpansion) -> bool {
    forall|k: int|
        0 <= k < expanded.matches@.len() ==> !is_wanted_name(
            (#[trigger] expanded.matches@[k]).quoted_rhs@,
            expanded.wants_hidden,
            true,
        )
}

proof fn lemma_nothing_wanted_nothing_suggested(
    expanded: PathPatternExpansion,
    flags: CompletionFlags,
    word: Seq<char>,
)
    requires
        has_no_wanted_match(expanded),
    ensures
        pattern_suggestions(expanded, flags, word, true).len() == 0,
{
    if pattern_suggestions(expanded, flags, word, true).len() > 0 {
        let k = lemma_only_wanted_files_are_suggested(expanded, flags, word, true, 0);
        assert(!is_wanted_name(expanded.matches@[k].quoted_rhs@, expanded.wants_hidden, true));
    }
}

/// Where no file matches the whole word, those that match what stands left of the cursor
/// are suggested, followed by what stands right of it. They are not taken for files that
/// are there, nothing follows them, and nothing is inserted for all of them at once. Where
/// nothing stands right of the cursor, there is nothing to suggest.
pub proof fn lemma_files_for_the_left_part(
    ctx: CompletionContext,
    mode: SearchMode,
    answers: ShellAnswers,
    k: int,
) -> (i: int)
    requires
        looks_for_files(ctx, mode),
        has_no_wanted_match(answers.glob.expanded),
        answers.fallback_glob.expanded.matches@.len() <= 10_000,
        0 <= k < answers.fallback_glob.expanded.matches@.len(),
        is_wanted_name(
            answers.fallback_glob.expanded.matches@[k].quoted_rhs@,
            answers.fallback_glob.expanded.wants_hidden,
            true,
        ),
    ensures
        ctx.right@.len() == 0 ==> completion_of(ctx, CompType::FilenameExpansion, mode, answers)
            is None,
        ctx.right@.len() > 0 ==> (completion_of(ctx, CompType::FilenameExpansion, mode, answers)
            matches Some(b) && {
            &&& 0 <= i < b.unprocessed.len()
            &&& b.unprocessed[i].raw_text == answers.fallback_glob.expanded.matches@[k].unexpanded@
                + ctx.right@
            &&& b.unprocessed[i].full_path is None
            &&& b.unprocessed[i].flags.no_suffix_desired
            &&& b.unprocessed[i].flags.filename_completion_desired
            &&& b.unprocessed[i].flags.quote_type == answers.fallback_glob.quote_type
            &&& b.unprocessed[i].word_under_cursor == ctx.left@ + ctx.right@
            &&& b.auto_accept_if_solo
            &&& !b.insert_common_prefix
        }),
{
    lemma_files_are_not_skipped(ctx, mode);
    lemma_nothing_wanted_nothing_suggested(
        answers.glob.expanded,
        CompletionFlags::file_name(answers.glob.quote_type),
        ctx.word(),
    );
    let flags = CompletionFlags::file_name(answers.fallback_glob.quote_type);
    let i = lemma_every_wanted_file_is_suggested(
        answers.fallback_glob.expanded,
        flags,
        ctx.word(),
        true,
        k,
    );
    let j = lemma_only_wanted_files_are_suggested(
        answers.fallback_glob.expanded,
        flags,
        ctx.word(),
        true,
        i,
    );
    i
}

/// What is suggested for a word that a file matches are such files and nothing else, in
/// the quoting of the word.
pub proof fn lemma_only_files_are_offered(
    ctx: CompletionContext,
    mode: SearchMode,
    answers: ShellAnswers,
    b: BuilderView,
    i: int,
) -> (k: int)
    requires
        completion_of(ctx, CompType::FilenameExpansion, mode, answers) == Some(b),
        ctx.right@.len() == 0 || answers.fallback_glob.expanded.matches@.len() == 0,
        0 <= i < b.unprocessed.len(),
    ensures
        looks_for_files(ctx, mode),
        0 <= k < answers.glob.expanded.matches@.len(),
        is_wanted_name(
            answers.glob.expanded.matches@[k].quoted_rhs@,
            answers.glob.expanded.wants_hidden,
            true,
        ),
        is_suggestion_of_match(
            b.unprocessed[i],
            answers.glob.expanded.matches@[k],
            answers.glob.expanded,
            CompletionFlags::file_name(answers.glob.quote_type),
            ctx.left@ + ctx.right@,
        ),
{
    let r = crate::text::lemma_trim_cuts(ctx.left@ + ctx.right@);
    let flags = CompletionFlags::file_name(answers.glob.quote_type);
    if ctx.right@.len() > 0 {
        lemma_nothing_wanted_nothing_suggested(
            answers.fallback_glob.expanded,
            CompletionFlags::file_name(answers.fallback_glob.quote_type),
            ctx.word(),
        );
    }
    assert(b.unprocessed == pattern_suggestions(answers.glob.expanded, flags, ctx.word(), true));
    lemma_only_wanted_files_are_suggested(answers.glob.expanded, flags, ctx.word(), true, i)
}

/// Every path whose names match the segments of the word from the cursor on is suggested.
/// None of them is accepted or inserted without asking.
pub proof fn lemma_every_matching_path_is_offered(
    ctx: CompletionContext,
    mode: SearchMode,
    answers: ShellAnswers,
    prefix: Seq<Seq<char>>,
    patterns: Seq<Seq<char>>,
    chain: Seq<DirEntry>,
    scores: Seq<i64>,
) -> (i: int)
    requires
        looks_for_files(ctx, mode),
        is_cut_at_cursor(answers.dir.dequoted@, count_of(ctx.right@, '/'), prefix, patterns),
        leads_down(answers.dir.base, chain),
        each_matches(chain, patterns, scores, mode.cutoffs.medium),
        hits_below(answers.dir.base, patterns, mode.cutoffs.medium).len() <= usize::MAX,
    ensures
        completion_of(ctx, CompType::FuzzyFilenameExpansion, mode, answers) matches Some(b) && {
            &&& 0 <= i < b.unprocessed.len()
            &&& b.unprocessed[i].raw_text == found_text(
                answers.dir.dequoted@,
                prefix,
                names_of(chain),
            )
            &&& b.processed.len() == 0
            &&& b.comp_type is FuzzyFilenameExpansion
            &&& !b.auto_accept_if_solo
            &&& !b.insert_common_prefix
            &&& !b.nosort && b.common_prefix is None && !b.should_run_flycomp
        },
{
    lemma_files_are_not_skipped(ctx, mode);
    lemma_no_path_is_left_out(
        answers.dir.dequoted@,
        count_of(ctx.right@, '/'),
        prefix,
        patterns,
        answers.dir.base,
        CompletionFlags::file_name(answers.dir.quote_type),
        mode.cutoffs.medium,
        chain,
        scores,
    )
}

/// Where no path matches the whole word, those are suggested whose last name matches the
/// last segment of what stands left of the cursor, followed by what stands right of it.
pub proof fn lemma_paths_for_the_left_part(
    ctx: CompletionContext,
    mode: SearchMode,
    answers: ShellAnswers,
    prefix: Seq<Seq<char>>,
    patterns: Seq<Seq<char>>,
    chain: Seq<DirEntry>,
    scores: Seq<i64>,
) -> (i: int)
    requires
        looks_for_files(ctx, mode),
        ctx.right@.len() > 0,
        fuzzy_suggestions(
            answers.dir.dequoted@,
            count_of(ctx.right@, '/'),
            answers.dir.base,
            CompletionFlags::file_name(answers.dir.quote_type),
            mode.cutoffs.medium,
        ).len() == 0,
        is_cut_at_cursor(answers.fallback_dir.dequoted@, 0, prefix, patterns),
        leads_down(answers.fallback_dir.base, chain),
        each_matches(chain, patterns, scores, mode.cutoffs.medium),
        hits_below(answers.fallback_dir.base, patterns, mode.cutoffs.medium).len() <= usize::MAX,
    ensures
        completion_of(ctx, CompType::FuzzyFilenameExpansion, mode, answers) matches Some(b) && {
            &&& 0 <= i < b.unprocessed.len()
            &&& b.unprocessed[i].raw_text == found_text(
                answers.fallback_dir.dequoted@,
                prefix,
                names_of(chain),
            ) + ctx.right@
            &&& b.unprocessed[i].full_path is None
            &&& b.unprocessed[i].flags.no_suffix_desired
            &&& !b.auto_accept_if_solo
            &&& !b.insert_common_prefix
        },
{
    lemma_files_are_not_skipped(ctx, mode);
    lemma_no_path_is_left_out(
        answers.fallback_dir.dequoted@,
        0,
        prefix,
        patterns,
        answers.fallback_dir.base,
        CompletionFlags::file_name(answers.fallback_dir.quote_type),
        mode.cutoffs.medium,
        chain,
        scores,
    )
}

/// What is found is `list`, as it is usually shown; nothing where the list is empty.
pub open spec fn finds(
    found: Option<BuilderView>,
    comp_type: CompType,
    list: BuilderView,
) -> bool {
    if list.processed.len() == 0 && list.unprocessed.len() == 0 {
        found is None
    } else {
        found matches Some(b) && {
            &&& b.processed == list.processed
            &&& b.unprocessed == list.unprocessed
            &&& b.comp_type == comp_type
            &&& is_as_usual(b)
        }
    }
}

/// A first word is completed from what the user has typed of it; a host and a user behind
/// their marks are completed from the word under the cursor. Where nothing is to be
/// completed, nothing is found.
pub proof fn lemma_what_the_word_is_completed_from(
    ctx: CompletionContext,
    mode: SearchMode,
    answers: ShellAnswers,
)
    ensures
        ({
            let word = ctx.left@ + ctx.right@;
            &&& finds(
                completion_of(ctx, CompType::FirstWord, mode, answers),
                CompType::FirstWord,
                first_word_suggestions(
                    word,
                    word,
                    answers.words@,
                    answers.glob.expanded,
                    answers.glob.quote_type,
                ),
            )
            &&& finds(
                completion_of(ctx, CompType::FuzzyFirstWord, mode, answers),
                CompType::FuzzyFirstWord,
                fuzzy_first_word_suggestions(
                    word,
                    answers.words@,
                    answers.dir.dequoted@,
                    answers.dir.quote_type,
                    answers.dir.base,
                    mode.cutoffs,
                ),
            )
            &&& finds(
                completion_of(ctx, CompType::HostnameExpansion, mode, answers),
                CompType::HostnameExpansion,
                BuilderView::of_processed(host_suggestions(word, views(answers.hosts@))),
            )
            &&& finds(
                completion_of(ctx, CompType::TildeExpansion, mode, answers),
                CompType::TildeExpansion,
                BuilderView::of_processed(tilde_suggestions(word, answers.users@)),
            )
            &&& completion_of(ctx, CompType::NoCompletion, mode, answers) is None
        }),
{
}

/// Every variable that the shell names is suggested, in its order and without change. A
/// space follows it, unless it stands inside quotes.
pub proof fn lemma_every_variable_is_suggested(
    ctx: CompletionContext,
    mode: SearchMode,
    answers: ShellAnswers,
)
    ensures
        answers.vars@.len() == 0 ==> completion_of(ctx, CompType::EnvVariable, mode, answers)
            is None,
        answers.vars@.len() > 0 ==> (completion_of(ctx, CompType::EnvVariable, mode, answers)
            matches Some(b) && {
            &&& b.unprocessed.len() == 0
            &&& b.processed.len() == answers.vars@.len()
            &&& forall|i: int|
                0 <= i < answers.vars@.len() ==> (#[trigger] b.processed[i]).s
                    == answers.vars@[i]@ && b.processed[i].prefix.len() == 0
                    && b.processed[i].suffix == (if ctx.is_inside_quotes {
                    Seq::empty()
                } else {
                    seq![' ']
                })
            &&& is_as_usual(b)
        }),
{
    reveal_strlit("");
    reveal_strlit(" ");
    assert(""@ =~= Seq::empty());
    assert(" "@ =~= seq![' ']);
    if let Some(b) = completion_of(ctx, CompType::EnvVariable, mode, answers) {
        assert forall|i: int| 0 <= i < answers.vars@.len() implies (#[trigger] b.processed[i]).s
            == answers.vars@[i]@ && b.processed[i].prefix.len() == 0 && b.processed[i].suffix == (
        if ctx.is_inside_quotes {
            Seq::empty()
        } else {
            seq![' ']
        }) by {
            assert(views(answers.vars@)[i] == answers.vars@[i]@);
        }
    }
}

/// The mark of a quoting: a double or a single quote; without one there is no mark.
pub open spec fn is_mark(mark: Seq<char>, quote_type: Option<QuoteType>) -> bool {
    match quote_type {
        Some(QuoteType::DoubleQuote) => mark == seq!['"'],
        Some(QuoteType::SingleQuote) => mark == seq!['\''],
        _ => mark.len() == 0,
    }
}

/// The matches of a pattern that are inserted together stand one behind the other, with a
/// space between them: each is put into its own quotes, and the last is followed by what
/// follows it by itself.
pub proof fn lemma_matches_are_inserted_together(
    first: ProcessedView,
    rest: Seq<ProcessedView>,
    quote_type: Option<QuoteType>,
    mark: Seq<char>,
)
    requires
        rest.len() > 0,
        is_mark(mark, quote_type),
    ensures
        glob_text(seq![first] + rest, quote_type) == mark + first.prefix + first.s + mark + seq![' ']
            + glob_text(rest, quote_type),
        glob_text(seq![first], quote_type) == mark + first.prefix + first.s + first.suffix,
{
    reveal_strlit("\"");
    reveal_strlit("'");
    reveal_strlit("");
    reveal_strlit(" ");
    assert("\""@ =~= seq!['"']);
    assert("'"@ =~= seq!['\'']);
    assert(""@ =~= Seq::empty());
    assert(" "@ =~= seq![' ']);
    assert(quote_mark(quote_type) =~= mark);
    let all = seq![first] + rest;
    let words = Seq::new(
        all.len(),
        |i: int| glob_word(all[i], i == all.len() - 1, quote_type),
    );
    let others = Seq::new(
        rest.len(),
        |i: int| glob_word(rest[i], i == rest.len() - 1, quote_type),
    );
    let one = seq![mark + first.prefix + first.s + mark];
    assert forall|i: int| 0 <= i < words.len() implies words[i] == (one + others)[i] by {
        if i > 0 {
            assert(all[i] == rest[i - 1]);
        }
    }
    assert(words =~= one + others);
    crate::text::lemma_join_of_both(one, others, seq![' ']);
    let single = seq![first];
    let alone = Seq::new(
        single.len(),
        |i: int| glob_word(single[i], i == single.len() - 1, quote_type),
    );
    assert(alone[0] == mark + first.prefix + first.s + first.suffix);
}

/// The matches of a pattern are shown one by one where they were not asked for, and where
/// there is only one. Those that were asked for are inserted as one text, to which nothing
/// is added. Where there is none, nothing is found.
pub proof fn lemma_matches_of_a_pattern(
    ctx: CompletionContext,
    mode: SearchMode,
    answers: ShellAnswers,
    list: Seq<ProcessedView>,
)
    requires
        list == final_forms(
            pattern_suggestions(
                answers.glob.expanded,
                CompletionFlags::file_name(answers.glob.quote_type),
                ctx.left@ + ctx.right@,
                true,
            ),
            processed_views(answers.glob_processed@),
        ),
    ensures
        ({
            let found = completion_of(ctx, CompType::GlobExpansion, mode, answers);
            if list.len() == 0 {
                found is None
            } else {
                found matches Some(b) && {
                    &&& b.unprocessed.len() == 0
                    &&& b.comp_type is GlobExpansion
                    &&& is_as_usual(b)
                    &&& if mode.auto_started || list.len() == 1 {
                        b.processed == list
                    } else {
                        &&& b.processed.len() == 1
                        &&& b.processed[0].s == glob_text(list, answers.glob.quote_type)
                        &&& b.processed[0].prefix.len() == 0
                        &&& b.processed[0].suffix.len() == 0
                    }
                }
            }
        }),
{
    reveal_strlit("");
}

/// What the command's own completion found is taken over as it is. Where it had nothing
/// useful to say, a completion is to be made for the command, if the user wants that, and
/// the search ends there; else a completion that found nothing is passed over.
pub proof fn lemma_command_completes_itself(
    ctx: CompletionContext,
    command_word: String,
    mode: SearchMode,
    answers: ShellAnswers,
)
    ensures
        ({
            let comp_type = CompType::CommandComp { command_word };
            let result = completion_of(ctx, comp_type, mode, answers);
            match comp_spec_suggestions(
                ctx.left@ + ctx.right@,
                command_word@,
                text_view(answers.alias),
                answers.comp_spec,
            ) {
                None => result is None,
                Some(found) => {
                    let makes_one = found.compspec_was_useful == Some(false)
                        && mode.will_run_flycomp;
                    if found.processed.len() + found.unprocessed.len() == 0 && !makes_one {
                        result is None
                    } else {
                        result matches Some(b) && {
                            &&& b.processed == found.processed
                            &&& b.unprocessed == found.unprocessed
                            &&& b.comp_type == comp_type
                            &&& b.should_run_flycomp == makes_one
                            &&& b.nosort == found.nosort
                            &&& b.auto_accept_if_solo
                            &&& b.insert_common_prefix
                            &&& b.common_prefix is None
                        }
                    }
                },
            }
        }),
{
}

/// `s` is what is left of a word that is matched loosely: two dashes, or the first
/// character of a word of more than one byte that does not start with them.
pub open spec fn is_stem(s: Seq<char>, word: Seq<char>) -> bool {
    let is_flag = word.len() >= 2 && word[0] == '-' && word[1] == '-';
    if is_flag {
        s == seq!['-', '-']
    } else {
        byte_len(word) > 1 && word.len() > 0 && s == seq![word[0]]
    }
}

/// A word is matched loosely behind its stem; one without a stem is not.
pub proof fn lemma_stem_of_a_word(word: Seq<char>, s: Seq<char>)
    ensures
        stem(word) == Some(s) <==> is_stem(s, word),
{
    reveal_strlit("--");
    assert("--"@ =~= seq!['-', '-']);
    lemma_byte_len_bounds(word);
    if word.len() >= 2 && word[0] == '-' && word[1] == '-' {
        assert("--"@ =~= word.take(2));
    } else if "--"@.is_prefix_of(word) {
        assert("--"@[0] == word[0] && "--"@[1] == word[1]);
    }
    if word.len() > 0 {
        assert(word.take(1) =~= seq![word[0]]);
    }
}

/// Behind the stem, `text` matches what was typed well enough.
pub open spec fn matches_behind_stem(
    text: Seq<char>,
    s: Seq<char>,
    word: Seq<char>,
    cutoff: i64,
) -> bool {
    arinae_score(
        if s.is_prefix_of(text) {
            text.skip(s.len() as int)
        } else {
            text
        },
        word.skip(s.len() as int),
    ) matches Some(score) && score >= cutoff
}

/// Of what the command's own completion finds for the stem of a word, exactly that is
/// suggested which matches the word behind the stem, in its order. None of it is accepted
/// or inserted without asking. A word without a stem is not matched.
pub proof fn lemma_command_is_matched_loosely(
    ctx: CompletionContext,
    command_word: String,
    mode: SearchMode,
    answers: ShellAnswers,
    s: Seq<char>,
    u: UnprocessedView,
    p: ProcessedView,
)
    requires
        is_stem(s, ctx.left@ + ctx.right@),
    ensures
        ({
            let word = ctx.left@ + ctx.right@;
            let comp_type = CompType::FuzzyCommandComp { command_word };
            match (
                completion_of(ctx, comp_type, mode, answers),
                comp_spec_suggestions(
                    s,
                    command_word@,
                    text_view(answers.alias),
                    answers.comp_spec,
                ),
            ) {
                (Some(b), Some(found)) => {
                    &&& b.unprocessed.contains(u) <==> found.unprocessed.contains(u)
                        && matches_behind_stem(u.raw_text, s, word, mode.cutoffs.high)
                    &&& b.processed.contains(p) <==> found.processed.contains(p)
                        && matches_behind_stem(p.s, s, word, mode.cutoffs.high)
                    &&& b.comp_type == comp_type
                    &&& !b.auto_accept_if_solo
                    &&& !b.insert_common_prefix
                    &&& b.common_prefix is None
                    &&& !b.should_run_flycomp
                    &&& b.nosort == found.nosort
                },
                (None, Some(found)) => {
                    &&& !(found.unprocessed.contains(u) && matches_behind_stem(
                        u.raw_text,
                        s,
                        word,
                        mode.cutoffs.high,
                    ))
                    &&& !(found.processed.contains(p) && matches_behind_stem(
                        p.s,
                        s,
                        word,
                        mode.cutoffs.high,
                    ))
                },
                (found, None) => found is None,
            }
        }),
{
    let word = ctx.left@ + ctx.right@;
    lemma_stem_of_a_word(word, s);
    assert(s.is_prefix_of(word)) by {
        if s.len() == 2 {
            assert(s =~= word.take(2));
        } else {
            assert(s =~= word.take(1));
        }
    }
    if let Some(found) = comp_spec_suggestions(
        s,
        command_word@,
        text_view(answers.alias),
        answers.comp_spec,
    ) {
        let cutoff = mode.cutoffs.high;
        let x = found.processed.map_values(|p: ProcessedView| word_score(p.s, s, word, cutoff));
        let y = found.unprocessed.map_values(
            |u: UnprocessedView| word_score(u.raw_text, s, word, cutoff),
        );
        lemma_picked_are_scored(found.processed, x, p);
        lemma_picked_are_scored(found.unprocessed, y, u);
        if found.processed.contains(p) {
            let k = choose|k: int| 0 <= k < found.processed.len() && found.processed[k] == p;
            assert(x[k] == word_score(p.s, s, word, cutoff));
        }
        if found.unprocessed.contains(u) {
            let k = choose|k: int| 0 <= k < found.unprocessed.len() && found.unprocessed[k] == u;
            assert(y[k] == word_score(u.raw_text, s, word, cutoff));
        }
        assert forall|k: int| 0 <= k < x.len() implies #[trigger] x[k] == word_score(
            found.processed[k].s,
            s,
            word,
            cutoff,
        ) by {}
        assert forall|k: int| 0 <= k < y.len() implies #[trigger] y[k] == word_score(
            found.unprocessed[k].raw_text,
            s,
            word,
            cutoff,
        ) by {}
    }
}

proof fn lemma_picked_are_scored<A>(items: Seq<A>, scores: Seq<Option<i64>>, a: A)
    requires
        items.len() == scores.len(),
    ensures
        pick(items, |i: int| scores[i] is Some).contains(a) <==> exists|k: int|
            0 <= k < items.len() && items[k] == a && #[trigger] scores[k] is Some,
{
    let keep = |i: int| scores[i] is Some;
    let picked = pick(items, keep);
    if picked.contains(a) {
        let i = choose|i: int| 0 <= i < picked.len() && picked[i] == a;
        let k = lemma_pick_member(items, keep, i);
        assert(scores[k] is Some);
    }
    if exists|k: int| 0 <= k < items.len() && items[k] == a && #[trigger] scores[k] is Some {
        let k = choose|k: int|
            0 <= k < items.len() && items[k] == a && #[trigger] scores[k] is Some;
        let i = lemma_pick_contains(items, keep, k);
        assert(picked[i] == a);
    }
}

/// What is kept because it matches stays in its order.
pub proof fn lemma_what_is_kept_stays_in_order(
    b: BuilderView,
    processed_scores: Seq<Option<i64>>,
    unprocessed_scores: Seq<Option<i64>>,
    i: int,
    j: int,
) -> (r: (int, int))
    requires
        0 <= i < j < with_scores(b, processed_scores, unprocessed_scores).unprocessed.len(),
    ensures
        0 <= r.0 < r.1 < b.unprocessed.len(),
        unprocessed_scores[r.0] is Some,
        unprocessed_scores[r.1] is Some,
        with_scores(b, processed_scores, unprocessed_scores).unprocessed[i] == b.unprocessed[r.0],
        with_scores(b, processed_scores, unprocessed_scores).unprocessed[j] == b.unprocessed[r.1],
{
    lemma_pick_order(b.unprocessed, |i: int| unprocessed_scores[i] is Some, i, j)
}

/// Taking in suggestions that have become final loses none: each takes the place of one
/// that was not, in their order, and all others stay as they are.
pub proof fn lemma_no_suggestion_is_lost(found: BuilderView, done: Seq<ProcessedView>, i: int)
    requires
        done.len() <= found.unprocessed.len(),
    ensures
        ({
            let r = finished_search(found, done);
            &&& r.processed.len() == found.processed.len() + done.len()
            &&& r.unprocessed.len() == found.unprocessed.len() - done.len()
            &&& 0 <= i < found.processed.len() ==> r.processed[i] == found.processed[i]
            &&& 0 <= i < done.len() ==> r.processed[found.processed.len() + i] == done[i]
            &&& 0 <= i < r.unprocessed.len() ==> r.unprocessed[i] == found.unprocessed[done.len()
                + i]
            &&& r.comp_type == found.comp_type
            &&& r.nosort == found.nosort
            &&& r.auto_accept_if_solo == found.auto_accept_if_solo
            &&& r.insert_common_prefix == found.insert_common_prefix
            &&& r.compspec_was_useful == found.compspec_was_useful
            &&& r.should_run_flycomp == found.should_run_flycomp
        }),
{
}

/// What all suggestions start with is worked out once all of them are final, and where it
/// is wanted: it is then a start of each, the longest, and there is none only where they
/// have none in common. Else nothing is worked out.
pub proof fn lemma_common_start_is_worked_out(
    found: BuilderView,
    done: Seq<ProcessedView>,
    p: Seq<char>,
    i: int,
)
    ensures
        ({
            let r = finished_search(found, done);
            if !found.insert_common_prefix || r.unprocessed.len() > 0 {
                r.common_prefix == found.common_prefix
            } else {
                &&& r.common_prefix matches Some(common) ==> common.len() > 0 && (0 <= i
                    < r.processed.len() ==> common.is_prefix_of(
                    r.processed[i].prefix + r.processed[i].s,
                ))
                &&& p.len() > 0 && r.processed.len() > 0 && (forall|k: int|
                    0 <= k < r.processed.len() ==> p.is_prefix_of(
                        (#[trigger] r.processed[k]).prefix + r.processed[k].s,
                    )) ==> (r.common_prefix matches Some(common) && p.is_prefix_of(common))
            }
        }),
{
    let r = finished_search(found, done);
    if r.processed.len() > 0 {
        lemma_common_prefix_is_common(r.processed);
        if forall|k: int|
            0 <= k < r.processed.len() ==> p.is_prefix_of(
                (#[trigger] r.processed[k]).prefix + r.processed[k].s,
            ) {
            assert(all_start_with(r.processed, p));
        }
    }
}

/// Where the whole word leads to files, nothing but those is suggested: what stands left
/// of the cursor alone is not looked at.
pub proof fn lemma_whole_word_comes_first(
    ctx: CompletionContext,
    mode: SearchMode,
    answers: ShellAnswers,
)
    requires
        looks_for_files(ctx, mode),
    ensures
        ({
            let list = pattern_suggestions(
                answers.glob.expanded,
                CompletionFlags::file_name(answers.glob.quote_type),
                ctx.left@ + ctx.right@,
                true,
            );
            list.len() > 0 ==> (completion_of(ctx, CompType::FilenameExpansion, mode, answers)
                matches Some(b) && b.unprocessed == list && b.processed.len() == 0)
        }),
        ({
            let list = fuzzy_suggestions(
                answers.dir.dequoted@,
                count_of(ctx.right@, '/'),
                answers.dir.base,
                CompletionFlags::file_name(answers.dir.quote_type),
                mode.cutoffs.medium,
            );
            &&& list.len() > 0 ==> (completion_of(
                ctx,
                CompType::FuzzyFilenameExpansion,
                mode,
                answers,
            ) matches Some(b) && b.unprocessed == list && b.processed.len() == 0)
            &&& list.len() == 0 && ctx.right@.len() == 0 ==> completion_of(
                ctx,
                CompType::FuzzyFilenameExpansion,
                mode,
                answers,
            ) is None
        }),
{
    lemma_files_are_not_skipped(ctx, mode);
}

} // verus!
