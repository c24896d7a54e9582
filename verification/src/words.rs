//! Completion of the first word of a command, of user names after a tilde and of
//! host names after an at sign.

use vstd::prelude::*;

verus! {

use crate::files::{
    filter_out_non_executables,
    pattern_suggestions,
    runnable_only,
    tab_complete_glob_expansion,
    PathPatternExpansion,
};
use crate::fuzzy::{
    arinae_score,
    fuzzy_match_with_threshold,
    match_score,
    FuzzyCutoffs,
    FuzzyMatchThreshold,
};
use crate::lists::{
    lemma_pick_contains,
    lemma_pick_len,
    lemma_pick_member,
    lemma_pick_order,
    pick,
};
use crate::order::{
    first_occurrences,
    is_first_of_key,
    key_views,
    order_by_key,
    push_text_key,
    text_key,
};
use crate::paths::{fuzzy_suggestions, tab_complete_fuzzy_filename_from_word, DirEntry};
use crate::suggestion::{
    is_as_usual,
    processed_keys,
    processed_views,
    sort_processed,
    ActiveSuggestionsBuilder,
    BuilderView,
    CompletionFlags,
    DescriptionView,
    ProcessedSuggestion,
    ProcessedView,
    QuoteType,
    SuggestionDescription,
    UnprocessedView,
};
use crate::text::{
    byte_len,
    byte_length,
    char_count,
    chars_of,
    concat,
    has_char,
    has_prefix,
    has_suffix,
    last_at,
    last_position,
    lemma_byte_len_bounds,
    substring,
    views,
};

/// What kind of thing a command word names.
#[derive(Clone, Copy, Debug, PartialEq, Eq, Structural)]
pub enum CommandKind {
    EnvVar,
    Unknown,
    Other,
}

/// A word that a command can start with.
#[derive(Debug, PartialEq, Eq)]
pub struct CommandWordInfo {
    pub kind: CommandKind,
    pub command: String,
    pub description: String,
}

impl CommandWordInfo {
    pub fn copied(&self) -> (r: CommandWordInfo)
        ensures
            r == *self,
    {
        CommandWordInfo {
            kind: self.kind,
            command: self.command.clone(),
            description: self.description.clone(),
        }
    }
}

/// What tells two words apart: the name, and whether it is a variable's.
pub open spec fn word_key(word: CommandWordInfo) -> Seq<i128> {
    seq![if word.kind is EnvVar {
        1i128
    } else {
        0i128
    }] + text_key(word.command@)
}

pub open spec fn word_keys(words: Seq<CommandWordInfo>) -> Seq<Seq<i128>> {
    words.map_values(|w: CommandWordInfo| word_key(w))
}

/// Words with one key have one name, and both or neither are variables.
pub proof fn lemma_word_key_injective(a: CommandWordInfo, b: CommandWordInfo)
    ensures
        word_key(a) == word_key(b) <==> a.command@ == b.command@ && (a.kind is EnvVar
            <==> b.kind is EnvVar),
{
    crate::order::lemma_text_key_injective(a.command@, b.command@);
    if word_key(a) == word_key(b) {
        assert(word_key(a)[0] == word_key(b)[0]);
        assert(text_key(a.command@) =~= word_key(a).skip(1));
        assert(text_key(b.command@) =~= word_key(b).skip(1));
    }
}

/// The suggestion for a command word. A variable is followed by an equals sign, a
/// word by a space unless it ends in one.
pub open spec fn word_suggestion(word: CommandWordInfo) -> ProcessedView {
    ProcessedView {
        s: word.command@,
        prefix: ""@,
        suffix: if word.kind is EnvVar {
            "="@
        } else if " "@.is_suffix_of(word.command@) {
            ""@
        } else {
            " "@
        },
        description: DescriptionView::Static(
            if word.kind is Unknown {
                Seq::empty()
            } else {
                seq![word.description@]
            },
        ),
    }
}

fn suggest_word(word: &CommandWordInfo) -> (r: ProcessedSuggestion)
    ensures
        r@ == word_suggestion(*word),
{
    let suffix: &str = match word.kind {
        CommandKind::EnvVar => "=",
        _ => if has_suffix(word.command.as_str(), " ") {
            ""
        } else {
            " "
        },
    };
    let mut parts: Vec<String> = Vec::new();
    match word.kind {
        CommandKind::Unknown => {},
        _ => {
            parts.push(word.description.clone());
        },
    }
    assert(views(parts@) =~= (if word.kind is Unknown {
        Seq::empty()
    } else {
        seq![word.description@]
    }));
    ProcessedSuggestion::new(
        word.command.clone(),
        "".to_owned(),
        suffix.to_owned(),
    ).with_description(SuggestionDescription::Static(parts))
}

/// Makes a suggestion of each command word.
pub fn processed_suggestions_from_command_info(command_infos: &Vec<CommandWordInfo>) -> (r: Vec<
    ProcessedSuggestion,
>)
    ensures
        processed_views(r@) == command_infos@.map_values(|w: CommandWordInfo| word_suggestion(w)),
{
    let mut out: Vec<ProcessedSuggestion> = Vec::new();
    let mut i: usize = 0;
    while i < command_infos.len()
        invariant
            i <= command_infos@.len(),
            out@.len() == i,
            forall|k: int|
                0 <= k < i ==> (#[trigger] out@[k])@ == word_suggestion(command_infos@[k]),
        decreases command_infos@.len() - i,
    {
        out.push(suggest_word(&command_infos[i]));
        i = i + 1;
    }
    assert(processed_views(out@) =~= command_infos@.map_values(
        |w: CommandWordInfo| word_suggestion(w),
    ));
    out
}

/// Which words are the first of their key.
fn first_words(words: &Vec<CommandWordInfo>) -> (r: Vec<bool>)
    ensures
        r@.len() == words@.len(),
        forall|i: int|
            0 <= i < words@.len() ==> #[trigger] r@[i] == is_first_of_key(word_keys(words@), i),
{
    let mut keys: Vec<Vec<i128>> = Vec::new();
    let mut i: usize = 0;
    while i < words.len()
        invariant
            i <= words@.len(),
            keys@.len() == i,
            forall|k: int| 0 <= k < i ==> (#[trigger] keys@[k])@ == word_key(words@[k]),
        decreases words@.len() - i,
    {
        let mut key: Vec<i128> = Vec::new();
        match words[i].kind {
            CommandKind::EnvVar => {
                key.push(1);
            },
            _ => {
                key.push(0);
            },
        }
        push_text_key(&mut key, words[i].command.as_str());
        assert(key@ =~= word_key(words@[i as int]));
        keys.push(key);
        i = i + 1;
    }
    assert(key_views(keys@) =~= word_keys(words@));
    first_occurrences(&keys)
}

fn words_in_order(words: &Vec<CommandWordInfo>, keys: &Vec<Vec<i128>>) -> (r: Vec<CommandWordInfo>)
    requires
        words@.len() == keys@.len(),
    ensures
        r@ == crate::order::sorted(words@, key_views(keys@)),
{
    let order = order_by_key(keys);
    let mut out: Vec<CommandWordInfo> = Vec::new();
    let mut i: usize = 0;
    while i < order.len()
        invariant
            i <= order@.len(),
            out@.len() == i,
            forall|k: int| 0 <= k < order@.len() ==> #[trigger] order@[k] < words@.len(),
            forall|k: int| 0 <= k < i ==> #[trigger] out@[k] == words@[order@[k] as int],
        decreases order@.len() - i,
    {
        out.push(words[order[i]].copied());
        i = i + 1;
    }
    assert(out@ =~= crate::order::select(words@, order@));
    out
}

/// Whether a first word is a path rather than a name.
pub open spec fn is_path_like(command: Seq<char>) -> bool {
    "."@.is_prefix_of(command) || command.contains('/') || "~"@.is_prefix_of(command)
}

/// Whether a first word is a path rather than a name.
pub fn path_like(command: &str) -> (r: bool)
    ensures
        r == is_path_like(command@),
{
    has_prefix(command, ".") || has_char(command, '/') || has_prefix(command, "~")
}

/// The key by which names are sorted: the shorter first, then by text.
pub open spec fn length_key(s: Seq<char>) -> Seq<i128> {
    seq![byte_len(s) as i128] + text_key(s)
}

/// The words that start with `command`, each once.
pub open spec fn words_with_prefix(
    words: Seq<CommandWordInfo>,
    command: Seq<char>,
) -> Seq<CommandWordInfo> {
    pick(
        words,
        |i: int| command.is_prefix_of(words[i].command@) && is_first_of_key(word_keys(words), i),
    )
}

/// The words that start with `command`, the shortest first.
pub open spec fn sorted_words_with_prefix(
    words: Seq<CommandWordInfo>,
    command: Seq<char>,
) -> Seq<CommandWordInfo> {
    let found = words_with_prefix(words, command);
    crate::order::sorted(found, found.map_values(|w: CommandWordInfo| length_key(w.command@)))
}

/// The suggestions for a first word that starts with `command`: runnable files for
/// a path, command words for a name, nothing for nothing.
pub open spec fn first_word_suggestions(
    command: Seq<char>,
    word: Seq<char>,
    words: Seq<CommandWordInfo>,
    expanded: PathPatternExpansion,
    quote_type: Option<QuoteType>,
) -> BuilderView {
    if command.len() == 0 {
        BuilderView::empty()
    } else if is_path_like(command) {
        BuilderView::of_unprocessed(
            runnable_only(
                pattern_suggestions(expanded, CompletionFlags::file_name(quote_type), word, true),
            ),
        )
    } else {
        BuilderView::of_processed(
            sorted_words_with_prefix(words, command).map_values(
                |w: CommandWordInfo| word_suggestion(w),
            ),
        )
    }
}

/// Makes suggestions for a first word that starts with `command`. For a path,
/// `expanded` is the pattern `command` followed by a star, and `quote_type` its
/// quoting.
pub fn tab_complete_first_word(
    command: &str,
    word_under_cursor: &str,
    words: &Vec<CommandWordInfo>,
    expanded: &PathPatternExpansion,
    quote_type: Option<QuoteType>,
) -> (r: ActiveSuggestionsBuilder)
    ensures
        r@ == first_word_suggestions(
            command@,
            word_under_cursor@,
            words@,
            *expanded,
            quote_type,
        ),
{
    if command.is_empty() {
        return ActiveSuggestionsBuilder::new();
    }
    if path_like(command) {
        let (files, _flags) = tab_complete_glob_expansion(expanded, quote_type, word_under_cursor);
        return ActiveSuggestionsBuilder::from_unprocessed(filter_out_non_executables(&files));
    }
    let first = first_words(words);
    let ghost keep = |i: int|
        command@.is_prefix_of(words@[i].command@) && is_first_of_key(word_keys(words@), i);
    let mut found: Vec<CommandWordInfo> = Vec::new();
    let mut keys: Vec<Vec<i128>> = Vec::new();
    let mut i: usize = 0;
    while i < words.len()
        invariant
            i <= words@.len(),
            first@.len() == words@.len(),
            forall|k: int|
                0 <= k < words@.len() ==> #[trigger] first@[k] == is_first_of_key(
                    word_keys(words@),
                    k,
                ),
            keep == (|i: int|
                command@.is_prefix_of(words@[i].command@) && is_first_of_key(
                    word_keys(words@),
                    i,
                )),
            found@ == pick(words@.take(i as int), keep),
            keys@.len() == found@.len(),
            forall|k: int|
                0 <= k < keys@.len() ==> (#[trigger] keys@[k])@ == length_key(found@[k].command@),
        decreases words@.len() - i,
    {
        assert(words@.take(i + 1).drop_last() =~= words@.take(i as int));
        let name = words[i].command.as_str();
        if has_prefix(name, command) && first[i] {
            let mut key: Vec<i128> = Vec::new();
            let n: u128 = byte_length(name);
            let count: usize = char_count(name);
            proof {
                lemma_byte_len_bounds(name@);
            }
            key.push(n as i128);
            push_text_key(&mut key, name);
            assert(key@ =~= length_key(name@));
            keys.push(key);
            found.push(words[i].copied());
        }
        i = i + 1;
    }
    assert(words@.take(words@.len() as int) =~= words@);
    assert(key_views(keys@) =~= found@.map_values(|w: CommandWordInfo| length_key(w.command@)));
    let ordered = words_in_order(&found, &keys);
    ActiveSuggestionsBuilder::from_processed(processed_suggestions_from_command_info(&ordered))
}

/// The key by which matches are sorted: the best score first.
pub open spec fn score_key(score: i64) -> Seq<i128> {
    seq![(-score) as i128]
}

/// The words that have a score, each once, with their scores.
pub open spec fn scored_words(
    words: Seq<CommandWordInfo>,
    scores: Seq<Option<i64>>,
) -> Seq<(i64, CommandWordInfo)> {
    pick(
        Seq::new(words.len(), |i: int| (scores[i]->0, words[i])),
        |i: int| scores[i] is Some && is_first_of_key(word_keys(words), i),
    )
}

/// The words that have a score, the best first.
pub open spec fn ranked_words(
    words: Seq<CommandWordInfo>,
    scores: Seq<Option<i64>>,
) -> Seq<(i64, CommandWordInfo)> {
    let found = scored_words(words, scores);
    crate::order::sorted(found, found.map_values(|p: (i64, CommandWordInfo)| score_key(p.0)))
}

/// The scores of the words for `command`.
pub open spec fn word_scores(
    words: Seq<CommandWordInfo>,
    command: Seq<char>,
    cutoff: i64,
) -> Seq<Option<i64>> {
    Seq::new(words.len(), |i: int| match_score(words[i].command@, command, cutoff))
}

/// Makes suggestions of the words that have a score, the best first; words with one
/// score stay in order.
pub fn rank_words(words: &Vec<CommandWordInfo>, scores: &Vec<Option<i64>>) -> (r: Vec<
    ProcessedSuggestion,
>)
    requires
        words@.len() == scores@.len(),
    ensures
        processed_views(r@) == ranked_words(words@, scores@).map_values(
            |p: (i64, CommandWordInfo)| word_suggestion(p.1),
        ),
{
    let first = first_words(words);
    let ghost all = Seq::new(words@.len(), |i: int| (scores@[i]->0, words@[i]));
    let ghost keep = |i: int| scores@[i] is Some && is_first_of_key(word_keys(words@), i);
    let ghost mut picked: Seq<(i64, CommandWordInfo)> = Seq::empty();
    let mut found: Vec<CommandWordInfo> = Vec::new();
    let mut keys: Vec<Vec<i128>> = Vec::new();
    let mut i: usize = 0;
    while i < words.len()
        invariant
            i <= words@.len(),
            words@.len() == scores@.len(),
            first@.len() == words@.len(),
            forall|k: int|
                0 <= k < words@.len() ==> #[trigger] first@[k] == is_first_of_key(
                    word_keys(words@),
                    k,
                ),
            all == Seq::new(words@.len(), |i: int| (scores@[i]->0, words@[i])),
            keep == (|i: int| scores@[i] is Some && is_first_of_key(word_keys(words@), i)),
            picked == pick(all.take(i as int), keep),
            found@.len() == picked.len(),
            keys@.len() == picked.len(),
            forall|k: int| 0 <= k < picked.len() ==> #[trigger] found@[k] == picked[k].1,
            forall|k: int|
                0 <= k < picked.len() ==> (#[trigger] keys@[k])@ == score_key(picked[k].0),
        decreases words@.len() - i,
    {
        assert(all.take(i + 1).drop_last() =~= all.take(i as int));
        assert(all.take(i + 1).last() == all[i as int]);
        if first[i] {
            if let Some(score) = scores[i] {
                let mut key: Vec<i128> = Vec::new();
                key.push(-(score as i128));
                assert(key@ =~= score_key(score));
                keys.push(key);
                found.push(words[i].copied());
                proof {
                    picked = picked.push((score, words@[i as int]));
                }
            }
        }
        i = i + 1;
    }
    assert(all.take(all.len() as int) =~= all);
    let ghost picked_keys = picked.map_values(|p: (i64, CommandWordInfo)| score_key(p.0));
    assert(key_views(keys@) =~= picked_keys);
    let ordered = words_in_order(&found, &keys);
    proof {
        lemma_pick_len(all, keep);
        crate::order::lemma_sorted_items(found@, picked_keys);
        crate::order::lemma_sorted_items(picked, picked_keys);
        assert(ordered@.map_values(|w: CommandWordInfo| word_suggestion(w)) =~= ranked_words(
            words@,
            scores@,
        ).map_values(|p: (i64, CommandWordInfo)| word_suggestion(p.1)));
    }
    processed_suggestions_from_command_info(&ordered)
}

/// The suggestions for a first word that matches `command`.
pub open spec fn fuzzy_first_word_suggestions(
    command: Seq<char>,
    words: Seq<CommandWordInfo>,
    dequoted: Seq<char>,
    quote_type: Option<QuoteType>,
    base: DirEntry,
    cutoffs: FuzzyCutoffs,
) -> BuilderView {
    if command.len() == 0 {
        BuilderView::empty()
    } else if is_path_like(command) {
        BuilderView::of_unprocessed(
            runnable_only(
                fuzzy_suggestions(
                    dequoted,
                    0,
                    base,
                    CompletionFlags::file_name(quote_type),
                    cutoffs.medium,
                ),
            ),
        )
    } else {
        BuilderView::of_processed(
            ranked_words(words, word_scores(words, command, cutoffs.high)).map_values(
                |p: (i64, CommandWordInfo)| word_suggestion(p.1),
            ),
        )
    }
}

/// Makes suggestions for a first word that matches `command`. For a path,
/// `dequoted` is `command` with its quoting taken off, and `base` the directory
/// in which it is looked for.
pub fn tab_complete_fuzzy_first_word(
    command: &str,
    words: &Vec<CommandWordInfo>,
    dequoted: &str,
    quote_type: Option<QuoteType>,
    base: &DirEntry,
    cutoffs: &FuzzyCutoffs,
) -> (r: ActiveSuggestionsBuilder)
    ensures
        r@ == fuzzy_first_word_suggestions(
            command@,
            words@,
            dequoted@,
            quote_type,
            *base,
            *cutoffs,
        ),
{
    if command.is_empty() {
        return ActiveSuggestionsBuilder::new();
    }
    if path_like(command) {
        let (files, _flags) = tab_complete_fuzzy_filename_from_word(
            dequoted,
            quote_type,
            base,
            cutoffs,
        );
        return ActiveSuggestionsBuilder::from_unprocessed(filter_out_non_executables(&files));
    }
    let mut scores: Vec<Option<i64>> = Vec::new();
    let mut i: usize = 0;
    while i < words.len()
        invariant
            i <= words@.len(),
            scores@.len() == i,
            forall|k: int|
                0 <= k < i ==> #[trigger] scores@[k] == match_score(
                    words@[k].command@,
                    command@,
                    cutoffs.high,
                ),
        decreases words@.len() - i,
    {
        scores.push(
            fuzzy_match_with_threshold(
                words[i].command.as_str(),
                command,
                FuzzyMatchThreshold::High,
                cutoffs,
            ),
        );
        i = i + 1;
    }
    assert(scores@ =~= word_scores(words@, command@, cutoffs.high));
    ActiveSuggestionsBuilder::from_processed(rank_words(words, &scores))
}

/// The host names in `hosts` that start with what follows the last at sign of
/// `pattern`, each behind what precedes it.
pub open spec fn host_suggestions(pattern: Seq<char>, hosts: Seq<Seq<char>>) -> Seq<
    ProcessedView,
> {
    if pattern.contains('@') {
        let at = choose|i: int| last_at(pattern, '@', i);
        let found = hosts.filter(|h: Seq<char>| pattern.skip(at + 1).is_prefix_of(h)).map_values(
            |h: Seq<char>| ProcessedView::plain(pattern.take(at + 1) + h, ""@, ""@),
        );
        crate::order::sorted_dedup(found, processed_keys(found))
    } else {
        Seq::empty()
    }
}

proof fn lemma_last_at_unique(s: Seq<char>, c: char, i: int, j: int)
    requires
        last_at(s, c, i),
        last_at(s, c, j),
    ensures
        i == j,
{
}

/// Completes a host name behind an at sign.
pub fn tab_complete_hostname_expansion(pattern: &str, hosts: &Vec<String>) -> (r: Vec<
    ProcessedSuggestion,
>)
    ensures
        processed_views(r@) == host_suggestions(pattern@, views(hosts@)),
{
    let chars = chars_of(pattern);
    let n: usize = chars.len();
    let mut out: Vec<ProcessedSuggestion> = Vec::new();
    let at: usize = match last_position(&chars, '@') {
        Some(at) => at,
        None => {
            assert(processed_views(out@) =~= Seq::empty());
            return out;
        },
    };
    proof {
        lemma_last_at_unique(
            pattern@,
            '@',
            at as int,
            choose|i: int| last_at(pattern@, '@', i),
        );
    }
    let user_pattern = substring(pattern, at + 1, n);
    let prefix = substring(pattern, 0, at + 1);
    assert(user_pattern@ =~= pattern@.skip(at + 1));
    assert(prefix@ =~= pattern@.take(at + 1));
    let ghost all = views(hosts@);
    let ghost keep = |h: Seq<char>| pattern@.skip(at + 1).is_prefix_of(h);
    let ghost make = |h: Seq<char>|
        ProcessedView::plain(pattern@.take(at + 1) + h, ""@, ""@);
    assert(all.take(0).filter(keep) =~= Seq::empty()) by {
        reveal(Seq::filter);
    }
    assert(processed_views(out@) =~= all.take(0).filter(keep).map_values(make));
    let mut i: usize = 0;
    while i < hosts.len()
        invariant
            i <= hosts@.len(),
            all == views(hosts@),
            user_pattern@ == pattern@.skip(at + 1),
            prefix@ == pattern@.take(at + 1),
            keep == (|h: Seq<char>| pattern@.skip(at + 1).is_prefix_of(h)),
            make == (|h: Seq<char>|
                ProcessedView::plain(pattern@.take(at + 1) + h, ""@, ""@)),
            processed_views(out@) == all.take(i as int).filter(keep).map_values(make),
        decreases hosts@.len() - i,
    {
        proof {
            crate::lists::lemma_filter_step(all, keep, i as int);
        }
        if has_prefix(hosts[i].as_str(), user_pattern.as_str()) {
            let ghost before = out@;
            let text = concat(prefix.as_str(), hosts[i].as_str());
            out.push(ProcessedSuggestion::new(text, "".to_owned(), "".to_owned()));
            assert(processed_views(out@) =~= processed_views(before).push(make(all[i as int])));
            assert(processed_views(out@) =~= all.take(i + 1).filter(keep).map_values(make));
        }
        i = i + 1;
    }
    assert(all.take(all.len() as int) =~= all);
    sort_processed(&out)
}

/// A user of the machine.
#[derive(Debug, PartialEq, Eq)]
pub struct UserInfo {
    pub username: String,
    pub home_dir: String,
}

/// A directory with a slash at its end.
pub open spec fn as_directory(path: Seq<char>) -> Seq<char> {
    if "/"@.is_suffix_of(path) {
        path
    } else {
        path + "/"@
    }
}

/// The home directories of the users whose name starts with what follows the
/// tilde of `pattern`.
pub open spec fn tilde_suggestions(pattern: Seq<char>, users: Seq<UserInfo>) -> Seq<
    ProcessedView,
> {
    if "~"@.is_prefix_of(pattern) {
        let found = users.filter(
            |u: UserInfo| pattern.skip("~"@.len() as int).is_prefix_of(u.username@),
        ).map_values(
            |u: UserInfo| ProcessedView::plain(as_directory(u.home_dir@), ""@, ""@),
        );
        crate::order::sorted_dedup(found, processed_keys(found))
    } else {
        Seq::empty()
    }
}

/// Completes a user name behind a tilde to that user's home directory.
pub fn tab_complete_tilde_expansion(pattern: &str, users: &Vec<UserInfo>) -> (r: Vec<
    ProcessedSuggestion,
>)
    ensures
        processed_views(r@) == tilde_suggestions(pattern@, users@),
{
    let mut out: Vec<ProcessedSuggestion> = Vec::new();
    let user_pattern = match crate::text::without_prefix(pattern, "~") {
        Some(rest) => rest,
        None => {
            assert(processed_views(out@) =~= Seq::empty());
            return out;
        },
    };
    let ghost all = users@;
    let ghost keep = |u: UserInfo| pattern@.skip("~"@.len() as int).is_prefix_of(u.username@);
    let ghost make = |u: UserInfo|
        ProcessedView::plain(as_directory(u.home_dir@), ""@, ""@);
    assert(all.take(0).filter(keep) =~= Seq::empty()) by {
        reveal(Seq::filter);
    }
    assert(processed_views(out@) =~= all.take(0).filter(keep).map_values(make));
    let mut i: usize = 0;
    while i < users.len()
        invariant
            i <= users@.len(),
            all == users@,
            user_pattern@ == pattern@.skip("~"@.len() as int),
            keep == (|u: UserInfo| pattern@.skip("~"@.len() as int).is_prefix_of(u.username@)),
            make == (|u: UserInfo|
                ProcessedView::plain(as_directory(u.home_dir@), ""@, ""@)),
            processed_views(out@) == all.take(i as int).filter(keep).map_values(make),
        decreases users@.len() - i,
    {
        proof {
            crate::lists::lemma_filter_step(all, keep, i as int);
        }
        if has_prefix(users[i].username.as_str(), user_pattern.as_str()) {
            let ghost before = out@;
            let home = users[i].home_dir.as_str();
            let text: String = if has_suffix(home, "/") {
                users[i].home_dir.clone()
            } else {
                concat(home, "/")
            };
            out.push(ProcessedSuggestion::new(text, "".to_owned(), "".to_owned()));
            assert(processed_views(out@) =~= processed_views(before).push(make(all[i as int])));
            assert(processed_views(out@) =~= all.take(i + 1).filter(keep).map_values(make));
        }
        i = i + 1;
    }
    assert(all.take(all.len() as int) =~= all);
    sort_processed(&out)
}

/// The words that are suggested for a start of a word do start with it, and no two
/// of them are one word; the shorter stand before the longer.
pub proof fn lemma_words_with_prefix(words: Seq<CommandWordInfo>, command: Seq<char>)
    requires
        words.len() <= usize::MAX,
        forall|i: int|
            0 <= i < words.len() ==> byte_len((#[trigger] words[i]).command@) <= i128::MAX,
    ensures
        ({
            let found = sorted_words_with_prefix(words, command);
            &&& forall|i: int|
                0 <= i < found.len() ==> command.is_prefix_of((#[trigger] found[i]).command@)
            &&& forall|i: int, j: int|
                0 <= i < j < found.len() ==> word_key(#[trigger] found[i]) != word_key(
                    #[trigger] found[j],
                )
            &&& forall|i: int, j: int|
                0 <= i < j < found.len() ==> byte_len((#[trigger] found[i]).command@) <= byte_len(
                    (#[trigger] found[j]).command@,
                )
        }),
{
    let keep = |i: int|
        command.is_prefix_of(words[i].command@) && is_first_of_key(word_keys(words), i);
    let picked = words_with_prefix(words, command);
    let keys = picked.map_values(|w: CommandWordInfo| length_key(w.command@));
    let found = sorted_words_with_prefix(words, command);
    lemma_pick_len(words, keep);
    crate::order::lemma_sorted_items(picked, keys);
    let order = crate::order::stable_order(keys);
    assert forall|i: int| 0 <= i < found.len() implies command.is_prefix_of(
        (#[trigger] found[i]).command@,
    ) by {
        let k = lemma_pick_member(words, keep, order[i] as int);
    }
    assert forall|i: int, j: int| 0 <= i < j < found.len() implies word_key(#[trigger] found[i])
        != word_key(#[trigger] found[j]) by {
        let a = order[i] as int;
        let b = order[j] as int;
        let (k, l) = if a < b {
            lemma_pick_order(words, keep, a, b)
        } else {
            lemma_pick_order(words, keep, b, a)
        };
        assert(word_keys(words)[k] != word_keys(words)[l]);
    }
    assert forall|i: int, j: int| 0 <= i < j < found.len() implies byte_len(
        (#[trigger] found[i]).command@,
    ) <= byte_len((#[trigger] found[j]).command@) by {
        let a = order[i] as int;
        let b = order[j] as int;
        let k = lemma_pick_member(words, keep, a);
        let l = lemma_pick_member(words, keep, b);
        assert(byte_len(words[k].command@) <= i128::MAX);
        assert(byte_len(words[l].command@) <= i128::MAX);
        assert(keys[a] == length_key(found[i].command@));
        assert(keys[b] == length_key(found[j].command@));
        assert(keys[a][0] == byte_len(found[i].command@));
        assert(keys[b][0] == byte_len(found[j].command@));
        if byte_len(found[i].command@) > byte_len(found[j].command@) {
            assert(crate::order::key_lt(keys[b], keys[a]));
        }
    }
}

/// A word that starts with what is typed is suggested, unless another of the same
/// kind and name is.
pub proof fn lemma_no_word_is_missed(
    words: Seq<CommandWordInfo>,
    command: Seq<char>,
    k: int,
)
    requires
        words.len() <= usize::MAX,
        0 <= k < words.len(),
        command.is_prefix_of(words[k].command@),
    ensures
        exists|i: int|
            0 <= i < sorted_words_with_prefix(words, command).len() && word_key(
                #[trigger] sorted_words_with_prefix(words, command)[i],
            ) == word_key(words[k]),
{
    let keep = |i: int|
        command.is_prefix_of(words[i].command@) && is_first_of_key(word_keys(words), i);
    let picked = words_with_prefix(words, command);
    let keys = picked.map_values(|w: CommandWordInfo| length_key(w.command@));
    let first = crate::order::lemma_first_with_key(word_keys(words), k);
    assert(word_key(words[first]) == word_keys(words)[first]);
    assert(word_key(words[k]) == word_keys(words)[k]);
    lemma_word_key_injective(words[first], words[k]);
    let p = lemma_pick_contains(words, keep, first);
    lemma_pick_len(words, keep);
    let i = crate::order::lemma_sorted_contains(picked, keys, p);
    assert(sorted_words_with_prefix(words, command)[i] == words[first]);
}

/// `p` is one of the words, with its score.
pub open spec fn is_word_with_score(
    words: Seq<CommandWordInfo>,
    scores: Seq<Option<i64>>,
    p: (i64, CommandWordInfo),
) -> bool {
    exists|k: int| 0 <= k < words.len() && #[trigger] words[k] == p.1 && scores[k] == Some(p.0)
}

/// The words that are suggested because they match are those that have a score,
/// and come best first.
pub proof fn lemma_best_words_first(words: Seq<CommandWordInfo>, scores: Seq<Option<i64>>)
    requires
        words.len() <= usize::MAX,
        words.len() == scores.len(),
    ensures
        ({
            let found = ranked_words(words, scores);
            &&& forall|i: int|
                0 <= i < found.len() ==> is_word_with_score(words, scores, #[trigger] found[i])
            &&& forall|i: int, j: int|
                0 <= i < j < found.len() ==> (#[trigger] found[i]).0 >= (#[trigger] found[j]).0
        }),
{
    let all = Seq::new(words.len(), |i: int| (scores[i]->0, words[i]));
    let keep = |i: int| scores[i] is Some && is_first_of_key(word_keys(words), i);
    let picked = scored_words(words, scores);
    let keys = picked.map_values(|p: (i64, CommandWordInfo)| score_key(p.0));
    let found = ranked_words(words, scores);
    lemma_pick_len(all, keep);
    crate::order::lemma_sorted_items(picked, keys);
    let order = crate::order::stable_order(keys);
    assert forall|i: int| 0 <= i < found.len() implies is_word_with_score(
        words,
        scores,
        #[trigger] found[i],
    ) by {
        let k = lemma_pick_member(all, keep, order[i] as int);
        assert(words[k] == found[i].1 && scores[k] == Some(found[i].0));
    }
    assert forall|i: int, j: int| 0 <= i < j < found.len() implies (#[trigger] found[i]).0 >= (
    #[trigger] found[j]).0 by {
        let x = found[i].0;
        let y = found[j].0;
        assert(keys[order[i] as int] == score_key(x));
        assert(keys[order[j] as int] == score_key(y));
        assert(score_key(x)[0] == (-x) as i128);
        assert(score_key(y)[0] == (-y) as i128);
        if x < y {
            assert(crate::order::key_lt(score_key(y), score_key(x)));
        }
    }
}

/// A word that has a score is suggested, unless one of the same kind and name stands
/// before it.
pub proof fn lemma_no_match_is_missed(
    words: Seq<CommandWordInfo>,
    scores: Seq<Option<i64>>,
    k: int,
)
    requires
        words.len() <= usize::MAX,
        words.len() == scores.len(),
        0 <= k < words.len(),
        scores[k] is Some,
        is_first_of_key(word_keys(words), k),
    ensures
        ranked_words(words, scores).contains((scores[k]->0, words[k])),
{
    let all = Seq::new(words.len(), |i: int| (scores[i]->0, words[i]));
    let keep = |i: int| scores[i] is Some && is_first_of_key(word_keys(words), i);
    let picked = scored_words(words, scores);
    let keys = picked.map_values(|p: (i64, CommandWordInfo)| score_key(p.0));
    let p = lemma_pick_contains(all, keep, k);
    lemma_pick_len(all, keep);
    let i = crate::order::lemma_sorted_contains(picked, keys, p);
    assert(ranked_words(words, scores)[i] == (scores[k]->0, words[k]));
}

/// Whether `text` is among the suggestions.
pub open spec fn offers(list: Seq<ProcessedView>, text: Seq<char>) -> bool {
    exists|i: int| 0 <= i < list.len() && (#[trigger] list[i]).s == text
}

/// The suggestions rise in the order of their texts, so no text is there twice.
pub open spec fn texts_rise(list: Seq<ProcessedView>) -> bool {
    forall|i: int, j: int|
        0 <= i < j < list.len() ==> crate::order::key_lt(
            text_key((#[trigger] list[i]).s),
            text_key((#[trigger] list[j]).s),
        )
}

proof fn lemma_sorted_texts(found: Seq<ProcessedView>)
    requires
        found.len() <= usize::MAX,
    ensures
        texts_rise(crate::order::sorted_dedup(found, processed_keys(found))),
        forall|k: int|
            0 <= k < found.len() ==> offers(
                crate::order::sorted_dedup(found, processed_keys(found)),
                (#[trigger] found[k]).s,
            ),
{
    let keys = processed_keys(found);
    let list = crate::order::sorted_dedup(found, keys);
    crate::order::lemma_sorted_dedup_items(found, keys);
    let order = crate::order::dedup_order(keys, crate::order::stable_order(keys));
    assert forall|i: int, j: int| 0 <= i < j < list.len() implies crate::order::key_lt(
        text_key((#[trigger] list[i]).s),
        text_key((#[trigger] list[j]).s),
    ) by {
        assert(crate::order::key_lt(keys[order[i] as int], keys[order[j] as int]));
        assert(keys[order[i] as int] == text_key(list[i].s));
        assert(keys[order[j] as int] == text_key(list[j].s));
    }
    assert forall|k: int| 0 <= k < found.len() implies offers(
        list,
        (#[trigger] found[k]).s,
    ) by {
        let (i, x) = crate::order::lemma_sorted_dedup_contains(found, keys, k);
        assert(keys[x] == text_key(found[x].s) && keys[k] == text_key(found[k].s));
        crate::order::lemma_text_key_injective(found[x].s, found[k].s);
        assert(list[i].s == found[k].s);
    }
}

/// Every host whose name starts with what follows the last at sign is suggested, in
/// the order of the names and once.
pub proof fn lemma_no_host_is_missed(pattern: Seq<char>, hosts: Seq<Seq<char>>, at: int, k: int)
    requires
        hosts.len() <= usize::MAX,
        last_at(pattern, '@', at),
        0 <= k < hosts.len(),
        pattern.skip(at + 1).is_prefix_of(hosts[k]),
    ensures
        offers(host_suggestions(pattern, hosts), pattern.take(at + 1) + hosts[k]),
        texts_rise(host_suggestions(pattern, hosts)),
{
    assert(pattern[at] == '@');
    lemma_last_at_unique(pattern, '@', at, choose|i: int| last_at(pattern, '@', i));
    let keep = |h: Seq<char>| pattern.skip(at + 1).is_prefix_of(h);
    let kept = hosts.filter(keep);
    let found = kept.map_values(
        |h: Seq<char>| ProcessedView::plain(pattern.take(at + 1) + h, ""@, ""@),
    );
    crate::lists::lemma_filter_len(hosts, keep);
    let p = crate::lists::lemma_filter_contains(hosts, keep, k);
    lemma_sorted_texts(found);
    assert(found[p].s == pattern.take(at + 1) + hosts[k]);
}

/// What is suggested behind a tilde are directories; those of all users whose name
/// starts with what follows it are, in order and once.
pub proof fn lemma_home_directories(pattern: Seq<char>, users: Seq<UserInfo>)
    requires
        users.len() <= usize::MAX,
        "~"@.is_prefix_of(pattern),
    ensures
        forall|i: int|
            0 <= i < tilde_suggestions(pattern, users).len() ==> "/"@.is_suffix_of(
                (#[trigger] tilde_suggestions(pattern, users)[i]).s,
            ),
        forall|k: int|
            0 <= k < users.len() && pattern.skip("~"@.len() as int).is_prefix_of(
                (#[trigger] users[k]).username@,
            ) ==> offers(tilde_suggestions(pattern, users), as_directory(users[k].home_dir@)),
        texts_rise(tilde_suggestions(pattern, users)),
{
    let keep = |u: UserInfo| pattern.skip("~"@.len() as int).is_prefix_of(u.username@);
    let kept = users.filter(keep);
    let found = kept.map_values(
        |u: UserInfo| ProcessedView::plain(as_directory(u.home_dir@), ""@, ""@),
    );
    let keys = processed_keys(found);
    let list = tilde_suggestions(pattern, users);
    crate::lists::lemma_filter_len(users, keep);
    lemma_sorted_texts(found);
    crate::order::lemma_sorted_dedup_items(found, keys);
    let order = crate::order::dedup_order(keys, crate::order::stable_order(keys));
    assert forall|i: int| 0 <= i < list.len() implies "/"@.is_suffix_of(
        (#[trigger] list[i]).s,
    ) by {
        let home = kept[order[i] as int].home_dir@;
        assert(list[i].s == as_directory(home));
        if !"/"@.is_suffix_of(home) {
            assert((home + "/"@).skip(home.len() as int) =~= "/"@);
        }
    }
    assert forall|k: int|
        0 <= k < users.len() && pattern.skip("~"@.len() as int).is_prefix_of(
            (#[trigger] users[k]).username@,
        ) implies offers(list, as_directory(users[k].home_dir@)) by {
        let p = crate::lists::lemma_filter_contains(users, keep, k);
        assert(found[p].s == as_directory(users[k].home_dir@));
    }
}

/// A host name that is suggested completes the pattern: it starts with it.
pub proof fn lemma_hosts_complete_the_pattern(pattern: Seq<char>, hosts: Seq<Seq<char>>)
    requires
        hosts.len() <= usize::MAX,
    ensures
        forall|i: int|
            0 <= i < host_suggestions(pattern, hosts).len() ==> pattern.is_prefix_of(
                (#[trigger] host_suggestions(pattern, hosts)[i]).s,
            ),
{
    if pattern.contains('@') {
        lemma_last_exists(pattern, '@');
        let at = choose|i: int| last_at(pattern, '@', i);
        let keep = |h: Seq<char>| pattern.skip(at + 1).is_prefix_of(h);
        let kept = hosts.filter(keep);
        let found = kept.map_values(
            |h: Seq<char>| ProcessedView::plain(pattern.take(at + 1) + h, ""@, ""@),
        );
        let keys = processed_keys(found);
        crate::lists::lemma_filter_len(hosts, keep);
        crate::order::lemma_sorted_dedup_items(found, keys);
        let order = crate::order::dedup_order(keys, crate::order::stable_order(keys));
        assert forall|i: int| 0 <= i < host_suggestions(pattern, hosts).len() implies
            pattern.is_prefix_of((#[trigger] host_suggestions(pattern, hosts)[i]).s) by {
            let k = order[i] as int;
            crate::lists::lemma_filter_members(hosts, keep, k);
            let s = pattern.take(at + 1) + kept[k];
            assert(host_suggestions(pattern, hosts)[i].s == s);
            assert(pattern =~= pattern.take(at + 1) + pattern.skip(at + 1));
            assert(s.take(pattern.len() as int) =~= pattern.take(at + 1) + kept[k].take(
                pattern.len() - at - 1,
            ));
            assert(kept[k].take(pattern.len() - at - 1) =~= pattern.skip(at + 1));
        }
    }
}

proof fn lemma_last_exists(s: Seq<char>, c: char)
    requires
        s.contains(c),
    ensures
        exists|i: int| last_at(s, c, i),
    decreases s.len(),
{
    if s.last() == c {
        assert(last_at(s, c, s.len() - 1));
    } else {
        let rest = s.drop_last();
        let k = choose|k: int| 0 <= k < s.len() && s[k] == c;
        assert(rest[k] == c);
        lemma_last_exists(rest, c);
        let i = choose|i: int| last_at(rest, c, i);
        assert forall|j: int| i < j < s.len() implies s[j] != c by {
            if j < rest.len() {
                assert(rest[j] != c);
            }
        }
        assert(last_at(s, c, i));
    }
}

/// `p` is the suggestion for the command word `w`: its name, which an equals sign follows
/// where it is a variable, and else a space, unless the name ends in one. Of what is
/// known, the description is shown.
pub open spec fn is_suggestion_of_word(p: ProcessedView, w: CommandWordInfo) -> bool {
    &&& p.s == w.command@
    &&& p.prefix.len() == 0
    &&& if w.kind is EnvVar {
        p.suffix == seq!['=']
    } else if w.command@.len() > 0 && w.command@.last() == ' ' {
        p.suffix.len() == 0
    } else {
        p.suffix == seq![' ']
    }
    &&& p.description matches DescriptionView::Static(parts) && if w.kind is Unknown {
        parts.len() == 0
    } else {
        parts == seq![w.description@]
    }
}

/// A command word is suggested with what follows it.
pub proof fn lemma_word_has_its_suffix(w: CommandWordInfo)
    ensures
        is_suggestion_of_word(word_suggestion(w), w),
{
    reveal_strlit("");
    reveal_strlit(" ");
    reveal_strlit("=");
    assert(" "@ =~= seq![' ']);
    assert("="@ =~= seq!['=']);
    let name = w.command@;
    if name.len() > 0 {
        if name.last() == ' ' {
            assert(name.skip(name.len() - 1) =~= " "@);
        } else if " "@.is_suffix_of(name) {
            assert(name.skip(name.len() - 1)[0] == " "@[0]);
        }
    }
}

/// Whether a first word is a path: it starts with a dot or a tilde, or holds a slash.
pub open spec fn looks_like_path(command: Seq<char>) -> bool {
    (command.len() > 0 && (command[0] == '.' || command[0] == '~')) || command.contains('/')
}

/// Exactly what looks like a path is taken for one.
pub proof fn lemma_what_looks_like_a_path(command: Seq<char>)
    ensures
        is_path_like(command) <==> looks_like_path(command),
{
    reveal_strlit(".");
    reveal_strlit("~");
    assert("."@ =~= seq!['.']);
    assert("~"@ =~= seq!['~']);
    if command.len() > 0 {
        if command[0] == '.' {
            assert("."@ =~= command.take(1));
        } else if "."@.is_prefix_of(command) {
            assert("."@[0] == command[0]);
        }
        if command[0] == '~' {
            assert("~"@ =~= command.take(1));
        } else if "~"@.is_prefix_of(command) {
            assert("~"@[0] == command[0]);
        }
    }
}

/// Nothing is suggested before anything is typed.
pub proof fn lemma_nothing_typed_nothing_suggested(
    word: Seq<char>,
    words: Seq<CommandWordInfo>,
    expanded: PathPatternExpansion,
    quote_type: Option<QuoteType>,
    base: DirEntry,
    cutoffs: FuzzyCutoffs,
    dequoted: Seq<char>,
)
    ensures
        first_word_suggestions(Seq::empty(), word, words, expanded, quote_type).count() == 0,
        fuzzy_first_word_suggestions(
            Seq::empty(),
            words,
            dequoted,
            quote_type,
            base,
            cutoffs,
        ).count() == 0,
{
}

/// A name that starts with what is typed is suggested, as a variable where it is one.
pub proof fn lemma_every_command_word_is_suggested(
    command: Seq<char>,
    word: Seq<char>,
    words: Seq<CommandWordInfo>,
    expanded: PathPatternExpansion,
    quote_type: Option<QuoteType>,
    k: int,
) -> (i: int)
    requires
        command.len() > 0,
        !looks_like_path(command),
        words.len() <= usize::MAX,
        0 <= k < words.len(),
        command.is_prefix_of(words[k].command@),
    ensures
        ({
            let b = first_word_suggestions(command, word, words, expanded, quote_type);
            &&& 0 <= i < b.processed.len()
            &&& b.processed[i].s == words[k].command@
            &&& b.processed[i].suffix == seq!['='] <==> words[k].kind is EnvVar
            &&& is_as_usual(b)
        }),
{
    lemma_what_looks_like_a_path(command);
    lemma_no_word_is_missed(words, command, k);
    let found = sorted_words_with_prefix(words, command);
    let i = choose|i: int|
        0 <= i < found.len() && word_key(#[trigger] found[i]) == word_key(words[k]);
    lemma_word_key_injective(found[i], words[k]);
    lemma_word_has_its_suffix(found[i]);
    i
}

/// What is suggested for a name are command words that start with it, and nothing else.
pub proof fn lemma_only_command_words_are_suggested(
    command: Seq<char>,
    word: Seq<char>,
    words: Seq<CommandWordInfo>,
    expanded: PathPatternExpansion,
    quote_type: Option<QuoteType>,
    i: int,
) -> (k: int)
    requires
        command.len() > 0,
        !looks_like_path(command),
        words.len() <= usize::MAX,
        0 <= i < first_word_suggestions(command, word, words, expanded, quote_type).processed.len(),
    ensures
        first_word_suggestions(command, word, words, expanded, quote_type).unprocessed.len() == 0,
        0 <= k < words.len(),
        command.is_prefix_of(words[k].command@),
        is_suggestion_of_word(
            first_word_suggestions(command, word, words, expanded, quote_type).processed[i],
            words[k],
        ),
{
    lemma_what_looks_like_a_path(command);
    let keep = |i: int|
        command.is_prefix_of(words[i].command@) && is_first_of_key(word_keys(words), i);
    let picked = words_with_prefix(words, command);
    let keys = picked.map_values(|w: CommandWordInfo| length_key(w.command@));
    lemma_pick_len(words, keep);
    crate::order::lemma_sorted_items(picked, keys);
    let k = lemma_pick_member(words, keep, crate::order::stable_order(keys)[i] as int);
    lemma_word_has_its_suffix(words[k]);
    assert(sorted_words_with_prefix(words, command)[i] == words[k]);
    k
}

/// Shorter names come before longer ones, names of one length in the order of their
/// characters, and no name is there twice, unless once as a variable.
pub proof fn lemma_shorter_command_words_first(
    command: Seq<char>,
    word: Seq<char>,
    words: Seq<CommandWordInfo>,
    expanded: PathPatternExpansion,
    quote_type: Option<QuoteType>,
    i: int,
    j: int,
)
    requires
        command.len() > 0,
        !looks_like_path(command),
        words.len() <= usize::MAX,
        forall|i: int|
            0 <= i < words.len() ==> byte_len((#[trigger] words[i]).command@) <= i128::MAX,
        0 <= i < j < first_word_suggestions(
            command,
            word,
            words,
            expanded,
            quote_type,
        ).processed.len(),
    ensures
        ({
            let list = first_word_suggestions(
                command,
                word,
                words,
                expanded,
                quote_type,
            ).processed;
            &&& byte_len(list[i].s) <= byte_len(list[j].s)
            &&& byte_len(list[i].s) == byte_len(list[j].s) ==> !crate::order::text_before(
                list[j].s,
                list[i].s,
            )
            &&& list[i].s == list[j].s ==> (list[i].suffix == seq!['='] <==> !(list[j].suffix
                == seq!['=']))
        }),
{
    lemma_what_looks_like_a_path(command);
    lemma_words_with_prefix(words, command);
    let found = sorted_words_with_prefix(words, command);
    let picked = words_with_prefix(words, command);
    let keep = |i: int|
        command.is_prefix_of(words[i].command@) && is_first_of_key(word_keys(words), i);
    let keys = picked.map_values(|w: CommandWordInfo| length_key(w.command@));
    lemma_pick_len(words, keep);
    crate::order::lemma_sorted_items(picked, keys);
    let order = crate::order::stable_order(keys);
    let x = found[i].command@;
    let y = found[j].command@;
    assert(byte_len(x) <= byte_len(y));
    assert(keys[order[i] as int] == length_key(x));
    assert(keys[order[j] as int] == length_key(y));
    if byte_len(x) == byte_len(y) && crate::order::text_before(y, x) {
        crate::order::lemma_texts_are_sorted_by_character(y, x);
        assert(length_key(x).drop_first() =~= text_key(x));
        assert(length_key(y).drop_first() =~= text_key(y));
        assert(crate::order::key_lt(length_key(y), length_key(x)));
    }
    lemma_word_has_its_suffix(found[i]);
    lemma_word_has_its_suffix(found[j]);
    assert(word_key(found[i]) != word_key(found[j]));
    lemma_word_key_injective(found[i], found[j]);
}

/// For a path, what is suggested are the files that match it and that can be run, as they
/// are suggested for any word; command words are not.
pub proof fn lemma_paths_lead_to_programs(
    command: Seq<char>,
    word: Seq<char>,
    words: Seq<CommandWordInfo>,
    expanded: PathPatternExpansion,
    quote_type: Option<QuoteType>,
    dequoted: Seq<char>,
    base: DirEntry,
    cutoffs: FuzzyCutoffs,
    u: UnprocessedView,
)
    requires
        looks_like_path(command),
    ensures
        ({
            let b = first_word_suggestions(command, word, words, expanded, quote_type);
            &&& b.processed.len() == 0
            &&& is_as_usual(b)
            &&& b.unprocessed.contains(u) <==> pattern_suggestions(
                expanded,
                CompletionFlags::file_name(quote_type),
                word,
                true,
            ).contains(u) && crate::files::is_runnable(u.full_path)
        }),
        ({
            let b = fuzzy_first_word_suggestions(
                command,
                words,
                dequoted,
                quote_type,
                base,
                cutoffs,
            );
            &&& b.processed.len() == 0
            &&& is_as_usual(b)
            &&& b.unprocessed.contains(u) <==> fuzzy_suggestions(
                dequoted,
                0,
                base,
                CompletionFlags::file_name(quote_type),
                cutoffs.medium,
            ).contains(u) && crate::files::is_runnable(u.full_path)
        }),
{
    assert(command.len() > 0) by {
        if command.contains('/') {
            let k = choose|k: int| 0 <= k < command.len() && command[k] == '/';
        }
    }
    lemma_what_looks_like_a_path(command);
    crate::files::lemma_what_can_be_run_is_kept(
        pattern_suggestions(expanded, CompletionFlags::file_name(quote_type), word, true),
        u,
    );
    crate::files::lemma_what_can_be_run_is_kept(
        fuzzy_suggestions(
            dequoted,
            0,
            base,
            CompletionFlags::file_name(quote_type),
            cutoffs.medium,
        ),
        u,
    );
}

/// No earlier word has the name of the one at `k`, with both or neither a variable.
pub open spec fn is_new_word(words: Seq<CommandWordInfo>, k: int) -> bool {
    forall|j: int|
        0 <= j < k ==> (#[trigger] words[j]).command@ != words[k].command@ || (words[j].kind is EnvVar
            && !(words[k].kind is EnvVar)) || (!(words[j].kind is EnvVar) && words[k].kind is EnvVar)
}

proof fn lemma_new_words(words: Seq<CommandWordInfo>, k: int)
    requires
        0 <= k < words.len(),
    ensures
        is_new_word(words, k) <==> is_first_of_key(word_keys(words), k),
{
    assert forall|j: int| 0 <= j < k implies (word_keys(words)[j] == word_keys(words)[k] <==> (
    #[trigger] words[j]).command@ == words[k].command@ && (words[j].kind is EnvVar
        <==> words[k].kind is EnvVar)) by {
        lemma_word_key_injective(words[j], words[k]);
    }
    if is_new_word(words, k) {
        assert forall|j: int| 0 <= j < k implies #[trigger] word_keys(words)[j] != word_keys(
            words,
        )[k] by {
            assert(words[j] == words[j]);
        }
    }
    if is_first_of_key(word_keys(words), k) {
        assert forall|j: int| 0 <= j < k implies (#[trigger] words[j]).command@ != words[k].command@
            || (words[j].kind is EnvVar && !(words[k].kind is EnvVar)) || (!(words[j].kind is EnvVar)
            && words[k].kind is EnvVar) by {
            assert(word_keys(words)[j] != word_keys(words)[k]);
        }
    }
}

/// A name that matches what is typed is suggested: one whose score reaches the high
/// cutoff.
pub proof fn lemma_every_matching_word_is_suggested(
    command: Seq<char>,
    words: Seq<CommandWordInfo>,
    dequoted: Seq<char>,
    quote_type: Option<QuoteType>,
    base: DirEntry,
    cutoffs: FuzzyCutoffs,
    k: int,
) -> (i: int)
    requires
        command.len() > 0,
        !looks_like_path(command),
        words.len() <= usize::MAX,
        0 <= k < words.len(),
        is_new_word(words, k),
        arinae_score(words[k].command@, command) matches Some(s) && s >= cutoffs.high,
    ensures
        ({
            let b = fuzzy_first_word_suggestions(
                command,
                words,
                dequoted,
                quote_type,
                base,
                cutoffs,
            );
            &&& 0 <= i < b.processed.len()
            &&& is_suggestion_of_word(b.processed[i], words[k])
            &&& b.unprocessed.len() == 0
            &&& is_as_usual(b)
        }),
{
    lemma_what_looks_like_a_path(command);
    lemma_new_words(words, k);
    let scores = word_scores(words, command, cutoffs.high);
    lemma_no_match_is_missed(words, scores, k);
    let found = ranked_words(words, scores);
    let i = choose|i: int| 0 <= i < found.len() && found[i] == (scores[k]->0, words[k]);
    lemma_word_has_its_suffix(words[k]);
    i
}

/// What is suggested because it matches are command words whose score reaches the high
/// cutoff. The better come first, and words with one score in the order in which they
/// stood; no word is there twice.
pub proof fn lemma_better_matching_words_first(
    command: Seq<char>,
    words: Seq<CommandWordInfo>,
    dequoted: Seq<char>,
    quote_type: Option<QuoteType>,
    base: DirEntry,
    cutoffs: FuzzyCutoffs,
    i: int,
    j: int,
) -> (r: (int, int))
    requires
        command.len() > 0,
        !looks_like_path(command),
        words.len() <= usize::MAX,
        0 <= i < j < fuzzy_first_word_suggestions(
            command,
            words,
            dequoted,
            quote_type,
            base,
            cutoffs,
        ).processed.len(),
    ensures
        ({
            let list = fuzzy_first_word_suggestions(
                command,
                words,
                dequoted,
                quote_type,
                base,
                cutoffs,
            ).processed;
            let (k, l) = r;
            &&& 0 <= k < words.len() && is_new_word(words, k)
            &&& 0 <= l < words.len() && is_new_word(words, l)
            &&& is_suggestion_of_word(list[i], words[k])
            &&& is_suggestion_of_word(list[j], words[l])
            &&& arinae_score(words[k].command@, command) matches Some(x) && arinae_score(
                words[l].command@,
                command,
            ) matches Some(y) && y >= cutoffs.high && (x > y || (x == y && k < l))
        }),
{
    lemma_what_looks_like_a_path(command);
    let scores = word_scores(words, command, cutoffs.high);
    let all = Seq::new(words.len(), |i: int| (scores[i]->0, words[i]));
    let keep = |i: int| scores[i] is Some && is_first_of_key(word_keys(words), i);
    let picked = scored_words(words, scores);
    let keys = picked.map_values(|p: (i64, CommandWordInfo)| score_key(p.0));
    let found = ranked_words(words, scores);
    lemma_pick_len(all, keep);
    crate::order::lemma_sorted_items(picked, keys);
    lemma_best_words_first(words, scores);
    crate::order::lemma_stable_order_exists(keys);
    let order = crate::order::stable_order(keys);
    let a = order[i] as int;
    let b = order[j] as int;
    assert(found[i] == picked[a] && found[j] == picked[b]);
    assert(found[i].0 >= found[j].0);
    assert(crate::order::precedes(keys, order[i] as int, order[j] as int));
    let (k, l) = if a < b {
        lemma_pick_order(all, keep, a, b)
    } else {
        let (l, k) = lemma_pick_order(all, keep, b, a);
        (k, l)
    };
    assert(all[k] == picked[a] && all[l] == picked[b]);
    if found[i].0 == found[j].0 {
        assert(keys[a] == keys[b]);
        crate::order::lemma_key_irreflexive(keys[a]);
        assert(a < b);
    }
    lemma_new_words(words, k);
    lemma_new_words(words, l);
    lemma_word_has_its_suffix(words[k]);
    lemma_word_has_its_suffix(words[l]);
    (k, l)
}

/// What is suggested behind an at sign is a host whose name starts with what follows the
/// last one, behind all that precedes it, and nothing more. Without an at sign nothing is.
pub proof fn lemma_only_hosts_are_suggested(
    pattern: Seq<char>,
    hosts: Seq<Seq<char>>,
    at: int,
    i: int,
) -> (k: int)
    requires
        hosts.len() <= usize::MAX,
        0 <= i < host_suggestions(pattern, hosts).len(),
        pattern.contains('@') ==> last_at(pattern, '@', at),
    ensures
        pattern.contains('@'),
        0 <= k < hosts.len(),
        pattern.skip(at + 1).is_prefix_of(hosts[k]),
        host_suggestions(pattern, hosts)[i].s == pattern.take(at + 1) + hosts[k],
        host_suggestions(pattern, hosts)[i].prefix.len() == 0,
        host_suggestions(pattern, hosts)[i].suffix.len() == 0,
{
    reveal_strlit("");
    lemma_last_at_unique(pattern, '@', at, choose|i: int| last_at(pattern, '@', i));
    let keep = |h: Seq<char>| pattern.skip(at + 1).is_prefix_of(h);
    let kept = hosts.filter(keep);
    let found = kept.map_values(
        |h: Seq<char>| ProcessedView::plain(pattern.take(at + 1) + h, ""@, ""@),
    );
    let keys = processed_keys(found);
    crate::lists::lemma_filter_len(hosts, keep);
    crate::order::lemma_sorted_dedup_items(found, keys);
    let x = crate::order::dedup_order(keys, crate::order::stable_order(keys))[i] as int;
    crate::lists::lemma_filter_members(hosts, keep, x);
    assert(host_suggestions(pattern, hosts)[i] == found[x]);
    choose|k: int| 0 <= k < hosts.len() && hosts[k] == kept[x]
}

/// `text` is the directory `path` with a slash at its end, and no second one for it.
pub open spec fn is_directory_text(text: Seq<char>, path: Seq<char>) -> bool {
    if path.len() > 0 && path.last() == '/' {
        text == path
    } else {
        text == path.push('/')
    }
}

proof fn lemma_directory_text(path: Seq<char>)
    ensures
        is_directory_text(as_directory(path), path),
{
    reveal_strlit("/");
    assert("/"@ =~= seq!['/']);
    if path.len() > 0 && path.last() == '/' {
        assert(path.skip(path.len() - 1) =~= "/"@);
    } else {
        if "/"@.is_suffix_of(path) {
            assert(path.skip(path.len() - 1)[0] == "/"@[0]);
        }
        assert(path + "/"@ =~= path.push('/'));
    }
}

/// Behind a tilde, the home directory of every user whose name starts with what follows
/// it is suggested.
pub proof fn lemma_every_home_is_suggested(
    name: Seq<char>,
    users: Seq<UserInfo>,
    k: int,
) -> (i: int)
    requires
        users.len() <= usize::MAX,
        0 <= k < users.len(),
        name.is_prefix_of(users[k].username@),
    ensures
        0 <= i < tilde_suggestions(seq!['~'] + name, users).len(),
        is_directory_text(tilde_suggestions(seq!['~'] + name, users)[i].s, users[k].home_dir@),
{
    reveal_strlit("~");
    assert("~"@ =~= seq!['~']);
    let pattern = seq!['~'] + name;
    assert("~"@ =~= pattern.take(1));
    assert(pattern.skip(1) =~= name);
    lemma_home_directories(pattern, users);
    lemma_directory_text(users[k].home_dir@);
    let list = tilde_suggestions(pattern, users);
    assert(offers(list, as_directory(users[k].home_dir@)));
    choose|i: int| 0 <= i < list.len() && (#[trigger] list[i]).s == as_directory(users[k].home_dir@)
}

/// What is suggested behind a tilde is the home directory of a user whose name starts with
/// what follows it, and nothing more. Without a tilde at the start nothing is.
pub proof fn lemma_only_homes_are_suggested(
    pattern: Seq<char>,
    users: Seq<UserInfo>,
    i: int,
) -> (k: int)
    requires
        users.len() <= usize::MAX,
        0 <= i < tilde_suggestions(pattern, users).len(),
    ensures
        pattern.len() > 0,
        pattern[0] == '~',
        0 <= k < users.len(),
        pattern.skip(1).is_prefix_of(users[k].username@),
        is_directory_text(tilde_suggestions(pattern, users)[i].s, users[k].home_dir@),
        tilde_suggestions(pattern, users)[i].prefix.len() == 0,
        tilde_suggestions(pattern, users)[i].suffix.len() == 0,
{
    reveal_strlit("");
    reveal_strlit("~");
    assert("~"@ =~= seq!['~']);
    assert("~"@[0] == pattern[0]);
    let keep = |u: UserInfo| pattern.skip("~"@.len() as int).is_prefix_of(u.username@);
    let kept = users.filter(keep);
    let found = kept.map_values(
        |u: UserInfo| ProcessedView::plain(as_directory(u.home_dir@), ""@, ""@),
    );
    let keys = processed_keys(found);
    crate::lists::lemma_filter_len(users, keep);
    crate::order::lemma_sorted_dedup_items(found, keys);
    let x = crate::order::dedup_order(keys, crate::order::stable_order(keys))[i] as int;
    crate::lists::lemma_filter_members(users, keep, x);
    assert(tilde_suggestions(pattern, users)[i] == found[x]);
    lemma_directory_text(kept[x].home_dir@);
    choose|k: int| 0 <= k < users.len() && users[k] == kept[x]
}

/// Hosts and home directories stand in the order of their texts, character by character,
/// and no text is there twice.
pub proof fn lemma_texts_stand_in_order(list: Seq<ProcessedView>, i: int, j: int)
    requires
        texts_rise(list),
        0 <= i < j < list.len(),
    ensures
        crate::order::text_before(list[i].s, list[j].s),
{
    crate::order::lemma_texts_are_sorted_by_character(list[i].s, list[j].s);
}

} // verus!
