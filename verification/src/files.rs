//! Completion of file names from the matches of a path pattern.

use vstd::prelude::*;

verus! {

use crate::lists::{
    lemma_filter_contains,
    lemma_filter_members,
    lemma_filter_prefix,
    lemma_filter_step,
};
use crate::suggestion::{
    copied_text,
    sort_unprocessed,
    text_view,
    unprocessed_keys,
    unprocessed_views,
    CompletionFlags,
    FileKind,
    FullPath,
    QuoteType,
    UnprocessedSuggestion,
    UnprocessedView,
};
use crate::text::{has_prefix, same_text};

/// The most matches of one pattern that are looked at.
pub const MAX_GLOB_RESULTS: usize = 10_000;

/// A path that a pattern matches.
#[derive(Debug, PartialEq, Eq)]
pub struct GlobMatch {
    pub path: FullPath,
    /// The path as the user would have written it.
    pub unexpanded: String,
    /// The part of it that the pattern did not fix, quoted.
    pub quoted_rhs: String,
}

/// A path pattern with what it matches on disk.
#[derive(Debug, PartialEq, Eq)]
pub struct PathPatternExpansion {
    /// The part of the pattern that all matches share, where it has one.
    pub static_prefix: Option<String>,
    /// Whether the pattern asks for hidden files by name.
    pub wants_hidden: bool,
    pub matches: Vec<GlobMatch>,
}

/// Whether a match is offered: `.` and `..` are not, and hidden files only where
/// they are not to be skipped or the pattern asks for them.
pub open spec fn is_offered(quoted_rhs: Seq<char>, wants_hidden: bool, skip_hidden: bool) -> bool {
    &&& quoted_rhs != "."@
    &&& quoted_rhs != ".."@
    &&& !(skip_hidden && !wants_hidden && "."@.is_prefix_of(quoted_rhs) && !"./"@.is_prefix_of(
        quoted_rhs,
    ))
}

/// The suggestion for a match.
pub open spec fn match_suggestion(
    m: GlobMatch,
    custom_prefix: Option<Seq<char>>,
    flags: CompletionFlags,
    word: Seq<char>,
) -> UnprocessedView {
    UnprocessedView {
        raw_text: m.unexpanded@,
        full_path: Some(m.path),
        flags,
        word_under_cursor: word,
        is_git_command: false,
        custom_prefix,
    }
}

/// The matches that are offered, in the order in which they come.
pub open spec fn offered(expanded: PathPatternExpansion, skip_hidden: bool) -> Seq<GlobMatch> {
    expanded.matches@.filter(
        |m: GlobMatch| is_offered(m.quoted_rhs@, expanded.wants_hidden, skip_hidden),
    )
}

/// The suggestions for a pattern before they are sorted: one for each of the
/// first [`MAX_GLOB_RESULTS`] matches that are offered.
pub open spec fn unsorted_suggestions(
    expanded: PathPatternExpansion,
    flags: CompletionFlags,
    word: Seq<char>,
    skip_hidden: bool,
) -> Seq<UnprocessedView> {
    let all = offered(expanded, skip_hidden);
    let first = if all.len() > MAX_GLOB_RESULTS {
        all.take(MAX_GLOB_RESULTS as int)
    } else {
        all
    };
    first.map_values(
        |m: GlobMatch| match_suggestion(m, text_view(expanded.static_prefix), flags, word),
    )
}

/// The suggestions for a pattern: sorted by text, each text once.
pub open spec fn pattern_suggestions(
    expanded: PathPatternExpansion,
    flags: CompletionFlags,
    word: Seq<char>,
    skip_hidden: bool,
) -> Seq<UnprocessedView> {
    let all = unsorted_suggestions(expanded, flags, word, skip_hidden);
    crate::order::sorted_dedup(all, unprocessed_keys(all))
}

fn is_listed(quoted_rhs: &str, wants_hidden: bool, skip_hidden: bool) -> (r: bool)
    ensures
        r == is_offered(quoted_rhs@, wants_hidden, skip_hidden),
{
    !same_text(quoted_rhs, ".") && !same_text(quoted_rhs, "..") && !(skip_hidden && !wants_hidden
        && has_prefix(quoted_rhs, ".") && !has_prefix(quoted_rhs, "./"))
}

/// Makes suggestions of the matches of a pattern.
pub fn tab_complete_with_expanded_pattern(
    expanded: &PathPatternExpansion,
    flags: CompletionFlags,
    word_under_cursor: &str,
    should_skip_hidden: bool,
) -> (r: Vec<UnprocessedSuggestion>)
    ensures
        unprocessed_views(r@) == pattern_suggestions(
            *expanded,
            flags,
            word_under_cursor@,
            should_skip_hidden,
        ),
{
    let ghost keep = |m: GlobMatch|
        is_offered(m.quoted_rhs@, expanded.wants_hidden, should_skip_hidden);
    let ghost all = expanded.matches@;
    let mut results: Vec<UnprocessedSuggestion> = Vec::new();
    let mut i: usize = 0;
    assert(all.take(0).filter(keep) =~= Seq::empty()) by {
        reveal(Seq::filter);
    }
    while i < expanded.matches.len() && results.len() < MAX_GLOB_RESULTS
        invariant
            i <= all.len(),
            all == expanded.matches@,
            keep == (|m: GlobMatch|
                is_offered(m.quoted_rhs@, expanded.wants_hidden, should_skip_hidden)),
            results@.len() <= MAX_GLOB_RESULTS,
            results@.len() == all.take(i as int).filter(keep).len(),
            forall|k: int|
                0 <= k < results@.len() ==> (#[trigger] results@[k])@ == match_suggestion(
                    all.take(i as int).filter(keep)[k],
                    text_view(expanded.static_prefix),
                    flags,
                    word_under_cursor@,
                ),
        decreases all.len() - i,
    {
        let m = &expanded.matches[i];
        proof {
            lemma_filter_step(all, keep, i as int);
        }
        if is_listed(m.quoted_rhs.as_str(), expanded.wants_hidden, should_skip_hidden) {
            results.push(
                UnprocessedSuggestion {
                    raw_text: m.unexpanded.clone(),
                    full_path: Some(m.path.copied()),
                    flags,
                    word_under_cursor: word_under_cursor.to_owned(),
                    is_git_command: false,
                    custom_prefix: copied_text(&expanded.static_prefix),
                },
            );
        }
        i = i + 1;
    }
    proof {
        lemma_filter_prefix(all, keep, i as int);
        assert(offered(*expanded, should_skip_hidden) == all.filter(keep));
        if i == all.len() {
            assert(all.take(i as int) =~= all);
        }
        assert(unprocessed_views(results@) =~= unsorted_suggestions(
            *expanded,
            flags,
            word_under_cursor@,
            should_skip_hidden,
        ));
    }
    sort_unprocessed(&results)
}

/// Makes suggestions of the matches of a pattern in the given quoting, without
/// the hidden files that the pattern does not ask for.
pub fn tab_complete_glob_expansion(
    expanded: &PathPatternExpansion,
    quote_type: Option<QuoteType>,
    word_under_cursor: &str,
) -> (r: (Vec<UnprocessedSuggestion>, CompletionFlags))
    ensures
        r.1 == CompletionFlags::file_name(quote_type),
        unprocessed_views(r.0@) == pattern_suggestions(
            *expanded,
            CompletionFlags::file_name(quote_type),
            word_under_cursor@,
            true,
        ),
{
    let flags = CompletionFlags::for_file_name(quote_type);
    let completions = tab_complete_with_expanded_pattern(expanded, flags, word_under_cursor, true);
    (completions, flags)
}

/// Whether a path can be run, or leads to where one can: a link, a directory, a
/// file that someone may execute, or something of which nothing is known.
pub open spec fn is_runnable(path: Option<FullPath>) -> bool {
    match path {
        None => true,
        Some(p) => p.stat.is_symlink || match p.stat.target {
            Some(FileKind::File { mode }) => mode & 0o111 != 0,
            _ => true,
        },
    }
}

fn runnable(path: &Option<FullPath>) -> (r: bool)
    ensures
        r == is_runnable(*path),
{
    match path {
        None => true,
        Some(p) => p.stat.is_symlink || match p.stat.target {
            Some(FileKind::File { mode }) => mode & 0o111 != 0,
            _ => true,
        },
    }
}

/// The suggestions whose path is runnable.
pub open spec fn runnable_only(list: Seq<UnprocessedView>) -> Seq<UnprocessedView> {
    list.filter(|u: UnprocessedView| is_runnable(u.full_path))
}

/// Drops the suggestions whose path is a file that nobody may execute.
pub fn filter_out_non_executables(paths: &Vec<UnprocessedSuggestion>) -> (r: Vec<
    UnprocessedSuggestion,
>)
    ensures
        unprocessed_views(r@) == runnable_only(unprocessed_views(paths@)),
{
    let ghost keep = |u: UnprocessedView| is_runnable(u.full_path);
    let ghost all = unprocessed_views(paths@);
    let mut out: Vec<UnprocessedSuggestion> = Vec::new();
    let mut i: usize = 0;
    assert(all.take(0).filter(keep) =~= Seq::empty()) by {
        reveal(Seq::filter);
    }
    assert(unprocessed_views(out@) =~= Seq::empty());
    while i < paths.len()
        invariant
            i <= paths@.len(),
            all == unprocessed_views(paths@),
            keep == (|u: UnprocessedView| is_runnable(u.full_path)),
            unprocessed_views(out@) == all.take(i as int).filter(keep),
        decreases paths@.len() - i,
    {
        proof {
            lemma_filter_step(all, keep, i as int);
        }
        if runnable(&paths[i].full_path) {
            let ghost before = out@;
            out.push(paths[i].copied());
            assert(unprocessed_views(out@) =~= unprocessed_views(before).push(all[i as int]));
        }
        i = i + 1;
    }
    assert(all.take(all.len() as int) =~= all);
    out
}

/// Whether a suggestion is that for a match of the pattern that is offered.
pub open spec fn is_from_match(
    u: UnprocessedView,
    expanded: PathPatternExpansion,
    flags: CompletionFlags,
    word: Seq<char>,
    skip_hidden: bool,
) -> bool {
    exists|m: GlobMatch|
        expanded.matches@.contains(m) && #[trigger] is_offered(
            m.quoted_rhs@,
            expanded.wants_hidden,
            skip_hidden,
        ) && u == match_suggestion(m, text_view(expanded.static_prefix), flags, word)
}

/// The suggestions for a pattern come from its matches, are at most as many as are
/// looked at, and stand in the order of their texts, each text once.
pub proof fn lemma_pattern_suggestions(
    expanded: PathPatternExpansion,
    flags: CompletionFlags,
    word: Seq<char>,
    skip_hidden: bool,
)
    ensures
        ({
            let found = pattern_suggestions(expanded, flags, word, skip_hidden);
            &&& found.len() <= MAX_GLOB_RESULTS
            &&& forall|i: int|
                0 <= i < found.len() ==> is_from_match(
                    #[trigger] found[i],
                    expanded,
                    flags,
                    word,
                    skip_hidden,
                )
            &&& forall|i: int, j: int|
                0 <= i < j < found.len() ==> crate::order::key_lt(
                    crate::order::text_key((#[trigger] found[i]).raw_text),
                    crate::order::text_key((#[trigger] found[j]).raw_text),
                )
        }),
{
    let all = unsorted_suggestions(expanded, flags, word, skip_hidden);
    let keys = unprocessed_keys(all);
    let found = pattern_suggestions(expanded, flags, word, skip_hidden);
    let kept = offered(expanded, skip_hidden);
    let keep = |m: GlobMatch| is_offered(m.quoted_rhs@, expanded.wants_hidden, skip_hidden);
    crate::order::lemma_sorted_dedup_items(all, keys);
    let order = crate::order::dedup_order(keys, crate::order::stable_order(keys));
    crate::order::lemma_stable_order_exists(keys);
    crate::order::lemma_dedup_within(
        keys,
        crate::order::stable_order(keys),
        keys.len() as int,
    );
    assert forall|i: int| 0 <= i < found.len() implies is_from_match(
        #[trigger] found[i],
        expanded,
        flags,
        word,
        skip_hidden,
    ) by {
        let k = order[i] as int;
        assert(found[i] == all[k]);
        lemma_filter_members(expanded.matches@, keep, k);
        assert(is_offered(kept[k].quoted_rhs@, expanded.wants_hidden, skip_hidden));
    }
    assert forall|i: int, j: int| 0 <= i < j < found.len() implies crate::order::key_lt(
        crate::order::text_key((#[trigger] found[i]).raw_text),
        crate::order::text_key((#[trigger] found[j]).raw_text),
    ) by {
        assert(keys[order[i] as int] == crate::order::text_key(found[i].raw_text));
        assert(keys[order[j] as int] == crate::order::text_key(found[j].raw_text));
    }
}

/// A match that is offered is suggested, as long as no more matches are offered than
/// are looked at.
pub proof fn lemma_no_file_is_missed(
    expanded: PathPatternExpansion,
    flags: CompletionFlags,
    word: Seq<char>,
    skip_hidden: bool,
    k: int,
)
    requires
        offered(expanded, skip_hidden).len() <= MAX_GLOB_RESULTS,
        0 <= k < expanded.matches@.len(),
        is_offered(expanded.matches@[k].quoted_rhs@, expanded.wants_hidden, skip_hidden),
    ensures
        exists|i: int|
            0 <= i < pattern_suggestions(expanded, flags, word, skip_hidden).len() && (
            #[trigger] pattern_suggestions(expanded, flags, word, skip_hidden)[i]).raw_text
                == expanded.matches@[k].unexpanded@,
{
    let all = unsorted_suggestions(expanded, flags, word, skip_hidden);
    let keys = unprocessed_keys(all);
    let keep = |m: GlobMatch| is_offered(m.quoted_rhs@, expanded.wants_hidden, skip_hidden);
    let p = lemma_filter_contains(expanded.matches@, keep, k);
    assert(all[p].raw_text == expanded.matches@[k].unexpanded@);
    let (i, x) = crate::order::lemma_sorted_dedup_contains(all, keys, p);
    assert(keys[x] == crate::order::text_key(all[x].raw_text));
    assert(keys[p] == crate::order::text_key(all[p].raw_text));
    crate::order::lemma_text_key_injective(all[x].raw_text, all[p].raw_text);
    assert(pattern_suggestions(expanded, flags, word, skip_hidden)[i] == all[x]);
}

/// A name that starts with a dot is offered only where the pattern asks for such
/// names, or they are not to be skipped; the directory itself and its parent never
/// are.
pub proof fn lemma_hidden_names_are_not_offered(
    quoted_rhs: Seq<char>,
    wants_hidden: bool,
    skip_hidden: bool,
)
    requires
        quoted_rhs.len() > 0,
        quoted_rhs[0] == '.',
        quoted_rhs.len() == 1 || quoted_rhs[1] != '/',
    ensures
        is_offered(quoted_rhs, wants_hidden, skip_hidden) ==> wants_hidden || !skip_hidden,
        quoted_rhs.len() == 1 ==> !is_offered(quoted_rhs, wants_hidden, skip_hidden),
        quoted_rhs == seq!['.', '.'] ==> !is_offered(quoted_rhs, wants_hidden, skip_hidden),
{
    reveal_strlit(".");
    reveal_strlit("..");
    reveal_strlit("./");
    assert("."@ =~= seq!['.']);
    assert(".."@ =~= seq!['.', '.']);
    assert("."@ =~= quoted_rhs.take(1));
    assert("."@.is_prefix_of(quoted_rhs));
    if "./"@.is_prefix_of(quoted_rhs) {
        assert("./"@[1] == quoted_rhs[1]);
    }
    if quoted_rhs.len() == 1 {
        assert(quoted_rhs =~= "."@);
    }
}

/// Whether the name at the end of a match is one that is offered: not that of the
/// directory itself or of its parent, and no hidden name, unless those are wanted or not
/// to be skipped. (What starts with a dot and a slash is a path, and no hidden name.)
pub open spec fn is_wanted_name(name: Seq<char>, wants_hidden: bool, skip_hidden: bool) -> bool {
    &&& name != seq!['.']
    &&& name != seq!['.', '.']
    &&& name.len() == 0 || name[0] != '.' || wants_hidden || !skip_hidden || (name.len() > 1
        && name[1] == '/')
}

/// Exactly the wanted names are offered.
pub proof fn lemma_wanted_names_are_offered(
    name: Seq<char>,
    wants_hidden: bool,
    skip_hidden: bool,
)
    ensures
        is_offered(name, wants_hidden, skip_hidden) <==> is_wanted_name(
            name,
            wants_hidden,
            skip_hidden,
        ),
{
    reveal_strlit(".");
    reveal_strlit("..");
    reveal_strlit("./");
    assert("."@ =~= seq!['.']);
    assert(".."@ =~= seq!['.', '.']);
    if name.len() > 0 {
        assert("."@.is_prefix_of(name) <==> name[0] == '.') by {
            if name[0] == '.' {
                assert("."@ =~= name.take(1));
            } else if "."@.is_prefix_of(name) {
                assert("."@[0] == name[0]);
            }
        }
    }
    if "./"@.is_prefix_of(name) {
        assert("./"@[0] == name[0] && "./"@[1] == name[1]);
    }
    if name.len() > 1 && name[0] == '.' && name[1] == '/' {
        assert("./"@ =~= name.take(2));
    }
}

/// `u` is the suggestion for the match `m` of a pattern: its text as the user would write
/// it, with the path on disk and the part that the pattern fixes.
pub open spec fn is_suggestion_of_match(
    u: UnprocessedView,
    m: GlobMatch,
    expanded: PathPatternExpansion,
    flags: CompletionFlags,
    word: Seq<char>,
) -> bool {
    &&& u.raw_text == m.unexpanded@
    &&& u.full_path == Some(m.path)
    &&& u.flags == flags
    &&& u.word_under_cursor == word
    &&& !u.is_git_command
    &&& match expanded.static_prefix {
        Some(p) => u.custom_prefix == Some(p@),
        None => u.custom_prefix is None,
    }
}

/// Every match with a wanted name is suggested, as long as the pattern has no more than
/// ten thousand matches.
pub proof fn lemma_every_wanted_file_is_suggested(
    expanded: PathPatternExpansion,
    flags: CompletionFlags,
    word: Seq<char>,
    skip_hidden: bool,
    k: int,
) -> (i: int)
    requires
        expanded.matches@.len() <= 10_000,
        0 <= k < expanded.matches@.len(),
        is_wanted_name(expanded.matches@[k].quoted_rhs@, expanded.wants_hidden, skip_hidden),
    ensures
        0 <= i < pattern_suggestions(expanded, flags, word, skip_hidden).len(),
        pattern_suggestions(expanded, flags, word, skip_hidden)[i].raw_text
            == expanded.matches@[k].unexpanded@,
{
    lemma_wanted_names_are_offered(
        expanded.matches@[k].quoted_rhs@,
        expanded.wants_hidden,
        skip_hidden,
    );
    crate::lists::lemma_filter_len(
        expanded.matches@,
        |m: GlobMatch| is_offered(m.quoted_rhs@, expanded.wants_hidden, skip_hidden),
    );
    lemma_no_file_is_missed(expanded, flags, word, skip_hidden, k);
    choose|i: int|
        0 <= i < pattern_suggestions(expanded, flags, word, skip_hidden).len() && (
        #[trigger] pattern_suggestions(expanded, flags, word, skip_hidden)[i]).raw_text
            == expanded.matches@[k].unexpanded@
}

/// What is suggested for a pattern are its matches with a wanted name, and nothing else.
pub proof fn lemma_only_wanted_files_are_suggested(
    expanded: PathPatternExpansion,
    flags: CompletionFlags,
    word: Seq<char>,
    skip_hidden: bool,
    i: int,
) -> (k: int)
    requires
        0 <= i < pattern_suggestions(expanded, flags, word, skip_hidden).len(),
    ensures
        0 <= k < expanded.matches@.len(),
        is_wanted_name(expanded.matches@[k].quoted_rhs@, expanded.wants_hidden, skip_hidden),
        is_suggestion_of_match(
            pattern_suggestions(expanded, flags, word, skip_hidden)[i],
            expanded.matches@[k],
            expanded,
            flags,
            word,
        ),
{
    let u = pattern_suggestions(expanded, flags, word, skip_hidden)[i];
    lemma_pattern_suggestions(expanded, flags, word, skip_hidden);
    assert(is_from_match(u, expanded, flags, word, skip_hidden));
    let m = choose|m: GlobMatch|
        expanded.matches@.contains(m) && #[trigger] is_offered(
            m.quoted_rhs@,
            expanded.wants_hidden,
            skip_hidden,
        ) && u == match_suggestion(m, text_view(expanded.static_prefix), flags, word);
    lemma_wanted_names_are_offered(m.quoted_rhs@, expanded.wants_hidden, skip_hidden);
    choose|k: int| 0 <= k < expanded.matches@.len() && expanded.matches@[k] == m
}

/// The suggestions for a pattern stand in the order of their texts, character by
/// character, and no text is there twice.
pub proof fn lemma_files_stand_in_order(
    expanded: PathPatternExpansion,
    flags: CompletionFlags,
    word: Seq<char>,
    skip_hidden: bool,
    i: int,
    j: int,
)
    requires
        0 <= i < j < pattern_suggestions(expanded, flags, word, skip_hidden).len(),
    ensures
        crate::order::text_before(
            pattern_suggestions(expanded, flags, word, skip_hidden)[i].raw_text,
            pattern_suggestions(expanded, flags, word, skip_hidden)[j].raw_text,
        ),
{
    let found = pattern_suggestions(expanded, flags, word, skip_hidden);
    lemma_pattern_suggestions(expanded, flags, word, skip_hidden);
    assert(crate::order::key_lt(
        crate::order::text_key(found[i].raw_text),
        crate::order::text_key(found[j].raw_text),
    ));
    crate::order::lemma_texts_are_sorted_by_character(found[i].raw_text, found[j].raw_text);
}

/// A plain file that neither its owner nor its group nor anyone else may execute is not
/// runnable; everything else is: a file that one of them may execute, a link, a
/// directory, and whatever nothing is known of.
pub proof fn lemma_what_can_be_run(path: Option<FullPath>)
    ensures
        !is_runnable(path) <==> (path matches Some(p) && !p.stat.is_symlink
            && (p.stat.target matches Some(FileKind::File { mode }) && mode & 0o100 == 0 && mode
            & 0o010 == 0 && mode & 0o001 == 0)),
{
    if let Some(p) = path {
        if let Some(FileKind::File { mode }) = p.stat.target {
            assert(mode & 0o111 == 0 <==> mode & 0o100 == 0 && mode & 0o010 == 0 && mode & 0o001
                == 0) by (bit_vector);
        }
    }
}

/// Of suggestions, those that can be run are kept, in their order; no other is.
pub proof fn lemma_what_can_be_run_is_kept(list: Seq<UnprocessedView>, x: UnprocessedView)
    ensures
        runnable_only(list).contains(x) <==> list.contains(x) && is_runnable(x.full_path),
        runnable_only(list.push(x)) == (if is_runnable(x.full_path) {
            runnable_only(list).push(x)
        } else {
            runnable_only(list)
        }),
{
    let keep = |u: UnprocessedView| is_runnable(u.full_path);
    if list.contains(x) && is_runnable(x.full_path) {
        let k = choose|k: int| 0 <= k < list.len() && list[k] == x;
        let p = lemma_filter_contains(list, keep, k);
        assert(runnable_only(list)[p] == x);
    }
    if runnable_only(list).contains(x) {
        let i = choose|i: int| 0 <= i < runnable_only(list).len() && runnable_only(list)[i] == x;
        lemma_filter_members(list, keep, i);
    }
    let grown = list.push(x);
    lemma_filter_step(grown, keep, list.len() as int);
    assert(grown.take(list.len() as int) =~= list);
    assert(grown.take(grown.len() as int) =~= grown);
}

} // verus!
