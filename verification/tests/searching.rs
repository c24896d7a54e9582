use flyline::comp_spec::ProgrammableCompletions;
use flyline::context::{CompletionContext, SubString};
use flyline::files::{GlobMatch, PathPatternExpansion};
use flyline::fuzzy::FuzzyCutoffs;
use flyline::paths::DirEntry;
use flyline::search::{
    complete_with, fallback_filename_pattern, filename_pattern, first_word_pattern, fuzzy_stem,
    gen_completions_internal, gen_completions_uncomitted, join_glob_matches, keep_scored,
    GlobAnswer, SearchMode, SearchOutcome, ShellAnswers,
};
use flyline::suggestion::{
    ActiveSuggestionsBuilder, CompType, CompletionFlags, FullPath, PathStat, ProcessedSuggestion,
    QuoteType, UnprocessedSuggestion,
};
use flyline::tab_complete::{apply_tab_complete_to_buffer, TabCompleteBufferOutcome};
use flyline::textbuffer::TextBuffer;
use flyline::words::{CommandKind, CommandWordInfo, UserInfo};

const MANUAL: SearchMode = SearchMode {
    auto_started: false,
    will_run_flycomp: false,
    cutoffs: FuzzyCutoffs { medium: 1, high: 1 },
};

const AUTO: SearchMode = SearchMode {
    auto_started: true,
    will_run_flycomp: false,
    cutoffs: FuzzyCutoffs { medium: 1, high: 1 },
};

fn strings(list: &[&str]) -> Vec<String> {
    list.iter().map(|s| s.to_string()).collect()
}

fn context(before: &str, left: &str, right: &str, comp_types: Vec<CompType>) -> CompletionContext {
    CompletionContext {
        start: 0,
        before: before.to_string(),
        left: left.to_string(),
        right: right.to_string(),
        after: String::new(),
        is_inside_quotes: false,
        comp_types,
    }
}

fn path(p: &str) -> FullPath {
    FullPath { path: p.to_string(), stat: PathStat { is_symlink: false, target: None } }
}

fn glob(names: &[&str]) -> GlobAnswer {
    GlobAnswer {
        expanded: PathPatternExpansion {
            static_prefix: None,
            wants_hidden: false,
            matches: names
                .iter()
                .map(|n| GlobMatch {
                    path: path(n),
                    unexpanded: n.to_string(),
                    quoted_rhs: n.to_string(),
                })
                .collect(),
        },
        quote_type: None,
    }
}

fn processed(s: &str, prefix: &str, suffix: &str) -> ProcessedSuggestion {
    ProcessedSuggestion::new(s.to_string(), prefix.to_string(), suffix.to_string())
}

fn command(word: &str) -> CompType {
    CompType::CommandComp { command_word: word.to_string() }
}

fn fuzzy_command(word: &str) -> CompType {
    CompType::FuzzyCommandComp { command_word: word.to_string() }
}

fn with_programmable(list: &[&str], useful: bool) -> ShellAnswers {
    let mut a = ShellAnswers::nothing();
    a.comp_spec.programmable = Some(ProgrammableCompletions {
        completions: strings(list),
        flags: CompletionFlags::default(),
        compspec_was_useful: useful,
    });
    a
}

fn found_by(ctx: &CompletionContext, answers: &Vec<ShellAnswers>) -> ActiveSuggestionsBuilder {
    match gen_completions_uncomitted(ctx, &MANUAL, answers) {
        SearchOutcome::Found(builder) => builder,
        other => panic!("{other:?}"),
    }
}

fn texts(b: &ActiveSuggestionsBuilder) -> Vec<&str> {
    b.unprocessed.iter().map(|u| u.raw_text.as_str()).collect()
}

fn processed_texts(b: &ActiveSuggestionsBuilder) -> Vec<&str> {
    b.processed.iter().map(|p| p.s.as_str()).collect()
}

#[test]
fn each_way_finds_its_own() {
    let ctx = context("", "ec", "", vec![]);
    let mut a = ShellAnswers::nothing();
    a.words = vec![CommandWordInfo {
        kind: CommandKind::Other,
        command: "echo".to_string(),
        description: "builtin".to_string(),
    }];
    let b = complete_with(&ctx, &CompType::FirstWord, &MANUAL, &a).unwrap();
    assert_eq!(processed_texts(&b), vec!["echo"]);
    assert_eq!(b.comp_type, CompType::FirstWord);
    assert!(b.auto_accept_if_solo && b.insert_common_prefix);
    let b = complete_with(&ctx, &CompType::FuzzyFirstWord, &MANUAL, &a).unwrap();
    assert_eq!(b.comp_type, CompType::FuzzyFirstWord);
    assert!(complete_with(&ctx, &CompType::NoCompletion, &MANUAL, &a).is_none());

    let ctx = context("ssh ", "us@lo", "", vec![]);
    a.hosts = strings(&["localhost"]);
    let b = complete_with(&ctx, &CompType::HostnameExpansion, &MANUAL, &a).unwrap();
    assert_eq!(processed_texts(&b), vec!["us@localhost"]);

    let ctx = context("cd ", "~ro", "", vec![]);
    a.users = vec![UserInfo { username: "root".to_string(), home_dir: "/root".to_string() }];
    let b = complete_with(&ctx, &CompType::TildeExpansion, &MANUAL, &a).unwrap();
    assert_eq!(processed_texts(&b), vec!["/root/"]);
}

#[test]
fn test_env_var_completion_inside_quotes_has_no_trailing_space() {
    let mut ctx = context("echo \"", "$USER", "", vec![]);
    ctx.is_inside_quotes = true;
    let mut a = ShellAnswers::nothing();
    a.vars = strings(&["$USER"]);
    let b = complete_with(&ctx, &CompType::EnvVariable, &MANUAL, &a).unwrap();
    assert_eq!(b.processed[0].suffix, "");
}

#[test]
fn test_env_var_completion_outside_quotes_has_trailing_space() {
    let ctx = context("echo ", "$USER", "", vec![]);
    let mut a = ShellAnswers::nothing();
    a.vars = strings(&["$USER"]);
    let b = complete_with(&ctx, &CompType::EnvVariable, &MANUAL, &a).unwrap();
    assert_eq!(b.processed[0].suffix, " ");
    a.vars = vec![];
    assert!(complete_with(&ctx, &CompType::EnvVariable, &MANUAL, &a).is_none());
}

#[test]
fn a_useless_completion_may_ask_for_one_to_be_made() {
    let ctx = context("tool ", "", "", vec![]);
    let a = with_programmable(&[], false);
    assert!(complete_with(&ctx, &command("tool"), &MANUAL, &a).is_none());
    let running = SearchMode { will_run_flycomp: true, ..MANUAL };
    let b = complete_with(&ctx, &command("tool"), &running, &a).unwrap();
    assert!(b.should_run_flycomp && b.is_empty());
    let useful = with_programmable(&[], true);
    assert!(complete_with(&ctx, &command("tool"), &running, &useful).is_none());
    let found = with_programmable(&["x"], true);
    let b = complete_with(&ctx, &command("tool"), &running, &found).unwrap();
    assert!(!b.should_run_flycomp);
    assert_eq!(b.comp_type, command("tool"));
}

#[test]
fn git_commit_fuzzy_command_comp() {
    let ctx = context("git ", "cmomit", "", vec![]);
    let a = with_programmable(&["checkout", "clone", "commit"], true);
    let b = complete_with(&ctx, &fuzzy_command("git"), &MANUAL, &a).unwrap();
    assert!(texts(&b).contains(&"commit"));
    assert!(!texts(&b).contains(&"clone"));
    assert_eq!(b.comp_type, fuzzy_command("git"));
    assert!(!b.auto_accept_if_solo && !b.insert_common_prefix);
    assert_eq!(b.unprocessed[0].word_under_cursor, "c");
    let strict = SearchMode { cutoffs: FuzzyCutoffs { medium: 1, high: 30000 }, ..MANUAL };
    assert!(complete_with(&ctx, &fuzzy_command("git"), &strict, &a).is_none());
}

#[test]
fn only_suggestions_with_a_score_are_kept() {
    let ctx = context("git ", "c", "", vec![]);
    let a = with_programmable(&["checkout", "clone", "commit"], true);
    let mut found = complete_with(&ctx, &command("git"), &MANUAL, &a).unwrap();
    found.processed = vec![processed("x", "", " "), processed("y", "", " ")];
    let kept = keep_scored(found, &vec![None, Some(0)], &vec![Some(3), None, Some(1)]);
    assert_eq!(processed_texts(&kept), vec!["y"]);
    assert_eq!(texts(&kept), vec!["checkout", "commit"]);
    assert!(!kept.auto_accept_if_solo && !kept.insert_common_prefix);
}

#[test]
fn stems_of_words() {
    assert_eq!(fuzzy_stem("--stag").as_deref(), Some("--"));
    assert_eq!(fuzzy_stem("--").as_deref(), Some("--"));
    assert_eq!(fuzzy_stem("-s").as_deref(), Some("-"));
    assert_eq!(fuzzy_stem("cm").as_deref(), Some("c"));
    assert_eq!(fuzzy_stem("é").as_deref(), Some("é"));
    assert_eq!(fuzzy_stem("c"), None);
    assert_eq!(fuzzy_stem(""), None);
}

#[test]
fn the_place_of_the_cursor_makes_no_difference_to_a_command() {
    let a = with_programmable(&["--staged", "--stat"], true);
    for comp_type in [command("git"), fuzzy_command("git")] {
        let middle = complete_with(
            &context("git diff ", "--st", "ag", vec![]),
            &comp_type,
            &MANUAL,
            &a,
        );
        let end =
            complete_with(&context("git diff ", "--stag", "", vec![]), &comp_type, &MANUAL, &a);
        assert_eq!(middle, end);
    }
}

#[test]
fn patterns_that_are_expanded() {
    let ctx = context("mycmd ", "./abc/f", "/baz", vec![]);
    assert_eq!(filename_pattern(&ctx), "./abc/f*/baz");
    assert_eq!(fallback_filename_pattern(&ctx), "./abc/f*");
    assert_eq!(first_word_pattern("./x"), "./x*");
}

#[test]
fn mid_word_completion() {
    let ctx = context("mycmd ", "./abc/f", "/baz", vec![CompType::FilenameExpansion]);
    let mut a = ShellAnswers::nothing();
    a.glob = glob(&["./abc/foo/baz"]);
    let found = found_by(&ctx, &vec![a]);
    assert_eq!(found.comp_type, CompType::FilenameExpansion);
    assert_eq!(texts(&found), vec!["./abc/foo/baz"]);
    assert!(!found.insert_common_prefix);
    let b = gen_completions_internal(Some(found), &vec![processed("foo/baz", "./abc/", " ")]).unwrap();

    let mut buffer = TextBuffer::new("mycmd ./abc/f/baz");
    let outcome = apply_tab_complete_to_buffer(&mut buffer, &b, &ctx.word_substring(), &None);
    assert_eq!(outcome, TabCompleteBufferOutcome::SoloAccepted);
    assert_eq!(buffer.buffer(), "mycmd ./abc/foo/baz ");
}

#[test]
fn mid_word_completion_multiple() {
    let ctx = context("mycmd ", "./fo", "/barA", vec![]);
    let mut a = ShellAnswers::nothing();
    a.glob = glob(&["./foo1/barA", "./foo2/barA", "./foo3/barA"]);
    let found = complete_with(&ctx, &CompType::FilenameExpansion, &MANUAL, &a);
    let done = vec![
        processed("foo1/barA", "./", " "),
        processed("foo2/barA", "./", " "),
        processed("foo3/barA", "./", " "),
    ];
    let b = gen_completions_internal(found, &done).unwrap();
    assert_eq!(b.common_prefix, None);
    let mut buffer = TextBuffer::new("mycmd ./fo/barA");
    let outcome = apply_tab_complete_to_buffer(&mut buffer, &b, &ctx.word_substring(), &None);
    assert_eq!(
        outcome,
        TabCompleteBufferOutcome::Pending {
            final_wuc: SubString { s: "./fo/barA".to_string(), start: 6 }
        }
    );
    assert_eq!(buffer.buffer(), "mycmd ./fo/barA");
}

#[test]
fn a_word_that_matches_nothing_is_completed_left_of_the_cursor() {
    let ctx = context("mycmd ", "f", "oo", vec![]);
    let mut a = ShellAnswers::nothing();
    a.fallback_glob = glob(&["file"]);
    let b = complete_with(&ctx, &CompType::FilenameExpansion, &MANUAL, &a).unwrap();
    assert_eq!(texts(&b), vec!["fileoo"]);
    assert_eq!(b.unprocessed[0].full_path, None);
    assert!(b.unprocessed[0].flags.no_suffix_desired);
    // Nothing is left out where the cursor is at the end.
    let ctx = context("mycmd ", "foo", "", vec![]);
    assert!(complete_with(&ctx, &CompType::FilenameExpansion, &MANUAL, &a).is_none());
}

#[test]
fn fuzzy_files_are_never_accepted_unasked() {
    let entry = |name: &str| DirEntry {
        name: name.to_string(),
        path: path(name),
        is_dir: false,
        entries: None,
    };
    let ctx = context("cat ", "./abc/fo", "/ba", vec![]);
    let mut a = ShellAnswers::nothing();
    a.dir.dequoted = "./abc/fo/ba".to_string();
    a.dir.base.entries = Some(vec![DirEntry {
        name: "foo".to_string(),
        path: path("foo"),
        is_dir: true,
        entries: Some(vec![entry("baz")]),
    }]);
    let b = complete_with(&ctx, &CompType::FuzzyFilenameExpansion, &MANUAL, &a).unwrap();
    assert_eq!(texts(&b), vec!["./abc/foo/baz"]);
    assert!(!b.auto_accept_if_solo && !b.insert_common_prefix);

    a.dir.base.entries = Some(vec![]);
    a.fallback_dir.dequoted = "./abc/fo".to_string();
    a.fallback_dir.base.entries = Some(vec![entry("foo")]);
    let b = complete_with(&ctx, &CompType::FuzzyFilenameExpansion, &MANUAL, &a).unwrap();
    assert_eq!(texts(&b), vec!["./abc/foo/ba"]);
    assert!(b.unprocessed[0].flags.no_suffix_desired);
}

#[test]
fn files_are_not_offered_unasked_for_an_empty_word() {
    let mut a = ShellAnswers::nothing();
    a.glob = glob(&["file"]);
    let ctx = context("cat ", " ", "", vec![]);
    for way in [CompType::FilenameExpansion, CompType::FuzzyFilenameExpansion] {
        assert!(complete_with(&ctx, &way, &AUTO, &a).is_none());
    }
    assert!(complete_with(&ctx, &CompType::FilenameExpansion, &MANUAL, &a).is_some());
}

#[test]
fn glob_preview_vs_manual_completion_difference() {
    let ctx = context("ls ", "*.txt", "", vec![]);
    let mut a = ShellAnswers::nothing();
    a.glob = glob(&["a.txt", "b c.txt", "d.txt"]);
    a.glob_processed =
        vec![processed("a.txt", "", " "), processed("b c.txt", "", " "), processed("d.txt", "", " ")];
    let b = complete_with(&ctx, &CompType::GlobExpansion, &AUTO, &a).unwrap();
    assert_eq!(processed_texts(&b), vec!["a.txt", "b c.txt", "d.txt"]);
    let b = complete_with(&ctx, &CompType::GlobExpansion, &MANUAL, &a).unwrap();
    assert_eq!(processed_texts(&b), vec!["a.txt b c.txt d.txt "]);
    assert_eq!(b.processed[0].suffix, "");
    a.glob = glob(&["x/a.txt"]);
    a.glob_processed = vec![processed("a.txt", "x/", " "), processed("late.txt", "x/", " ")];
    let b = complete_with(&ctx, &CompType::GlobExpansion, &MANUAL, &a).unwrap();
    assert_eq!(b.processed, vec![processed("a.txt", "x/", " ")]);
    a.glob = glob(&[]);
    assert!(complete_with(&ctx, &CompType::GlobExpansion, &AUTO, &a).is_none());
}

#[test]
fn joined_matches_keep_their_quoting() {
    let list = vec![processed("b", "a/", "\" "), processed("c", "a/", "\" ")];
    assert_eq!(
        join_glob_matches(&list, Some(QuoteType::DoubleQuote)),
        "\"a/b\" \"a/c\" "
    );
    let list = vec![processed("b", "", "' "), processed("c", "", "' ")];
    assert_eq!(join_glob_matches(&list, Some(QuoteType::SingleQuote)), "'b' 'c' ".to_string());
    assert_eq!(join_glob_matches(&list, Some(QuoteType::Backslash)), "b c' ");
    assert_eq!(join_glob_matches(&vec![], None), "");
}

#[test]
fn the_first_way_that_finds_something_wins() {
    let ways = vec![command("git"), fuzzy_command("git"), CompType::FilenameExpansion];
    let ctx = context("git ", "sym", "", ways);
    // Nothing is found while only the first two have been asked.
    let some = vec![with_programmable(&[], true), with_programmable(&["zzz"], true)];
    assert_eq!(gen_completions_uncomitted(&ctx, &MANUAL, &some), SearchOutcome::Ask(2));
    let mut files = ShellAnswers::nothing();
    files.glob = glob(&["symlink"]);
    let all = vec![with_programmable(&[], true), with_programmable(&["zzz"], true), files];
    let b = found_by(&ctx, &all);
    assert_eq!(b.comp_type, CompType::FilenameExpansion);
    // An answer that comes after the winner changes nothing.
    let ctx = context("git ", "sta", "", vec![command("git"), CompType::FilenameExpansion]);
    let first = with_programmable(&["status"], true);
    let b = found_by(&ctx, &vec![first]);
    let again = vec![with_programmable(&["status"], true), ShellAnswers::nothing()];
    assert_eq!(found_by(&ctx, &again), b);
    assert_eq!(gen_completions_uncomitted(&ctx, &MANUAL, &vec![]), SearchOutcome::Ask(0));
    let nothing = vec![ShellAnswers::nothing(), ShellAnswers::nothing()];
    assert_eq!(gen_completions_uncomitted(&ctx, &MANUAL, &nothing), SearchOutcome::Nothing);
}

#[test]
fn the_common_prefix_waits_for_all_suggestions() {
    let raw = |text: &str| UnprocessedSuggestion {
        raw_text: text.to_string(),
        full_path: None,
        flags: CompletionFlags::default(),
        word_under_cursor: "f".to_string(),
        is_git_command: false,
        custom_prefix: None,
    };
    let builder = || {
        ActiveSuggestionsBuilder::from_unprocessed(vec![raw("foo1/"), raw("foo2/"), raw("foo3/")])
    };
    let done = |names: &[&str]| -> Vec<ProcessedSuggestion> {
        names.iter().map(|n| processed(n, "", "")).collect()
    };
    let b = gen_completions_internal(Some(builder()), &done(&["foo1/", "foo2/"])).unwrap();
    assert_eq!((b.processed.len(), b.unprocessed.len()), (2, 1));
    assert_eq!(b.common_prefix, None);
    let b = gen_completions_internal(Some(builder()), &done(&["foo1/", "foo2/", "foo3/"])).unwrap();
    assert_eq!(b.common_prefix.as_deref(), Some("foo"));
    let unwanted = builder().with_insert_common_prefix(false);
    let b = gen_completions_internal(Some(unwanted), &done(&["foo1/", "foo2/", "foo3/"])).unwrap();
    assert_eq!(b.common_prefix, None);
    let b = gen_completions_internal(Some(builder()), &done(&["a", "b", "c"])).unwrap();
    assert_eq!(b.common_prefix, None);
    assert!(gen_completions_internal(None, &vec![]).is_none());
}

#[test]
fn finish_tab_complete_inserts_common_prefix() {
    let ctx = context("mycmd ", "f", "", vec![]);
    let mut a = ShellAnswers::nothing();
    a.glob = glob(&["foo1/", "foo2/", "foo3/"]);
    let found = complete_with(&ctx, &CompType::FilenameExpansion, &MANUAL, &a);
    let done = vec![processed("foo1/", "", ""), processed("foo2/", "", ""), processed("foo3/", "", "")];
    let b = gen_completions_internal(found, &done).unwrap();
    let mut buffer = TextBuffer::new("mycmd f");
    let outcome = apply_tab_complete_to_buffer(&mut buffer, &b, &ctx.word_substring(), &None);
    assert_eq!(
        outcome,
        TabCompleteBufferOutcome::Pending {
            final_wuc: SubString { s: "foo".to_string(), start: 6 }
        }
    );
    assert_eq!(buffer.buffer(), "mycmd foo");
}

#[test]
fn finish_tab_complete_auto_accepts_solo_unprocessed_suggestion() {
    let mut buffer = TextBuffer::new("mycmd bar.tx");
    let wuc = SubString { s: "bar.tx".to_string(), start: 6 };
    let builder = ActiveSuggestionsBuilder::from_unprocessed(vec![UnprocessedSuggestion {
        raw_text: "bar.txt".to_string(),
        full_path: None,
        flags: CompletionFlags::default(),
        word_under_cursor: "bar.tx".to_string(),
        is_git_command: false,
        custom_prefix: None,
    }]);
    let done = Some(processed("bar.txt", "", " "));
    let outcome = apply_tab_complete_to_buffer(&mut buffer, &builder, &wuc, &done);
    assert_eq!(outcome, TabCompleteBufferOutcome::SoloAccepted);
    assert_eq!(buffer.buffer(), "mycmd bar.txt ");
}

#[test]
fn alias_gd_dashstag_expands_to_dashstaged() {
    let ctx = context("gd ", "--stag", "", vec![command("gd")]);
    let mut a = with_programmable(&["--staged"], true);
    a.alias = Some("git diff".to_string());
    let found = found_by(&ctx, &vec![a]);
    assert_eq!(found.comp_type, command("gd"));
    assert!(found.unprocessed[0].is_git_command);
    let b = gen_completions_internal(Some(found), &vec![processed("--staged", "", " ")]).unwrap();
    let mut buffer = TextBuffer::new("gd --stag");
    let outcome = apply_tab_complete_to_buffer(&mut buffer, &b, &ctx.word_substring(), &None);
    assert_eq!(outcome, TabCompleteBufferOutcome::SoloAccepted);
    assert_eq!(buffer.buffer(), "gd --staged ");
}

#[test]
fn a_word_that_moved_is_left_alone() {
    let mut buffer = TextBuffer::new("other text");
    let wuc = SubString { s: "bar".to_string(), start: 6 };
    let mut builder = ActiveSuggestionsBuilder::from_processed(vec![
        processed("bar1", "", ""),
        processed("bar2", "", ""),
    ]);
    builder.set_common_prefix();
    assert_eq!(builder.common_prefix.as_deref(), Some("bar"));
    let outcome = apply_tab_complete_to_buffer(&mut buffer, &builder, &wuc, &None);
    assert_eq!(
        outcome,
        TabCompleteBufferOutcome::Pending {
            final_wuc: SubString { s: "bar".to_string(), start: 6 }
        }
    );
    assert_eq!(buffer.buffer(), "other text");
}
