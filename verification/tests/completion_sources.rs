use flyline::comp_spec::{
    comp_spec_request, completes_flyline, flyline_value, run_comp_spec_completion,
    run_flyline_compspec, CompSpecAnswers, FlylineCandidate, ProgrammableCompletions,
};
use flyline::context::CompletionContext;
use flyline::files::{
    filter_out_non_executables, tab_complete_glob_expansion, tab_complete_with_expanded_pattern,
    GlobMatch, PathPatternExpansion, MAX_GLOB_RESULTS,
};
use flyline::fuzzy::{fuzzy_match_with_threshold, FuzzyCutoffs, FuzzyMatchThreshold};
use flyline::paths::{
    entry_hits, fuzzy_glob_recursive, fuzzy_query, path_from_segments, path_prefix_for_output,
    rank_hits, split_nonempty_path_segments, suggest_hits, tab_complete_fuzzy_filename,
    tab_complete_fuzzy_filename_from_word, DirEntry, FuzzyHit,
};
use flyline::suggestion::{
    CompletionFlags, FileKind, FullPath, PathStat, ProcessedSuggestion, QuoteType,
    SuggestionDescription, UnprocessedSuggestion,
};
use flyline::words::{
    rank_words, tab_complete_first_word, tab_complete_fuzzy_first_word, tab_complete_hostname_expansion,
    tab_complete_tilde_expansion, CommandKind, CommandWordInfo, UserInfo,
};

const CUTOFFS: FuzzyCutoffs = FuzzyCutoffs { medium: 1, high: 1 };

fn strings(list: &[&str]) -> Vec<String> {
    list.iter().map(|s| s.to_string()).collect()
}

fn path(p: &str) -> FullPath {
    FullPath { path: p.to_string(), stat: PathStat { is_symlink: false, target: None } }
}

fn file(p: &str, kind: FileKind) -> FullPath {
    FullPath { path: p.to_string(), stat: PathStat { is_symlink: false, target: Some(kind) } }
}

fn found(rhs: &str, full: FullPath) -> GlobMatch {
    GlobMatch { path: full, unexpanded: rhs.to_string(), quoted_rhs: rhs.to_string() }
}

fn pattern(names: &[&str], wants_hidden: bool) -> PathPatternExpansion {
    PathPatternExpansion {
        static_prefix: None,
        wants_hidden,
        matches: names.iter().map(|n| found(n, path(n))).collect(),
    }
}

fn nothing() -> PathPatternExpansion {
    pattern(&[], false)
}

fn texts(list: &[UnprocessedSuggestion]) -> Vec<&str> {
    list.iter().map(|u| u.raw_text.as_str()).collect()
}

fn processed_texts(list: &[ProcessedSuggestion]) -> Vec<&str> {
    list.iter().map(|p| p.s.as_str()).collect()
}

fn context(before: &str, left: &str, right: &str) -> CompletionContext {
    CompletionContext {
        start: 0,
        before: before.to_string(),
        left: left.to_string(),
        right: right.to_string(),
        after: String::new(),
        is_inside_quotes: false,
        comp_types: vec![],
    }
}

fn word(kind: CommandKind, command: &str, description: &str) -> CommandWordInfo {
    CommandWordInfo {
        kind,
        command: command.to_string(),
        description: description.to_string(),
    }
}

fn dir(name: &str, entries: Vec<DirEntry>) -> DirEntry {
    DirEntry { name: name.to_string(), path: path(name), is_dir: true, entries: Some(entries) }
}

fn leaf(name: &str) -> DirEntry {
    DirEntry { name: name.to_string(), path: path(name), is_dir: false, entries: None }
}

// ------- patterns -----------------------------------------------------------

#[test]
fn matches_are_sorted_and_unique() {
    let p = pattern(&["b", "a", "c", "a"], false);
    let flags = CompletionFlags::default();
    let r = tab_complete_with_expanded_pattern(&p, flags, "w", true);
    assert_eq!(texts(&r), vec!["a", "b", "c"]);
    assert_eq!(r[0].word_under_cursor, "w");
    assert_eq!(r[0].full_path.as_ref().map(|f| f.path.as_str()), Some("a"));
    assert!(!r[0].is_git_command);
    assert_eq!(r[0].flags, flags);
}

#[test]
fn dots_and_hidden_names_are_left_out() {
    let p = pattern(&[".", "..", ".hidden", "./x", "plain"], false);
    let flags = CompletionFlags::default();
    let r = tab_complete_with_expanded_pattern(&p, flags, "", true);
    assert_eq!(texts(&r), vec!["./x", "plain"]);
    let r = tab_complete_with_expanded_pattern(&p, flags, "", false);
    assert_eq!(texts(&r), vec!["./x", ".hidden", "plain"]);
    let wanting = pattern(&[".", "..", ".hidden"], true);
    let r = tab_complete_with_expanded_pattern(&wanting, flags, "", true);
    assert_eq!(texts(&r), vec![".hidden"]);
}

#[test]
fn only_so_many_matches_are_looked_at() {
    let names: Vec<String> = (0..MAX_GLOB_RESULTS + 5).map(|i| format!("{:06}", i)).collect();
    let mut matches: Vec<GlobMatch> = vec![found("..", path(".."))];
    matches.extend(names.iter().map(|n| found(n, path(n))));
    let p = PathPatternExpansion { static_prefix: None, wants_hidden: false, matches };
    let r = tab_complete_with_expanded_pattern(&p, CompletionFlags::default(), "", true);
    assert_eq!(r.len(), 10_000);
    assert_eq!(r[9_999].raw_text, "009999");
}

#[test]
fn a_glob_keeps_its_prefix_and_quoting() {
    let mut p = pattern(&["x/a"], false);
    p.static_prefix = Some("$PWD/".to_string());
    let (r, flags) = tab_complete_glob_expansion(&p, Some(QuoteType::DoubleQuote), "w");
    assert!(flags.filename_completion_desired && !flags.filename_quoting_desired);
    assert_eq!(flags.quote_type, Some(QuoteType::DoubleQuote));
    assert_eq!(r[0].custom_prefix.as_deref(), Some("$PWD/"));
    assert_eq!(r[0].flags, flags);
}

#[test]
fn files_that_cannot_be_run_are_dropped() {
    let suggestion = |name: &str, full: Option<FullPath>| UnprocessedSuggestion {
        raw_text: name.to_string(),
        full_path: full,
        flags: CompletionFlags::default(),
        word_under_cursor: String::new(),
        is_git_command: false,
        custom_prefix: None,
    };
    let link = FullPath {
        path: "link".to_string(),
        stat: PathStat { is_symlink: true, target: Some(FileKind::File { mode: 0o644 }) },
    };
    let list = vec![
        suggestion("plain", Some(file("plain", FileKind::File { mode: 0o644 }))),
        suggestion("script", Some(file("script", FileKind::File { mode: 0o100 }))),
        suggestion("dir", Some(file("dir", FileKind::Directory))),
        suggestion("socket", Some(file("socket", FileKind::Other))),
        suggestion("link", Some(link)),
        suggestion("unknown", Some(path("unknown"))),
        suggestion("nowhere", None),
    ];
    let r = filter_out_non_executables(&list);
    assert_eq!(texts(&r), vec!["script", "dir", "socket", "link", "unknown", "nowhere"]);
}

// ------- paths --------------------------------------------------------------

#[test]
fn paths_are_cut_into_segments() {
    assert_eq!(split_nonempty_path_segments("/usr//lib/"), (true, strings(&["usr", "lib"])));
    assert_eq!(split_nonempty_path_segments("./a"), (false, strings(&[".", "a"])));
    assert_eq!(split_nonempty_path_segments("/"), (true, vec![]));
    assert_eq!(split_nonempty_path_segments(""), (false, vec![]));
}

#[test]
fn paths_are_put_together_from_segments() {
    assert_eq!(path_from_segments(true, &strings(&["usr", "lib"])), "/usr/lib");
    assert_eq!(path_from_segments(false, &strings(&["a"])), "a");
    assert_eq!(path_from_segments(true, &vec![]), "/");
    assert_eq!(path_from_segments(false, &vec![]), "");
    assert_eq!(path_prefix_for_output(true, &strings(&["usr"])), "/usr/");
    assert_eq!(path_prefix_for_output(true, &vec![]), "/");
    assert_eq!(path_prefix_for_output(false, &vec![]), "");
}

#[test]
fn a_path_is_cut_where_it_was_joined() {
    for absolute in [true, false] {
        for segments in [vec![], strings(&["a"]), strings(&["a", "b.c", "d"])] {
            let p = path_from_segments(absolute, &segments);
            assert_eq!(split_nonempty_path_segments(&p), (absolute, segments));
        }
    }
}

#[test]
fn a_path_that_is_cut_and_joined_is_tidy() {
    for (path, tidy) in [
        ("", ""),
        ("/", "/"),
        ("///", "/"),
        ("a", "a"),
        ("a//", "a"),
        ("/usr//lib/", "/usr/lib"),
        ("a///b/c", "a/b/c"),
    ] {
        let (is_absolute, segments) = split_nonempty_path_segments(path);
        assert_eq!(path_from_segments(is_absolute, &segments), tidy);
    }
}

#[test]
fn a_prefix_and_names_are_a_path() {
    for is_absolute in [true, false] {
        for prefix in [vec![], strings(&["usr"]), strings(&["usr", "lib"])] {
            let names = strings(&["x", "y"]);
            let text = path_prefix_for_output(is_absolute, &prefix) + &names.join("/");
            let all: Vec<String> = prefix.into_iter().chain(names).collect();
            assert_eq!(text, path_from_segments(is_absolute, &all));
        }
    }
}

#[test]
fn the_cursor_chooses_where_matching_starts() {
    let q = fuzzy_query("./tre/lefa/apel", 2).unwrap();
    assert_eq!(q.prefix_segments, strings(&["."]));
    assert_eq!(q.fuzzy_segments, strings(&["tre", "lefa", "apel"]));
    assert_eq!(q.base_path(), ".");
    let q = fuzzy_query("/usr/lib/x", 0).unwrap();
    assert!(q.is_absolute);
    assert_eq!(q.base_path(), "/usr/lib");
    assert_eq!(q.fuzzy_segments, strings(&["x"]));
    let q = fuzzy_query("a/b", 9).unwrap();
    assert_eq!(q.fuzzy_segments, strings(&["a", "b"]));
    assert_eq!(q.base_path(), ".");
    assert!(fuzzy_query("///", 0).is_none());
}

// ------- fuzzy matching -----------------------------------------------------

#[test]
fn scores_of_the_matcher() {
    let stem = "abcd_abcd_abcd_abcd_abcd_abcd_abcd_abcd_abcd_abcd_abcd_abcd_a";
    let name = format!("{stem}BAR");
    let score =
        |c: &str, p: &str| fuzzy_match_with_threshold(c, p, FuzzyMatchThreshold::High, &CUTOFFS);
    assert_eq!(stem.len(), 61);
    assert_eq!(score(&name, stem), Some(2006));
    assert_eq!(score("commit", "zzz"), None);
    assert_eq!(score("", "a"), None);
    assert!(score("commit", "cmomit").is_some());
}

#[test]
fn cutoffs_and_long_patterns() {
    let cutoffs = FuzzyCutoffs { medium: 1, high: 2007 };
    let stem = "abcd_abcd_abcd_abcd_abcd_abcd_abcd_abcd_abcd_abcd_abcd_abcd_a";
    assert_eq!(
        fuzzy_match_with_threshold(stem, stem, FuzzyMatchThreshold::High, &cutoffs),
        None
    );
    assert_eq!(
        fuzzy_match_with_threshold(stem, stem, FuzzyMatchThreshold::Medium, &cutoffs),
        Some(2006)
    );
    let zero = FuzzyCutoffs { medium: 0, high: 0 };
    assert_eq!(
        fuzzy_match_with_threshold("x", "", FuzzyMatchThreshold::Medium, &zero),
        Some(0)
    );
    let long = "a".repeat(65);
    assert_eq!(
        fuzzy_match_with_threshold(&long, &long, FuzzyMatchThreshold::Medium, &zero),
        None
    );
}

#[test]
fn matching_goes_down_through_directories() {
    let base = dir(
        "",
        vec![
            dir("tree", vec![dir("leaf", vec![leaf("apple.txt")]), leaf("leaf2")]),
            dir("three", vec![dir("leaf", vec![leaf("apple.log"), leaf("zzz")])]),
            leaf("tre"),
            DirEntry { name: "trees".to_string(), path: path("trees"), is_dir: true, entries: None },
        ],
    );
    let hits = fuzzy_glob_recursive(&base, &strings(&["tre", "lefa", "apel"]), &CUTOFFS);
    let names: Vec<String> = hits.iter().map(|h| h.segments.join("/")).collect();
    assert_eq!(names, strings(&["tree/leaf/apple.txt", "three/leaf/apple.log"]));
    let none = fuzzy_glob_recursive(&base, &vec![], &CUTOFFS);
    assert_eq!(none.len(), 1);
    assert_eq!(none[0].score, 0);
}

#[test]
fn fuzzy_globbing_recurses_across_path_segments() {
    let base = dir(
        "",
        vec![
            dir("three", vec![dir("leaf", vec![leaf("apple.log")])]),
            dir("tree", vec![dir("leaf", vec![leaf("apple.txt")])]),
        ],
    );
    let ctx = context("mycmd ", "./tr", "e/lefa/apel");
    let (r, flags) =
        tab_complete_fuzzy_filename(&ctx, "./tre/lefa/apel", None, &base, &CUTOFFS);
    let names = texts(&r);
    assert!(names.contains(&"./tree/leaf/apple.txt"));
    assert!(names.contains(&"./three/leaf/apple.log"));
    assert_eq!(r[0].flags, flags);
    assert_eq!(r[0].word_under_cursor, "");
}

#[test]
fn the_best_path_stands_first() {
    let base = dir("", vec![leaf("xxaxxb"), leaf("ab"), leaf("zz"), leaf("ab")]);
    let (r, _) = tab_complete_fuzzy_filename_from_word("ab", None, &base, &CUTOFFS);
    assert_eq!(texts(&r), vec!["ab", "xxaxxb"]);
    let (r, _) = tab_complete_fuzzy_filename_from_word("", None, &base, &CUTOFFS);
    assert!(r.is_empty());
}

fn hit(score: i128, segments: &[&str]) -> FuzzyHit {
    FuzzyHit { score, segments: strings(segments), path: path(&segments.join("/")) }
}

#[test]
fn an_entry_adds_its_score_to_what_lies_below() {
    let below = vec![hit(7, &["x", "y"]), hit(0, &["z"])];
    let found = entry_hits(&dir("src", vec![]), Some(5), false, &below, 2);
    let names: Vec<(i128, String)> = found.iter().map(|h| (h.score, h.segments.join("/"))).collect();
    assert_eq!(names, vec![(12, "src/x/y".to_string()), (5, "src/z".to_string())]);
    assert_eq!(found[0].path, path("x/y"));
    assert_eq!(entry_hits(&leaf("a"), Some(5), true, &below, 2), vec![hit(5, &["a"])]);
    assert_eq!(entry_hits(&leaf("a"), Some(5), false, &below, 2), vec![]);
    assert_eq!(entry_hits(&dir("src", vec![]), None, true, &below, 2), vec![]);
}

#[test]
fn hits_are_ranked_by_score_and_then_by_name() {
    let hits = vec![
        hit(3, &["b"]),
        hit(9, &["z"]),
        hit(3, &["a", "c"]),
        hit(3, &["b"]),
        hit(3, &["a"]),
    ];
    let expected = vec![hit(9, &["z"]), hit(3, &["a"]), hit(3, &["a", "c"]), hit(3, &["b"])];
    let ranked = rank_hits(&hits);
    assert_eq!(ranked, expected);
    let flags = CompletionFlags::for_file_name(Some(QuoteType::DoubleQuote));
    let made = suggest_hits(&ranked, "/usr/", flags);
    assert_eq!(texts(&made), vec!["/usr/z", "/usr/a", "/usr/a/c", "/usr/b"]);
    assert_eq!(made[2].full_path, Some(path("a/c")));
    assert_eq!(made[2].flags, flags);
}

// ------- first words --------------------------------------------------------

#[test]
fn test_first_word_env_var_completion_has_equal_suffix() {
    let words = vec![word(CommandKind::EnvVar, "MY_CUSTOM_ENV_VAR", "env var")];
    let b = tab_complete_first_word("MY_CUSTOM", "MY_CUSTOM", &words, &nothing(), None);
    assert_eq!(b.processed[0].s, "MY_CUSTOM_ENV_VAR");
    assert_eq!(b.processed[0].suffix, "=");
    assert_eq!(
        b.processed[0].description,
        SuggestionDescription::Static(strings(&["env var"]))
    );
}

#[test]
fn test_fuzzy_first_word_env_var_completion_has_equal_suffix() {
    let words = vec![word(CommandKind::EnvVar, "MY_LONG_VARIABLE_NAME", "env var")];
    let b = tab_complete_fuzzy_first_word("MYLGVAR", &words, "", None, &leaf(""), &CUTOFFS);
    assert_eq!(b.processed[0].s, "MY_LONG_VARIABLE_NAME");
    assert_eq!(b.processed[0].suffix, "=");
    assert_eq!(
        b.processed[0].description,
        SuggestionDescription::Static(strings(&["env var"]))
    );
}

#[test]
fn test_first_word_executable_completion_has_space_suffix() {
    let words = vec![word(CommandKind::Other, "echo", "builtin")];
    let b = tab_complete_first_word("ech", "ech", &words, &nothing(), None);
    assert_eq!(b.processed[0].s, "echo");
    assert_eq!(b.processed[0].suffix, " ");
}

#[test]
fn first_words_are_unique_and_the_shortest_comes_first() {
    let words = vec![
        word(CommandKind::Other, "gitk", "file"),
        word(CommandKind::Other, "git", "file"),
        word(CommandKind::Other, "git", "alias"),
        word(CommandKind::EnvVar, "git", "env var"),
        word(CommandKind::Unknown, "gid", "who knows"),
        word(CommandKind::Other, "gi ", "alias"),
        word(CommandKind::Other, "ls", "file"),
    ];
    let b = tab_complete_first_word("gi", "gi", &words, &nothing(), None);
    assert_eq!(processed_texts(&b.processed), vec!["gi ", "gid", "git", "git", "gitk"]);
    assert_eq!(b.processed[0].suffix, "");
    assert_eq!(b.processed[1].description, SuggestionDescription::Static(vec![]));
    assert_eq!(b.processed[2].description, SuggestionDescription::Static(strings(&["file"])));
    assert_eq!(b.processed[3].suffix, "=");
    assert!(tab_complete_first_word("", "", &words, &nothing(), None).is_empty());
    assert!(tab_complete_first_word("zzz", "zzz", &words, &nothing(), None).is_empty());
}

#[test]
fn a_first_word_that_is_a_path_completes_to_programs() {
    let p = PathPatternExpansion {
        static_prefix: None,
        wants_hidden: false,
        matches: vec![
            found("./b.sh", file("b.sh", FileKind::File { mode: 0o755 })),
            found("./a.txt", file("a.txt", FileKind::File { mode: 0o644 })),
            found("./dir", file("dir", FileKind::Directory)),
        ],
    };
    for command in ["./", "~/bin/x", "bin/x"] {
        let b = tab_complete_first_word(command, command, &vec![], &p, None);
        assert_eq!(texts(&b.unprocessed), vec!["./b.sh", "./dir"]);
        assert!(b.processed.is_empty());
    }
}

#[test]
fn fuzzy_first_words_come_best_first() {
    let words = vec![
        word(CommandKind::Other, "gxxixxt", "file"),
        word(CommandKind::Other, "git", "file"),
        word(CommandKind::Other, "zzz", "file"),
    ];
    let b = tab_complete_fuzzy_first_word("git", &words, "", None, &leaf(""), &CUTOFFS);
    assert_eq!(processed_texts(&b.processed), vec!["git", "gxxixxt"]);
    let base = dir("", vec![leaf("script.sh")]);
    let b = tab_complete_fuzzy_first_word("./scr", &words, "./scr", None, &base, &CUTOFFS);
    assert_eq!(texts(&b.unprocessed), vec!["./script.sh"]);
    assert!(tab_complete_fuzzy_first_word("", &words, "", None, &base, &CUTOFFS).is_empty());
}

#[test]
fn words_are_ranked_by_their_scores() {
    let words = vec![
        word(CommandKind::Other, "low", "file"),
        word(CommandKind::Other, "none", "file"),
        word(CommandKind::Other, "high", "file"),
        word(CommandKind::Other, "even", "file"),
        word(CommandKind::Other, "high", "file"),
    ];
    let ranked = rank_words(&words, &vec![Some(2), None, Some(8), Some(2), Some(8)]);
    assert_eq!(processed_texts(&ranked), vec!["high", "low", "even"]);
    assert!(rank_words(&words, &vec![None; 5]).is_empty());
}

// ------- hosts and users ----------------------------------------------------

#[test]
fn hostname_completion() {
    let hosts = strings(&["localhost", "example.org", "localhost"]);
    let r = tab_complete_hostname_expansion("us@localho", &hosts);
    assert_eq!(processed_texts(&r), vec!["us@localhost"]);
    let hosts = strings(&["localhost", "example.org", "localhost", "localhome"]);
    let r = tab_complete_hostname_expansion("a@b@local", &hosts);
    assert_eq!(processed_texts(&r), vec!["a@b@localhome", "a@b@localhost"]);
    assert!(tab_complete_hostname_expansion("localho", &hosts).is_empty());
}

#[test]
fn tilde_completion() {
    let user = |name: &str, home: &str| UserInfo {
        username: name.to_string(),
        home_dir: home.to_string(),
    };
    let users = vec![user("foobaz", "/home/foobaz"), user("foobar", "/home/foobar/"), user("root", "/root")];
    let r = tab_complete_tilde_expansion("~foo", &users);
    assert_eq!(processed_texts(&r), vec!["/home/foobar/", "/home/foobaz/"]);
    assert_eq!((r[0].prefix.as_str(), r[0].suffix.as_str()), ("", ""));
    assert!(tab_complete_tilde_expansion("foo", &users).is_empty());
}

// ------- the command's own completion ----------------------------------------

fn programmable(list: &[&str], useful: bool) -> CompSpecAnswers {
    CompSpecAnswers {
        flyline: None,
        programmable: Some(ProgrammableCompletions {
            completions: strings(list),
            flags: CompletionFlags { nosort_desired: true, ..CompletionFlags::default() },
            compspec_was_useful: useful,
        }),
    }
}

#[test]
fn the_request_expands_the_alias() {
    let ctx = context(" gd ", "--st", "ag");
    let r = comp_spec_request(&ctx, "gd", &Some("git diff".to_string()));
    assert_eq!(r.full_command, " git diff --stag");
    assert_eq!(r.command_word, "git");
    assert_eq!(r.word_under_cursor, "--stag");
    assert_eq!((r.cursor_byte_pos, r.word_end_byte_pos), (16, 16));
    for none in [None, Some(String::new())] {
        let r = comp_spec_request(&ctx, "gd", &none);
        assert_eq!(r.full_command, " gd --stag");
        assert_eq!(r.command_word, "gd");
    }
    let r = comp_spec_request(&ctx, "gd", &Some("  ".to_string()));
    assert_eq!(r.command_word, "  ");
}

#[test]
fn programmable_completions_become_suggestions() {
    let ctx = context("git ", "ad", "");
    let b = run_comp_spec_completion(&ctx, "git", &None, &programmable(&["add"], true)).unwrap();
    assert_eq!(texts(&b.unprocessed), vec!["add"]);
    assert_eq!(b.unprocessed[0].word_under_cursor, "ad");
    assert!(b.unprocessed[0].is_git_command);
    assert!(b.nosort);
    assert_eq!(b.compspec_was_useful, Some(true));
    let b = run_comp_spec_completion(
        &context("g ", "", ""),
        "g",
        &Some("git-lfs".to_string()),
        &programmable(&["x"], false),
    )
    .unwrap();
    assert!(b.unprocessed[0].is_git_command);
    let b = run_comp_spec_completion(&ctx, "gitk", &None, &programmable(&["x"], false)).unwrap();
    assert!(!b.unprocessed[0].is_git_command);
    let failed = CompSpecAnswers { flyline: None, programmable: None };
    assert!(run_comp_spec_completion(&ctx, "git", &None, &failed).is_none());
}

#[test]
fn the_editors_own_command_is_completed_by_itself() {
    assert!(completes_flyline("flyline", &None));
    assert!(completes_flyline("f", &Some("flyline set".to_string())));
    assert!(!completes_flyline("git", &None));
    let candidate = |value: &str, quoted: Option<&str>, help: Option<&str>| FlylineCandidate {
        value: value.to_string(),
        quoted: quoted.map(|q| q.to_string()),
        help: help.map(|h| h.to_string()),
    };
    let ctx = context("flyline ", "--x=a", "");
    let candidates = Some(vec![
        candidate("--x=PREFIX_DELIMab", None, Some("one\ttwo")),
        candidate("--y=PREFIX_DELIMabNO_SUFFIX", None, None),
        candidate("plain", Some("'plain"), None),
    ]);
    let b = run_flyline_compspec(&ctx, &candidates).unwrap();
    let parts: Vec<(&str, &str, &str)> = b
        .processed
        .iter()
        .map(|p| (p.prefix.as_str(), p.s.as_str(), p.suffix.as_str()))
        .collect();
    assert_eq!(parts, vec![("--x=", "ab", " "), ("", "ab", ""), ("", "'plain", " ")]);
    assert_eq!(
        b.processed[0].description,
        SuggestionDescription::Animation(strings(&["one", "two"]))
    );
    assert_eq!(b.processed[1].description, SuggestionDescription::Static(vec![]));
    assert!(run_flyline_compspec(&ctx, &None).is_none());
    let answers = CompSpecAnswers { flyline: candidates, programmable: None };
    let b = run_comp_spec_completion(&ctx, "flyline", &None, &answers).unwrap();
    assert_eq!(b.processed.len(), 3);
}

#[test]
fn marks_in_a_candidate() {
    let v = flyline_value("aPREFIX_DELIMbPREFIX_DELIMc", "axx");
    assert_eq!(
        (v.prefix.as_str(), v.value.as_str(), v.suffix.as_str()),
        ("a", "bPREFIX_DELIMc", " ")
    );
    let v = flyline_value("NO_SUFFIX", "");
    assert_eq!((v.prefix.as_str(), v.value.as_str(), v.suffix.as_str()), ("", "", ""));
}

// ------- contexts -----------------------------------------------------------

#[test]
fn parts_of_a_context() {
    let mut ctx = context("é gd ", "ab", "cd");
    ctx.start = 10;
    ctx.after = " rest".to_string();
    assert_eq!(ctx.context(), "é gd abcd rest");
    assert_eq!(ctx.command_word(), "é");
    let w = ctx.word_substring();
    assert_eq!((w.s.as_str(), w.start), ("abcd", 16));
    let moved = ctx.with_cursor_at_end_of_wuc();
    assert_eq!((moved.left.as_str(), moved.right.as_str()), ("abcd", ""));
    let replaced = ctx.with_wuc_replaced("x");
    assert_eq!(replaced.context(), "é gd x rest");
    assert_eq!(ctx.with_expanded_alias("ls -l").context(), "ls -l gd abcd rest");
    // The word under the cursor is not replaced.
    assert_eq!(context("  ", "gd", "").with_expanded_alias("x").context(), "  gd");
}
