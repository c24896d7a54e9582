//! Suggestions: what a completion source offers, and the list that collects it.

use vstd::prelude::*;

verus! {

use crate::order::{key_of_text, key_views, order_by_key, without_repeats};
use crate::text::concat3;

/// The quoting that is open at the word being completed.
#[derive(Clone, Copy, Debug, PartialEq, Eq, Structural)]
pub enum QuoteType {
    SingleQuote,
    DoubleQuote,
    Backslash,
}

/// What a completion source asks for the text that is inserted.
#[derive(Clone, Copy, Debug, PartialEq, Eq)]
pub struct CompletionFlags {
    pub filename_quoting_desired: bool,
    pub filename_completion_desired: bool,
    pub no_suffix_desired: bool,
    pub nosort_desired: bool,
    pub quote_type: Option<QuoteType>,
}

impl CompletionFlags {
    /// Nothing is asked for.
    pub open spec fn none() -> CompletionFlags {
        CompletionFlags {
            filename_quoting_desired: false,
            filename_completion_desired: false,
            no_suffix_desired: false,
            nosort_desired: false,
            quote_type: None,
        }
    }

    /// What a file name asks for. Its quoting is done when the name is found,
    /// because the part before the name must stay as it was written.
    pub open spec fn file_name(quote_type: Option<QuoteType>) -> CompletionFlags {
        CompletionFlags {
            filename_completion_desired: true,
            quote_type,
            ..CompletionFlags::none()
        }
    }

    pub fn for_file_name(quote_type: Option<QuoteType>) -> (r: CompletionFlags)
        ensures
            r == CompletionFlags::file_name(quote_type),
    {
        CompletionFlags {
            filename_quoting_desired: false,
            filename_completion_desired: true,
            no_suffix_desired: false,
            nosort_desired: false,
            quote_type,
        }
    }
}

impl Default for CompletionFlags {
    fn default() -> (r: Self)
        ensures
            r == CompletionFlags::none(),
    {
        CompletionFlags {
            filename_quoting_desired: false,
            filename_completion_desired: false,
            no_suffix_desired: false,
            nosort_desired: false,
            quote_type: None,
        }
    }
}

/// What a path leads to, symbolic links followed.
#[derive(Clone, Copy, Debug, PartialEq, Eq, Structural)]
pub enum FileKind {
    Directory,
    /// A plain file with its permission bits.
    File { mode: u32 },
    Other,
}

/// What is known of a path on disk.
#[derive(Clone, Copy, Debug, PartialEq, Eq)]
pub struct PathStat {
    pub is_symlink: bool,
    /// What the path leads to, where that could be read.
    pub target: Option<FileKind>,
}

/// A path on disk.
#[derive(Debug, PartialEq, Eq)]
pub struct FullPath {
    pub path: String,
    pub stat: PathStat,
}

impl FullPath {
    pub fn copied(&self) -> (r: FullPath)
        ensures
            r == *self,
    {
        FullPath { path: self.path.clone(), stat: self.stat }
    }
}

/// A copy of an optional path.
pub fn copied_path(path: &Option<FullPath>) -> (r: Option<FullPath>)
    ensures
        r == *path,
{
    match path {
        Some(p) => Some(p.copied()),
        None => None,
    }
}

/// A copy of an optional text.
pub fn copied_text(text: &Option<String>) -> (r: Option<String>)
    ensures
        r == *text,
{
    match text {
        Some(t) => Some(t.clone()),
        None => None,
    }
}

/// The characters of an optional text.
pub open spec fn text_view(text: Option<String>) -> Option<Seq<char>> {
    match text {
        Some(t) => Some(t@),
        None => None,
    }
}

/// Copies of the texts in a list.
pub fn copied_texts(texts: &Vec<String>) -> (r: Vec<String>)
    ensures
        r@ == texts@,
{
    let mut out: Vec<String> = Vec::new();
    let mut i: usize = 0;
    while i < texts.len()
        invariant
            i <= texts@.len(),
            out@ == texts@.take(i as int),
        decreases texts@.len() - i,
    {
        out.push(texts[i].clone());
        assert(texts@.take(i + 1) =~= texts@.take(i as int).push(texts@[i as int]));
        i = i + 1;
    }
    assert(texts@.take(texts@.len() as int) =~= texts@);
    out
}

/// What is shown beside a suggestion: pieces of text, or frames shown in turn.
#[derive(Debug, PartialEq, Eq)]
pub enum SuggestionDescription {
    Static(Vec<String>),
    Animation(Vec<String>),
}

/// The mathematical value of a [`SuggestionDescription`].
#[verifier::ext_equal]
pub enum DescriptionView {
    Static(Seq<Seq<char>>),
    Animation(Seq<Seq<char>>),
}

impl View for SuggestionDescription {
    type V = DescriptionView;

    open spec fn view(&self) -> DescriptionView {
        match self {
            SuggestionDescription::Static(parts) => DescriptionView::Static(
                crate::text::views(parts@),
            ),
            SuggestionDescription::Animation(frames) => DescriptionView::Animation(
                crate::text::views(frames@),
            ),
        }
    }
}

impl SuggestionDescription {
    pub fn copied(&self) -> (r: SuggestionDescription)
        ensures
            r@ == self@,
    {
        match self {
            SuggestionDescription::Static(parts) => SuggestionDescription::Static(
                copied_texts(parts),
            ),
            SuggestionDescription::Animation(frames) => SuggestionDescription::Animation(
                copied_texts(frames),
            ),
        }
    }
}

/// A suggestion whose text is final.
#[derive(Debug, PartialEq, Eq)]
pub struct ProcessedSuggestion {
    pub s: String,
    pub prefix: String,
    pub suffix: String,
    pub description: SuggestionDescription,
}

/// The mathematical value of a [`ProcessedSuggestion`].
#[verifier::ext_equal]
pub struct ProcessedView {
    pub s: Seq<char>,
    pub prefix: Seq<char>,
    pub suffix: Seq<char>,
    pub description: DescriptionView,
}

impl ProcessedView {
    /// A suggestion without a description.
    pub open spec fn plain(s: Seq<char>, prefix: Seq<char>, suffix: Seq<char>) -> ProcessedView {
        ProcessedView { s, prefix, suffix, description: DescriptionView::Static(Seq::empty()) }
    }

    /// The text that accepting the suggestion inserts.
    pub open spec fn formatted(self) -> Seq<char> {
        self.prefix + self.s + self.suffix
    }
}

impl View for ProcessedSuggestion {
    type V = ProcessedView;

    open spec fn view(&self) -> ProcessedView {
        ProcessedView {
            s: self.s@,
            prefix: self.prefix@,
            suffix: self.suffix@,
            description: self.description@,
        }
    }
}

impl ProcessedSuggestion {
    pub fn new(s: String, prefix: String, suffix: String) -> (r: ProcessedSuggestion)
        ensures
            r@ == ProcessedView::plain(s@, prefix@, suffix@),
    {
        let parts: Vec<String> = Vec::new();
        let r = ProcessedSuggestion {
            s,
            prefix,
            suffix,
            description: SuggestionDescription::Static(parts),
        };
        assert(crate::text::views(parts@) =~= Seq::empty());
        r
    }

    pub fn with_description(self, description: SuggestionDescription) -> (r: ProcessedSuggestion)
        ensures
            r@ == (ProcessedView { description: description@, ..self@ }),
    {
        ProcessedSuggestion { s: self.s, prefix: self.prefix, suffix: self.suffix, description }
    }

    /// The text that accepting the suggestion inserts.
    pub fn formatted(&self) -> (r: String)
        ensures
            r@ == self@.formatted(),
    {
        concat3(self.prefix.as_str(), self.s.as_str(), self.suffix.as_str())
    }

    pub fn copied(&self) -> (r: ProcessedSuggestion)
        ensures
            r@ == self@,
    {
        ProcessedSuggestion {
            s: self.s.clone(),
            prefix: self.prefix.clone(),
            suffix: self.suffix.clone(),
            description: self.description.copied(),
        }
    }

    /// One suggestion for each text, with one prefix and one suffix for all.
    pub fn from_string_vec(texts: &Vec<String>, prefix: &str, suffix: &str) -> (r: Vec<
        ProcessedSuggestion,
    >)
        ensures
            processed_views(r@) == crate::text::views(texts@).map_values(
                |t: Seq<char>| ProcessedView::plain(t, prefix@, suffix@),
            ),
    {
        let mut out: Vec<ProcessedSuggestion> = Vec::new();
        let mut i: usize = 0;
        while i < texts.len()
            invariant
                i <= texts@.len(),
                out@.len() == i,
                forall|k: int|
                    0 <= k < i ==> (#[trigger] out@[k])@ == ProcessedView::plain(
                        texts@[k]@,
                        prefix@,
                        suffix@,
                    ),
            decreases texts@.len() - i,
        {
            out.push(
                ProcessedSuggestion::new(texts[i].clone(), prefix.to_owned(), suffix.to_owned()),
            );
            i = i + 1;
        }
        out
    }
}

/// The values of a list of processed suggestions.
pub open spec fn processed_views(list: Seq<ProcessedSuggestion>) -> Seq<ProcessedView> {
    Seq::new(list.len(), |i: int| list[i]@)
}

/// A suggestion as its source gave it: quoting, suffix and description are
/// worked out later.
#[derive(Debug, PartialEq, Eq)]
pub struct UnprocessedSuggestion {
    pub raw_text: String,
    pub full_path: Option<FullPath>,
    pub flags: CompletionFlags,
    pub word_under_cursor: String,
    pub is_git_command: bool,
    pub custom_prefix: Option<String>,
}

/// The mathematical value of an [`UnprocessedSuggestion`].
#[verifier::ext_equal]
pub struct UnprocessedView {
    pub raw_text: Seq<char>,
    pub full_path: Option<FullPath>,
    pub flags: CompletionFlags,
    pub word_under_cursor: Seq<char>,
    pub is_git_command: bool,
    pub custom_prefix: Option<Seq<char>>,
}

impl View for UnprocessedSuggestion {
    type V = UnprocessedView;

    open spec fn view(&self) -> UnprocessedView {
        UnprocessedView {
            raw_text: self.raw_text@,
            full_path: self.full_path,
            flags: self.flags,
            word_under_cursor: self.word_under_cursor@,
            is_git_command: self.is_git_command,
            custom_prefix: text_view(self.custom_prefix),
        }
    }
}

impl UnprocessedSuggestion {
    /// The text by which the suggestion is matched and sorted.
    pub fn match_text(&self) -> (r: &str)
        ensures
            r@ == self@.raw_text,
    {
        self.raw_text.as_str()
    }

    pub fn copied(&self) -> (r: UnprocessedSuggestion)
        ensures
            r@ == self@,
    {
        UnprocessedSuggestion {
            raw_text: self.raw_text.clone(),
            full_path: copied_path(&self.full_path),
            flags: self.flags,
            word_under_cursor: self.word_under_cursor.clone(),
            is_git_command: self.is_git_command,
            custom_prefix: copied_text(&self.custom_prefix),
        }
    }
}

/// The values of a list of unprocessed suggestions.
pub open spec fn unprocessed_views(list: Seq<UnprocessedSuggestion>) -> Seq<UnprocessedView> {
    Seq::new(list.len(), |i: int| list[i]@)
}

/// The keys by which unprocessed suggestions are sorted: their texts.
pub open spec fn unprocessed_keys(list: Seq<UnprocessedView>) -> Seq<Seq<i128>> {
    list.map_values(|u: UnprocessedView| crate::order::text_key(u.raw_text))
}

/// The keys by which processed suggestions are sorted: their texts.
pub open spec fn processed_keys(list: Seq<ProcessedView>) -> Seq<Seq<i128>> {
    list.map_values(|p: ProcessedView| crate::order::text_key(p.s))
}

/// The suggestions sorted by text, with one of each text.
pub fn sort_unprocessed(list: &Vec<UnprocessedSuggestion>) -> (r: Vec<UnprocessedSuggestion>)
    ensures
        unprocessed_views(r@) == crate::order::sorted_dedup(
            unprocessed_views(list@),
            unprocessed_keys(unprocessed_views(list@)),
        ),
{
    let ghost views = unprocessed_views(list@);
    let mut keys: Vec<Vec<i128>> = Vec::new();
    let mut i: usize = 0;
    while i < list.len()
        invariant
            i <= list@.len(),
            keys@.len() == i,
            forall|k: int|
                0 <= k < i ==> (#[trigger] keys@[k])@ == crate::order::text_key(list@[k].raw_text@),
        decreases list@.len() - i,
    {
        keys.push(key_of_text(list[i].match_text()));
        i = i + 1;
    }
    assert(key_views(keys@) =~= unprocessed_keys(views));
    let order = order_by_key(&keys);
    let kept = without_repeats(&keys, &order);
    let mut out: Vec<UnprocessedSuggestion> = Vec::new();
    let mut j: usize = 0;
    while j < kept.len()
        invariant
            j <= kept@.len(),
            out@.len() == j,
            forall|k: int| 0 <= k < kept@.len() ==> #[trigger] kept@[k] < list@.len(),
            forall|k: int| 0 <= k < j ==> (#[trigger] out@[k])@ == list@[kept@[k] as int]@,
        decreases kept@.len() - j,
    {
        out.push(list[kept[j]].copied());
        j = j + 1;
    }
    assert(unprocessed_views(out@) =~= crate::order::select(views, kept@));
    out
}

/// The suggestions sorted by text, with one of each text.
pub fn sort_processed(list: &Vec<ProcessedSuggestion>) -> (r: Vec<ProcessedSuggestion>)
    ensures
        processed_views(r@) == crate::order::sorted_dedup(
            processed_views(list@),
            processed_keys(processed_views(list@)),
        ),
{
    let ghost views = processed_views(list@);
    let mut keys: Vec<Vec<i128>> = Vec::new();
    let mut i: usize = 0;
    while i < list.len()
        invariant
            i <= list@.len(),
            keys@.len() == i,
            forall|k: int|
                0 <= k < i ==> (#[trigger] keys@[k])@ == crate::order::text_key(list@[k].s@),
        decreases list@.len() - i,
    {
        keys.push(key_of_text(list[i].s.as_str()));
        i = i + 1;
    }
    assert(key_views(keys@) =~= processed_keys(views));
    let order = order_by_key(&keys);
    let kept = without_repeats(&keys, &order);
    let mut out: Vec<ProcessedSuggestion> = Vec::new();
    let mut j: usize = 0;
    while j < kept.len()
        invariant
            j <= kept@.len(),
            out@.len() == j,
            forall|k: int| 0 <= k < kept@.len() ==> #[trigger] kept@[k] < list@.len(),
            forall|k: int| 0 <= k < j ==> (#[trigger] out@[k])@ == list@[kept@[k] as int]@,
        decreases kept@.len() - j,
    {
        out.push(list[kept[j]].copied());
        j = j + 1;
    }
    assert(processed_views(out@) =~= crate::order::select(views, kept@));
    out
}

/// A way in which the word under the cursor can be completed.
#[derive(Debug, PartialEq, Eq)]
pub enum CompType {
    NoCompletion,
    FirstWord,
    FuzzyFirstWord,
    CommandComp { command_word: String },
    FuzzyCommandComp { command_word: String },
    EnvVariable,
    HostnameExpansion,
    TildeExpansion,
    GlobExpansion,
    FilenameExpansion,
    FuzzyFilenameExpansion,
}

impl CompType {
    pub fn copied(&self) -> (r: CompType)
        ensures
            r == *self,
    {
        match self {
            CompType::NoCompletion => CompType::NoCompletion,
            CompType::FirstWord => CompType::FirstWord,
            CompType::FuzzyFirstWord => CompType::FuzzyFirstWord,
            CompType::CommandComp { command_word } => CompType::CommandComp {
                command_word: command_word.clone(),
            },
            CompType::FuzzyCommandComp { command_word } => CompType::FuzzyCommandComp {
                command_word: command_word.clone(),
            },
            CompType::EnvVariable => CompType::EnvVariable,
            CompType::HostnameExpansion => CompType::HostnameExpansion,
            CompType::TildeExpansion => CompType::TildeExpansion,
            CompType::GlobExpansion => CompType::GlobExpansion,
            CompType::FilenameExpansion => CompType::FilenameExpansion,
            CompType::FuzzyFilenameExpansion => CompType::FuzzyFilenameExpansion,
        }
    }
}

/// The suggestions that a completion has found, and how they are to be shown.
#[derive(Debug, PartialEq, Eq)]
pub struct ActiveSuggestionsBuilder {
    pub processed: Vec<ProcessedSuggestion>,
    pub unprocessed: Vec<UnprocessedSuggestion>,
    pub comp_type: CompType,
    pub nosort: bool,
    /// Whether a suggestion that is alone is accepted without asking.
    pub auto_accept_if_solo: bool,
    /// Whether what all suggestions start with is inserted at once.
    pub insert_common_prefix: bool,
    pub common_prefix: Option<String>,
    /// Whether the command's own completion had something to say.
    pub compspec_was_useful: Option<bool>,
    pub should_run_flycomp: bool,
}

/// The mathematical value of an [`ActiveSuggestionsBuilder`].
#[verifier::ext_equal]
pub struct BuilderView {
    pub processed: Seq<ProcessedView>,
    pub unprocessed: Seq<UnprocessedView>,
    pub comp_type: CompType,
    pub nosort: bool,
    pub auto_accept_if_solo: bool,
    pub insert_common_prefix: bool,
    pub common_prefix: Option<Seq<char>>,
    pub compspec_was_useful: Option<bool>,
    pub should_run_flycomp: bool,
}

impl BuilderView {
    /// Nothing found yet.
    pub open spec fn empty() -> BuilderView {
        BuilderView {
            processed: Seq::empty(),
            unprocessed: Seq::empty(),
            comp_type: CompType::NoCompletion,
            nosort: false,
            auto_accept_if_solo: true,
            insert_common_prefix: true,
            common_prefix: None,
            compspec_was_useful: None,
            should_run_flycomp: false,
        }
    }

    pub open spec fn of_processed(processed: Seq<ProcessedView>) -> BuilderView {
        BuilderView { processed, ..BuilderView::empty() }
    }

    pub open spec fn of_unprocessed(unprocessed: Seq<UnprocessedView>) -> BuilderView {
        BuilderView { unprocessed, ..BuilderView::empty() }
    }

    /// How many suggestions there are.
    pub open spec fn count(self) -> nat {
        self.processed.len() + self.unprocessed.len()
    }
}

impl View for ActiveSuggestionsBuilder {
    type V = BuilderView;

    open spec fn view(&self) -> BuilderView {
        BuilderView {
            processed: processed_views(self.processed@),
            unprocessed: unprocessed_views(self.unprocessed@),
            comp_type: self.comp_type,
            nosort: self.nosort,
            auto_accept_if_solo: self.auto_accept_if_solo,
            insert_common_prefix: self.insert_common_prefix,
            common_prefix: text_view(self.common_prefix),
            compspec_was_useful: self.compspec_was_useful,
            should_run_flycomp: self.should_run_flycomp,
        }
    }
}

impl ActiveSuggestionsBuilder {
    pub fn new() -> (r: ActiveSuggestionsBuilder)
        ensures
            r@ == BuilderView::empty(),
    {
        ActiveSuggestionsBuilder {
            processed: Vec::new(),
            unprocessed: Vec::new(),
            comp_type: CompType::NoCompletion,
            nosort: false,
            auto_accept_if_solo: true,
            insert_common_prefix: true,
            common_prefix: None,
            compspec_was_useful: None,
            should_run_flycomp: false,
        }
    }

    pub fn from_processed(processed: Vec<ProcessedSuggestion>) -> (r: ActiveSuggestionsBuilder)
        ensures
            r@ == BuilderView::of_processed(processed_views(processed@)),
    {
        let mut r = ActiveSuggestionsBuilder::new();
        r.processed = processed;
        assert(r@.unprocessed =~= Seq::empty());
        r
    }

    pub fn from_unprocessed(unprocessed: Vec<UnprocessedSuggestion>) -> (r:
        ActiveSuggestionsBuilder)
        ensures
            r@ == BuilderView::of_unprocessed(unprocessed_views(unprocessed@)),
    {
        let mut r = ActiveSuggestionsBuilder::new();
        r.unprocessed = unprocessed;
        assert(r@.processed =~= Seq::empty());
        r
    }

    pub fn with_comp_type(self, comp_type: CompType) -> (r: ActiveSuggestionsBuilder)
        ensures
            r@ == (BuilderView { comp_type, ..self@ }),
    {
        let mut r = self;
        r.comp_type = comp_type;
        r
    }

    pub fn with_nosort(self, nosort: bool) -> (r: ActiveSuggestionsBuilder)
        ensures
            r@ == (BuilderView { nosort, ..self@ }),
    {
        let mut r = self;
        r.nosort = nosort;
        r
    }

    pub fn with_auto_accept_if_solo(self, auto_accept_if_solo: bool) -> (r:
        ActiveSuggestionsBuilder)
        ensures
            r@ == (BuilderView { auto_accept_if_solo, ..self@ }),
    {
        let mut r = self;
        r.auto_accept_if_solo = auto_accept_if_solo;
        r
    }

    pub fn with_insert_common_prefix(self, insert_common_prefix: bool) -> (r:
        ActiveSuggestionsBuilder)
        ensures
            r@ == (BuilderView { insert_common_prefix, ..self@ }),
    {
        let mut r = self;
        r.insert_common_prefix = insert_common_prefix;
        r
    }

    pub fn with_compspec_was_useful(self, compspec_was_useful: Option<bool>) -> (r:
        ActiveSuggestionsBuilder)
        ensures
            r@ == (BuilderView { compspec_was_useful, ..self@ }),
    {
        let mut r = self;
        r.compspec_was_useful = compspec_was_useful;
        r
    }

    pub fn is_empty(&self) -> (r: bool)
        ensures
            r == (self@.count() == 0),
    {
        self.processed.len() == 0 && self.unprocessed.len() == 0
    }

    /// Whether exactly one suggestion was found.
    pub fn is_solo(&self) -> (r: bool)
        ensures
            r == (self@.count() == 1),
    {
        (self.processed.len() == 1 && self.unprocessed.len() == 0) || (self.processed.len() == 0
            && self.unprocessed.len() == 1)
    }
}

/// A file name is treated as one, and nothing more is asked for it: it is quoted in the
/// quoting of the word, and not once more.
pub proof fn lemma_flags_of_a_file_name(quote_type: Option<QuoteType>)
    ensures
        ({
            let flags = CompletionFlags::file_name(quote_type);
            &&& flags.filename_completion_desired
            &&& !flags.filename_quoting_desired
            &&& !flags.no_suffix_desired
            &&& !flags.nosort_desired
            &&& flags.quote_type == quote_type
        }),
{
}

/// What accepting a suggestion inserts is its text between what comes before and behind.
pub proof fn lemma_accepting_inserts_all_parts(p: ProcessedView)
    ensures
        p.prefix.is_prefix_of(p.formatted()),
        p.suffix.is_suffix_of(p.formatted()),
        p.formatted().len() == p.prefix.len() + p.s.len() + p.suffix.len(),
        p.formatted().subrange(p.prefix.len() as int, (p.prefix.len() + p.s.len()) as int) == p.s,
{
    let all = p.formatted();
    assert(p.prefix =~= all.take(p.prefix.len() as int));
    assert(p.suffix =~= all.skip(all.len() - p.suffix.len()));
    assert(all.subrange(p.prefix.len() as int, (p.prefix.len() + p.s.len()) as int) =~= p.s);
}

/// Nothing but the usual is asked for.
pub open spec fn is_as_usual(b: BuilderView) -> bool {
    &&& b.auto_accept_if_solo
    &&& b.insert_common_prefix
    &&& !b.nosort
    &&& b.common_prefix is None
    &&& b.compspec_was_useful is None
    &&& !b.should_run_flycomp
}

/// Unless something else is asked for, a suggestion that is alone is accepted and what
/// all of them start with is inserted, and the list is sorted.
pub proof fn lemma_new_list(processed: Seq<ProcessedView>, unprocessed: Seq<UnprocessedView>)
    ensures
        BuilderView::of_processed(processed).processed == processed,
        BuilderView::of_processed(processed).unprocessed.len() == 0,
        BuilderView::of_unprocessed(unprocessed).unprocessed == unprocessed,
        BuilderView::of_unprocessed(unprocessed).processed.len() == 0,
        is_as_usual(BuilderView::of_processed(processed)),
        is_as_usual(BuilderView::of_unprocessed(unprocessed)),
{
}

} // verus!
