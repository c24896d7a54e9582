//! The command around the cursor, cut into the parts that completion looks at.

use vstd::prelude::*;

verus! {

use crate::suggestion::CompType;
use crate::text::{
    byte_len,
    byte_length,
    char_count,
    concat,
    concat3,
    first_word,
    substring,
    trim_start,
    trimmed_start,
    word_at_start,
};

/// A piece of the edited text and the byte at which it starts.
#[derive(Debug, PartialEq, Eq)]
pub struct SubString {
    pub s: String,
    pub start: usize,
}

impl SubString {
    pub fn copied(&self) -> (r: SubString)
        ensures
            r == *self,
    {
        SubString { s: self.s.clone(), start: self.start }
    }
}

/// The command in which the cursor stands. Its text is
/// `before + left + right + after`; the word under the cursor is `left + right`,
/// with the cursor between the two.
#[derive(Debug, PartialEq, Eq)]
pub struct CompletionContext {
    /// The byte of the edited text at which the command starts.
    pub start: usize,
    pub before: String,
    pub left: String,
    pub right: String,
    pub after: String,
    pub is_inside_quotes: bool,
    /// The ways of completing the word, the most specific first.
    pub comp_types: Vec<CompType>,
}

/// `before` with its first word replaced by `alias`.
pub open spec fn expand_first_word(before: Seq<char>, alias: Seq<char>) -> Seq<char> {
    let body = trim_start(before);
    let word = first_word(before);
    if word.len() == 0 {
        before
    } else {
        before.take(before.len() - body.len()) + alias + body.skip(word.len() as int)
    }
}

/// What is left of a text after white space, or after its first word, is its end.
pub proof fn lemma_trim_start_suffix(s: Seq<char>)
    ensures
        trim_start(s).len() <= s.len(),
        trim_start(s) == s.skip(s.len() - trim_start(s).len()),
    decreases s.len(),
{
    if s.len() > 0 && crate::text::is_white(s[0]) {
        lemma_trim_start_suffix(s.skip(1));
        assert(s.skip(1).skip(s.skip(1).len() - trim_start(s).len()) =~= s.skip(
            s.len() - trim_start(s).len(),
        ));
    } else {
        assert(s.skip(0) =~= s);
    }
}

/// The word at the start of a text is a start of it.
pub proof fn lemma_leading_word_prefix(s: Seq<char>)
    ensures
        crate::text::leading_word(s).len() <= s.len(),
        crate::text::leading_word(s) == s.take(crate::text::leading_word(s).len() as int),
    decreases s.len(),
{
    if s.len() > 0 && !crate::text::is_white(s[0]) {
        lemma_leading_word_prefix(s.skip(1));
        assert(s.take(crate::text::leading_word(s).len() as int) =~= seq![s[0]] + s.skip(1).take(
            crate::text::leading_word(s.skip(1)).len() as int,
        ));
    } else {
        assert(s.take(0) =~= Seq::empty());
    }
}

impl CompletionContext {
    /// The text of the command.
    pub open spec fn command(self) -> Seq<char> {
        self.before@ + self.left@ + self.right@ + self.after@
    }

    /// The word under the cursor.
    pub open spec fn word(self) -> Seq<char> {
        self.left@ + self.right@
    }

    /// Byte positions in the edited text fit their type.
    pub open spec fn wf(self) -> bool {
        self.start + byte_len(self.before@) + byte_len(self.left@) + byte_len(self.right@)
            + byte_len(self.after@) <= usize::MAX
    }

    pub fn context(&self) -> (r: String)
        ensures
            r@ == self.command(),
    {
        let head = concat3(self.before.as_str(), self.left.as_str(), self.right.as_str());
        concat(head.as_str(), self.after.as_str())
    }

    pub fn word_under_cursor(&self) -> (r: String)
        ensures
            r@ == self.word(),
    {
        concat(self.left.as_str(), self.right.as_str())
    }

    /// The word under the cursor with its place in the edited text.
    pub fn word_substring(&self) -> (r: SubString)
        requires
            self.wf(),
        ensures
            r.s@ == self.word(),
            r.start == self.start + byte_len(self.before@),
    {
        let start: usize = self.start + byte_length(self.before.as_str()) as usize;
        SubString { s: self.word_under_cursor(), start }
    }

    pub fn word_left_of_cursor(&self) -> (r: &str)
        ensures
            r@ == self.left@,
    {
        self.left.as_str()
    }

    pub fn word_right_of_cursor(&self) -> (r: &str)
        ensures
            r@ == self.right@,
    {
        self.right.as_str()
    }

    /// The first word of the command, empty where there is none.
    pub fn command_word(&self) -> (r: String)
        ensures
            r@ == first_word(self.command()),
    {
        let command = self.context();
        word_at_start(command.as_str())
    }

    /// The values of the parts, apart from the ways of completing.
    pub open spec fn same_place(self, other: CompletionContext) -> bool {
        &&& self.start == other.start
        &&& self.is_inside_quotes == other.is_inside_quotes
    }

    /// The same command with the cursor at the end of the word under it.
    pub fn with_cursor_at_end_of_wuc(&self) -> (r: CompletionContext)
        ensures
            r.same_place(*self),
            r.before@ == self.before@,
            r.left@ == self.word(),
            r.right@ == Seq::<char>::empty(),
            r.after@ == self.after@,
            r.comp_types@ == self.comp_types@,
    {
        let word = self.word_under_cursor();
        self.with_wuc_replaced(word.as_str())
    }

    /// The same command with another word under the cursor, which stands at its
    /// end.
    pub fn with_wuc_replaced(&self, word: &str) -> (r: CompletionContext)
        ensures
            r.same_place(*self),
            r.before@ == self.before@,
            r.left@ == word@,
            r.right@ == Seq::<char>::empty(),
            r.after@ == self.after@,
            r.comp_types@ == self.comp_types@,
    {
        CompletionContext {
            start: self.start,
            before: self.before.clone(),
            left: word.to_owned(),
            right: String::new(),
            after: self.after.clone(),
            is_inside_quotes: self.is_inside_quotes,
            comp_types: copied_comp_types(&self.comp_types),
        }
    }

    /// The same command with its first word replaced by `alias`. Where the word
    /// under the cursor is the first one, nothing is replaced.
    pub fn with_expanded_alias(&self, alias: &str) -> (r: CompletionContext)
        ensures
            r.same_place(*self),
            r.before@ == expand_first_word(self.before@, alias@),
            r.left@ == self.left@,
            r.right@ == self.right@,
            r.after@ == self.after@,
            r.comp_types@ == self.comp_types@,
    {
        let before = self.before.as_str();
        let body = trimmed_start(before);
        let word = word_at_start(before);
        proof {
            lemma_trim_start_suffix(before@);
            lemma_leading_word_prefix(trim_start(before@));
        }
        let expanded: String = if word.as_str().is_empty() {
            self.before.clone()
        } else {
            let n: usize = char_count(before);
            let k: usize = char_count(body.as_str());
            let lead = substring(before, 0, n - k);
            let rest = substring(body.as_str(), char_count(word.as_str()), k);
            assert(lead@ =~= before@.take(before@.len() - body@.len()));
            assert(rest@ =~= body@.skip(word@.len() as int));
            concat3(lead.as_str(), alias, rest.as_str())
        };
        CompletionContext {
            start: self.start,
            before: expanded,
            left: self.left.clone(),
            right: self.right.clone(),
            after: self.after.clone(),
            is_inside_quotes: self.is_inside_quotes,
            comp_types: copied_comp_types(&self.comp_types),
        }
    }
}

/// Copies of ways of completing.
pub fn copied_comp_types(list: &Vec<CompType>) -> (r: Vec<CompType>)
    ensures
        r@ == list@,
{
    let mut out: Vec<CompType> = Vec::new();
    let mut i: usize = 0;
    while i < list.len()
        invariant
            i <= list@.len(),
            out@ == list@.take(i as int),
        decreases list@.len() - i,
    {
        out.push(list[i].copied());
        assert(list@.take(i + 1) =~= list@.take(i as int).push(list@[i as int]));
        i = i + 1;
    }
    assert(list@.take(list@.len() as int) =~= list@);
    out
}

/// A command whose first word is no alias stays as it is.
pub proof fn lemma_no_alias_changes_nothing(before: Seq<char>)
    ensures
        expand_first_word(before, first_word(before)) == before,
{
    let body = trim_start(before);
    lemma_trim_start_suffix(before);
    lemma_leading_word_prefix(body);
    if first_word(before).len() > 0 {
        assert(before.take(before.len() - body.len()) + first_word(before) + body.skip(
            first_word(before).len() as int,
        ) =~= before);
    }
}

/// An alias takes the place of the first word, and nothing else changes. Where there is
/// no word before the one under the cursor, nothing changes at all.
pub proof fn lemma_alias_replaces_the_first_word(
    lead: Seq<char>,
    word: Seq<char>,
    tail: Seq<char>,
    alias: Seq<char>,
)
    requires
        crate::text::is_first_word_between(lead, word, tail),
    ensures
        expand_first_word(lead + word + tail, alias) == lead + alias + tail,
        expand_first_word(lead, alias) == lead,
{
    crate::text::lemma_first_word_is_found(lead, word, tail);
    let s = lead + word + tail;
    assert(s.take(s.len() - (word + tail).len()) =~= lead);
    assert((word + tail).skip(word.len() as int) =~= tail);
    let (a, b) = crate::text::lemma_first_word_stands(lead);
}

/// The command is all that stands before the word, the word on both sides of the cursor,
/// and all that stands behind it.
pub proof fn lemma_command_has_all_parts(ctx: CompletionContext)
    ensures
        ctx.command() == ctx.before@ + ctx.word() + ctx.after@,
        ctx.word() == ctx.left@ + ctx.right@,
        ctx.command().len() == ctx.before@.len() + ctx.left@.len() + ctx.right@.len()
            + ctx.after@.len(),
{
    assert(ctx.command() =~= ctx.before@ + ctx.word() + ctx.after@);
}

} // verus!
