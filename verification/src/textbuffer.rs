//! The edited text with its cursor and selection.

use vstd::prelude::*;

verus! {

use crate::context::SubString;
use crate::text::{
    byte_len,
    byte_length,
    bytes_of_char,
    char_count,
    chars_of,
    concat,
    concat3,
    occurs_at,
    same_text,
    substring,
    whole_text,
};

/// The edited text. Positions count characters.
#[derive(Debug, PartialEq, Eq)]
pub struct TextBuffer {
    pub text: String,
    /// The cursor stands before this character.
    pub cursor: usize,
    /// Where the selection was started; it reaches to the cursor.
    pub selection: Option<usize>,
}

/// `i` is the character at which byte `b` of `s` starts.
pub open spec fn at_byte(s: Seq<char>, i: int, b: int) -> bool {
    0 <= i <= s.len() && byte_len(s.take(i)) == b
}

proof fn lemma_byte_len_grows(s: Seq<char>, i: int, j: int)
    requires
        0 <= i < j <= s.len(),
    ensures
        byte_len(s.take(i)) < byte_len(s.take(j)),
    decreases j - i,
{
    assert(s.take(j).drop_last() =~= s.take(j - 1));
    if i < j - 1 {
        lemma_byte_len_grows(s, i, j - 1);
    }
}

/// A byte starts one character at most.
pub proof fn lemma_at_byte_unique(s: Seq<char>, i: int, j: int, b: int)
    requires
        at_byte(s, i, b),
        at_byte(s, j, b),
    ensures
        i == j,
{
    if i < j {
        lemma_byte_len_grows(s, i, j);
    } else if j < i {
        lemma_byte_len_grows(s, j, i);
    }
}

/// The character at which byte `b` of `chars` starts.
pub fn char_at_byte(chars: &Vec<char>, b: usize) -> (r: Option<usize>)
    ensures
        r is Some <==> exists|i: int| at_byte(chars@, i, b as int),
        r matches Some(i) ==> at_byte(chars@, i as int, b as int),
{
    let mut bytes: u128 = 0;
    let mut i: usize = 0;
    assert(chars@.take(0) =~= Seq::empty());
    while i < chars.len() && bytes < b as u128
        invariant
            i <= chars@.len(),
            bytes == byte_len(chars@.take(i as int)),
            bytes <= 4 * i,
            forall|k: int| 0 <= k < i ==> byte_len(#[trigger] chars@.take(k)) < b,
        decreases chars@.len() - i,
    {
        assert(chars@.take(i + 1).drop_last() =~= chars@.take(i as int));
        bytes = bytes + bytes_of_char(chars[i]) as u128;
        i = i + 1;
    }
    if bytes == b as u128 {
        assert(at_byte(chars@, i as int, b as int));
        Some(i)
    } else {
        assert forall|k: int| !at_byte(chars@, k, b as int) by {
            if at_byte(chars@, k, b as int) {
                if k < i {
                    assert(byte_len(chars@.take(k)) < b);
                } else if k > i {
                    lemma_byte_len_grows(chars@, i as int, k);
                    if bytes < b as u128 {
                        assert(i == chars@.len());
                    }
                }
            }
        }
        None
    }
}

/// A text with its line ends written as line feeds alone.
pub open spec fn sanitized(s: Seq<char>) -> Seq<char>
    decreases s.len(),
{
    if s.len() == 0 {
        Seq::empty()
    } else if s[0] == '\r' {
        if s.len() > 1 && s[1] == '\n' {
            seq!['\n'] + sanitized(s.skip(2))
        } else {
            seq!['\n'] + sanitized(s.skip(1))
        }
    } else {
        seq![s[0]] + sanitized(s.skip(1))
    }
}

/// Writes the line ends of `s` as line feeds alone.
pub fn sanitize(s: &str) -> (r: String)
    ensures
        r@ == sanitized(s@),
{
    let a = chars_of(s);
    let mut out: Vec<char> = Vec::new();
    let mut i: usize = 0;
    assert(s@.skip(0) =~= s@);
    assert(out@ + sanitized(s@) =~= sanitized(s@));
    while i < a.len()
        invariant
            a@ == s@,
            i <= a@.len(),
            sanitized(s@) == out@ + sanitized(s@.skip(i as int)),
        decreases a@.len() - i,
    {
        let ghost rest = s@.skip(i as int);
        let ghost before = out@;
        assert(rest.skip(1) =~= s@.skip(i + 1));
        if a[i] == '\r' {
            out.push('\n');
            assert(out@ =~= before + seq!['\n']);
            if a.len() - i > 1 && a[i + 1] == '\n' {
                assert(rest.skip(2) =~= s@.skip(i + 2));
                assert(before + (seq!['\n'] + sanitized(rest.skip(2))) =~= out@ + sanitized(
                    rest.skip(2),
                ));
                i = i + 2;
            } else {
                assert(before + (seq!['\n'] + sanitized(rest.skip(1))) =~= out@ + sanitized(
                    rest.skip(1),
                ));
                i = i + 1;
            }
        } else {
            out.push(a[i]);
            assert(out@ =~= before + seq![rest[0]]);
            assert(before + (seq![rest[0]] + sanitized(rest.skip(1))) =~= out@ + sanitized(
                rest.skip(1),
            ));
            i = i + 1;
        }
    }
    assert(sanitized(s@.skip(i as int)) =~= Seq::empty());
    whole_text(&out)
}

/// `word` stands in `text` at byte `start`, which is character `i`.
pub open spec fn word_stands_at(text: Seq<char>, word: Seq<char>, start: int, i: int) -> bool {
    at_byte(text, i, start) && occurs_at(text, word, i)
}

impl TextBuffer {
    /// The cursor stands in the text.
    pub open spec fn wf(self) -> bool {
        self.cursor <= self.text@.len()
    }

    /// A text with the cursor at its end and nothing selected.
    pub open spec fn is_fresh(self, text: Seq<char>) -> bool {
        &&& self.text@ == text
        &&& self.cursor == text.len()
        &&& self.selection is None
    }

    /// The byte at which the cursor stands.
    pub open spec fn cursor_byte(self) -> nat {
        byte_len(self.text@.take(self.cursor as int))
    }

    pub fn new(text: &str) -> (r: TextBuffer)
        ensures
            r.wf(),
            r.is_fresh(text@),
    {
        TextBuffer { text: text.to_owned(), cursor: char_count(text), selection: None }
    }

    pub fn buffer(&self) -> (r: &str)
        ensures
            r@ == self.text@,
    {
        self.text.as_str()
    }

    /// The byte at which the cursor stands.
    pub fn cursor_byte_pos(&self) -> (r: u128)
        requires
            self.wf(),
        ensures
            r == self.cursor_byte(),
    {
        let head = substring(self.text.as_str(), 0, self.cursor);
        assert(head@ =~= self.text@.take(self.cursor as int));
        byte_length(head.as_str())
    }

    /// Replaces the whole text.
    pub fn replace_buffer(&mut self, text: &str)
        ensures
            final(self).wf(),
            final(self).is_fresh(text@),
    {
        self.text = text.to_owned();
        self.cursor = char_count(text);
        self.selection = None;
    }

    /// The selected characters, from the first to behind the last, where there are
    /// any.
    pub open spec fn selected(self) -> Option<(int, int)> {
        match self.selection {
            Some(anchor) => if anchor == self.cursor || anchor > self.text@.len() {
                None
            } else if anchor < self.cursor {
                Some((anchor as int, self.cursor as int))
            } else {
                Some((self.cursor as int, anchor as int))
            },
            None => None,
        }
    }

    /// The selected characters, from the first to behind the last.
    pub fn selection_range(&self) -> (r: Option<(usize, usize)>)
        requires
            self.wf(),
        ensures
            r is Some <==> self.selected() is Some,
            r matches Some((a, b)) ==> self.selected() == Some((a as int, b as int)) && a < b
                && b <= self.text@.len(),
    {
        match self.selection {
            Some(anchor) => {
                if anchor == self.cursor || anchor > char_count(self.text.as_str()) {
                    None
                } else if anchor < self.cursor {
                    Some((anchor, self.cursor))
                } else {
                    Some((self.cursor, anchor))
                }
            },
            None => None,
        }
    }

    /// Takes the selected characters out, and the selection with them.
    pub fn delete_selection(&mut self) -> (r: bool)
        requires
            old(self).wf(),
        ensures
            final(self).wf(),
            final(self).selection is None,
            r == (old(self).selected() is Some),
            match old(self).selected() {
                Some((a, b)) => final(self).text@ == old(self).text@.take(a) + old(self).text@.skip(b) && final(self).cursor == a,
                None => final(self).text@ == old(self).text@ && final(self).cursor == old(self).cursor,
            },
    {
        let range = self.selection_range();
        self.selection = None;
        match range {
            Some((a, b)) => {
                let n: usize = char_count(self.text.as_str());
                let head = substring(self.text.as_str(), 0, a);
                let tail = substring(self.text.as_str(), b, n);
                assert(head@ =~= self.text@.take(a as int));
                assert(tail@ =~= self.text@.skip(b as int));
                self.text = concat(head.as_str(), tail.as_str());
                self.cursor = a;
                true
            },
            None => false,
        }
    }

    /// Inserts a text before the cursor, with its line ends as line feeds.
    pub fn insert_str(&mut self, s: &str)
        requires
            old(self).wf(),
        ensures
            final(self).wf(),
            final(self).text@ == old(self).text@.take(old(self).cursor as int) + sanitized(s@)
                + old(self).text@.skip(old(self).cursor as int),
            final(self).cursor == old(self).cursor + sanitized(s@).len(),
            final(self).selection == old(self).selection,
    {
        let n: usize = char_count(self.text.as_str());
        let head = substring(self.text.as_str(), 0, self.cursor);
        let tail = substring(self.text.as_str(), self.cursor, n);
        let middle = sanitize(s);
        assert(head@ =~= self.text@.take(self.cursor as int));
        assert(tail@ =~= self.text@.skip(self.cursor as int));
        self.text = concat3(head.as_str(), middle.as_str(), tail.as_str());
        self.cursor = char_count(self.text.as_str()) - (n - self.cursor);
    }

    /// Inserts a line feed before the cursor.
    pub fn insert_newline(&mut self)
        requires
            old(self).wf(),
        ensures
            final(self).wf(),
            final(self).text@ == old(self).text@.take(old(self).cursor as int) + seq!['\n'] + old(self).text@.skip(old(self).cursor as int),
            final(self).cursor == old(self).cursor + 1,
            final(self).selection == old(self).selection,
    {
        let n: usize = char_count(self.text.as_str());
        let head = substring(self.text.as_str(), 0, self.cursor);
        let tail = substring(self.text.as_str(), self.cursor, n);
        assert(head@ =~= self.text@.take(self.cursor as int));
        assert(tail@ =~= self.text@.skip(self.cursor as int));
        proof {
            reveal_strlit("\n");
        }
        assert("\n"@ =~= seq!['\n']);
        self.text = concat3(head.as_str(), "\n", tail.as_str());
        self.cursor = char_count(self.text.as_str()) - (n - self.cursor);
    }

    /// The word of `sub` stands where `sub` says.
    pub open spec fn holds(self, sub: SubString) -> bool {
        exists|i: int| word_stands_at(self.text@, sub.s@, sub.start as int, i)
    }

    /// `self` is `before` with the word at character `i` replaced by `word`, and
    /// the cursor behind it.
    pub open spec fn has_replaced(self, before: TextBuffer, sub: SubString, i: int, word: Seq<
        char,
    >) -> bool {
        &&& self.text@ == before.text@.take(i) + sanitized(word) + before.text@.skip(
            i + sub.s@.len(),
        )
        &&& self.cursor == i + sanitized(word).len()
        &&& self.selection == before.selection
    }

    /// Replaces the word of `sub` where it stands, and gives the new word with its
    /// place. Where another text stands there, nothing changes.
    pub fn replace_word_under_cursor(&mut self, new_word: &str, sub: &SubString) -> (r: Option<
        SubString,
    >)
        requires
            old(self).wf(),
        ensures
            final(self).wf(),
            r is Some <==> old(self).holds(*sub),
            r is None ==> *final(self) == *old(self),
            r matches Some(new) ==> {
                &&& new.s@ == new_word@
                &&& new.start == sub.start
                &&& exists|i: int|
                    word_stands_at(old(self).text@, sub.s@, sub.start as int, i) && final(self).has_replaced(*old(self), *sub, i, new_word@)
            },
    {
        let chars = chars_of(self.text.as_str());
        let n: usize = chars.len();
        let k: usize = char_count(sub.s.as_str());
        let found = char_at_byte(&chars, sub.start);
        let at: usize = match found {
            Some(at) => at,
            None => {
                return None;
            },
        };
        assert forall|i: int| word_stands_at(self.text@, sub.s@, sub.start as int, i) implies i
            == at by {
            lemma_at_byte_unique(self.text@, i, at as int, sub.start as int);
        }
        if k > n - at {
            return None;
        }
        let there = substring(self.text.as_str(), at, at + k);
        if !same_text(there.as_str(), sub.s.as_str()) {
            return None;
        }
        assert(word_stands_at(self.text@, sub.s@, sub.start as int, at as int));
        let head = substring(self.text.as_str(), 0, at);
        let tail = substring(self.text.as_str(), at + k, n);
        let middle = sanitize(new_word);
        assert(head@ =~= self.text@.take(at as int));
        assert(tail@ =~= self.text@.skip(at + k));
        self.text = concat3(head.as_str(), middle.as_str(), tail.as_str());
        self.cursor = char_count(self.text.as_str()) - (n - at - k);
        assert(self.has_replaced(*old(self), *sub, at as int, new_word@));
        Some(SubString { s: new_word.to_owned(), start: sub.start })
    }
}

/// A word that was put in place of another stands there afterwards, if its line
/// ends were line feeds: it can be replaced in turn.
pub proof fn lemma_replaced_word_stands(
    before: TextBuffer,
    after: TextBuffer,
    sub: SubString,
    i: int,
    word: Seq<char>,
)
    requires
        word_stands_at(before.text@, sub.s@, sub.start as int, i),
        after.has_replaced(before, sub, i, word),
        sanitized(word) == word,
    ensures
        word_stands_at(after.text@, word, sub.start as int, i),
{
    assert(after.text@.take(i) =~= before.text@.take(i));
    assert(after.text@.subrange(i, i + word.len()) =~= word);
}

/// Text without carriage returns is inserted as it is.
pub proof fn lemma_sanitized_plain(s: Seq<char>)
    requires
        !s.contains('\r'),
    ensures
        sanitized(s) == s,
    decreases s.len(),
{
    if s.len() > 0 {
        assert(s.contains(s[0]));
        assert forall|k: int| 0 <= k < s.skip(1).len() implies s.skip(1)[k] != '\r' by {
            assert(s.contains(s[k + 1]));
        }
        lemma_sanitized_plain(s.skip(1));
        assert(seq![s[0]] + s.skip(1) =~= s);
    } else {
        assert(sanitized(s) =~= s);
    }
}

/// No carriage return is ever inserted.
pub proof fn lemma_sanitized_has_no_carriage_return(s: Seq<char>)
    ensures
        !sanitized(s).contains('\r'),
    decreases s.len(),
{
    if s.len() > 0 {
        if s[0] == '\r' {
            if s.len() > 1 && s[1] == '\n' {
                lemma_sanitized_has_no_carriage_return(s.skip(2));
            } else {
                lemma_sanitized_has_no_carriage_return(s.skip(1));
            }
        } else {
            lemma_sanitized_has_no_carriage_return(s.skip(1));
        }
        assert forall|k: int| 0 <= k < sanitized(s).len() implies sanitized(s)[k] != '\r' by {
            if k > 0 {
                if s[0] == '\r' && s.len() > 1 && s[1] == '\n' {
                    assert(sanitized(s)[k] == sanitized(s.skip(2))[k - 1]);
                    assert(sanitized(s.skip(2)).contains(sanitized(s.skip(2))[k - 1]));
                } else {
                    assert(sanitized(s)[k] == sanitized(s.skip(1))[k - 1]);
                    assert(sanitized(s.skip(1)).contains(sanitized(s.skip(1))[k - 1]));
                }
            }
        }
    }
}

/// Line ends become line feeds one by one: a carriage return becomes one, and together
/// with the line feed behind it only one; every other character stays. Two texts are
/// treated each by itself, unless such a pair is cut in two.
pub proof fn lemma_line_ends_become_line_feeds(a: Seq<char>, b: Seq<char>, c: char)
    ensures
        sanitized(seq!['\r', '\n']) == seq!['\n'],
        sanitized(seq![c]) == (if c == '\r' {
            seq!['\n']
        } else {
            seq![c]
        }),
        !(a.len() > 0 && a.last() == '\r' && b.len() > 0 && b[0] == '\n') ==> sanitized(a + b)
            == sanitized(a) + sanitized(b),
    decreases a.len(),
{
    let pair = seq!['\r', '\n'];
    assert(pair.skip(2) =~= Seq::empty());
    assert(sanitized(pair.skip(2)) =~= Seq::empty());
    assert(sanitized(pair) =~= seq!['\n']);
    assert(seq![c].skip(1) =~= Seq::empty());
    assert(sanitized(seq![c].skip(1)) =~= Seq::empty());
    assert(sanitized(seq![c]) =~= (if c == '\r' {
        seq!['\n']
    } else {
        seq![c]
    }));
    if !(a.len() > 0 && a.last() == '\r' && b.len() > 0 && b[0] == '\n') {
        let whole = a + b;
        if a.len() == 0 {
            assert(whole =~= b);
            assert(sanitized(a) + sanitized(b) =~= sanitized(b));
        } else {
            assert(whole[0] == a[0]);
            if a[0] == '\r' && a.len() > 1 && a[1] == '\n' {
                assert(whole[1] == a[1]);
                lemma_line_ends_become_line_feeds(a.skip(2), b, c);
                assert(whole.skip(2) =~= a.skip(2) + b);
                if a.len() > 2 {
                    assert(a.skip(2).last() == a.last());
                }
            } else {
                lemma_line_ends_become_line_feeds(a.skip(1), b, c);
                assert(whole.skip(1) =~= a.skip(1) + b);
                if a.len() > 1 {
                    assert(a.skip(1).last() == a.last());
                    assert(whole[1] == a[1]);
                } else if b.len() > 0 {
                    assert(whole[1] == b[0]);
                }
            }
            assert(sanitized(whole) =~= sanitized(a) + sanitized(b));
        }
    }
}

/// What is selected lies between the place where the selection was started and the
/// cursor, whichever of them comes first.
pub proof fn lemma_selection_lies_between(buffer: TextBuffer, a: int, b: int)
    requires
        buffer.wf(),
    ensures
        buffer.selected() == Some((a, b)) <==> 0 <= a < b <= buffer.text@.len()
            && (buffer.selection matches Some(anchor) && ((anchor == a && buffer.cursor == b) || (
        anchor == b && buffer.cursor == a))),
{
}

} // verus!
