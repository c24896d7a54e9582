//! Text as sequences of characters: the searching, cutting and joining that the
//! rest of the library is built on.

use vstd::prelude::*;

verus! {

/// `String::push` appends one character to the end of the string.
pub assume_specification[ String::push ](s: &mut String, ch: char)
    ensures
        final(s)@ == old(s)@.push(ch),
;

/// The characters of `s`, in order.
pub fn chars_of(s: &str) -> (r: Vec<char>)
    ensures
        r@ == s@,
{
    let mut out: Vec<char> = Vec::new();
    for c in it: s.chars()
        invariant
            it.seq() == s@,
            out@ == it.seq().take(it.index()),
    {
        out.push(c);
        assert(it.seq().take(it.index() + 1) =~= it.seq().take(it.index()).push(c));
    }
    assert(s@.take(s@.len() as int) =~= s@);
    out
}

/// The text made of `chars[from..to]`.
pub fn text_of(chars: &Vec<char>, from: usize, to: usize) -> (r: String)
    requires
        from <= to <= chars@.len(),
    ensures
        r@ == chars@.subrange(from as int, to as int),
{
    let mut out = String::new();
    let mut i: usize = from;
    assert(chars@.subrange(from as int, from as int) =~= Seq::<char>::empty());
    while i < to
        invariant
            from <= i <= to <= chars@.len(),
            out@ == chars@.subrange(from as int, i as int),
        decreases to - i,
    {
        out.push(chars[i]);
        i = i + 1;
        assert(chars@.subrange(from as int, i as int) =~= chars@.subrange(
            from as int,
            i - 1,
        ).push(chars@[i - 1]));
    }
    out
}

/// The characters with the Unicode property `White_Space`.
pub open spec fn is_white(c: char) -> bool {
    let n = c as u32;
    ||| 0x9 <= n <= 0xd
    ||| n == 0x20
    ||| n == 0x85
    ||| n == 0xa0
    ||| n == 0x1680
    ||| 0x2000 <= n <= 0x200a
    ||| n == 0x2028
    ||| n == 0x2029
    ||| n == 0x202f
    ||| n == 0x205f
    ||| n == 0x3000
}

/// Whether `c` is white space.
pub fn white(c: char) -> (r: bool)
    ensures
        r == is_white(c),
{
    let n: u32 = c as u32;
    (0x9 <= n && n <= 0xd) || n == 0x20 || n == 0x85 || n == 0xa0 || n == 0x1680 || (0x2000 <= n
        && n <= 0x200a) || n == 0x2028 || n == 0x2029 || n == 0x202f || n == 0x205f || n == 0x3000
}

/// `s` without its leading white space.
pub open spec fn trim_start(s: Seq<char>) -> Seq<char>
    decreases s.len(),
{
    if s.len() > 0 && is_white(s[0]) {
        trim_start(s.drop_first())
    } else {
        s
    }
}

/// `s` without the characters at its end that satisfy `drop`.
pub open spec fn trim_end_by(s: Seq<char>, drop: spec_fn(char) -> bool) -> Seq<char>
    decreases s.len(),
{
    if s.len() > 0 && drop(s.last()) {
        trim_end_by(s.drop_last(), drop)
    } else {
        s
    }
}

/// `s` without white space at either end.
pub open spec fn trim(s: Seq<char>) -> Seq<char> {
    trim_end_by(trim_start(s), |c: char| is_white(c))
}

/// The longest start of `s` that holds no white space.
pub open spec fn leading_word(s: Seq<char>) -> Seq<char>
    decreases s.len(),
{
    if s.len() == 0 || is_white(s[0]) {
        Seq::empty()
    } else {
        seq![s[0]] + leading_word(s.drop_first())
    }
}

/// The first word of `s`: what stands between its leading white space and the
/// next white space. It is empty where `s` holds nothing but white space.
pub open spec fn first_word(s: Seq<char>) -> Seq<char> {
    leading_word(trim_start(s))
}

/// How many characters of `s` are `c`.
pub open spec fn count_of(s: Seq<char>, c: char) -> nat
    decreases s.len(),
{
    if s.len() == 0 {
        0
    } else {
        count_of(s.drop_last(), c) + if s.last() == c {
            1nat
        } else {
            0nat
        }
    }
}

/// The pieces of `s` between the occurrences of `sep`: one more than there are
/// occurrences.
pub open spec fn split(s: Seq<char>, sep: char) -> Seq<Seq<char>>
    decreases s.len(),
{
    if s.len() == 0 {
        seq![Seq::<char>::empty()]
    } else {
        let before = split(s.drop_last(), sep);
        if s.last() == sep {
            before.push(Seq::empty())
        } else {
            before.drop_last().push(before.last().push(s.last()))
        }
    }
}

/// The pieces of `s` between the occurrences of `sep`, without the empty ones.
pub open spec fn split_nonempty(s: Seq<char>, sep: char) -> Seq<Seq<char>> {
    split(s, sep).filter(|p: Seq<char>| p.len() > 0)
}

/// `parts` one after the other, with `sep` between each two.
pub open spec fn join(parts: Seq<Seq<char>>, sep: Seq<char>) -> Seq<char>
    decreases parts.len(),
{
    if parts.len() == 0 {
        Seq::empty()
    } else if parts.len() == 1 {
        parts[0]
    } else {
        join(parts.drop_last(), sep) + sep + parts.last()
    }
}

/// `pat` stands in `s` at position `i`.
pub open spec fn occurs_at(s: Seq<char>, pat: Seq<char>, i: int) -> bool {
    0 <= i && i + pat.len() <= s.len() && s.subrange(i, i + pat.len()) == pat
}

/// `i` is the first position at which `pat` stands in `s`.
pub open spec fn first_at(s: Seq<char>, pat: Seq<char>, i: int) -> bool {
    occurs_at(s, pat, i) && forall|k: int| 0 <= k < i ==> !#[trigger] occurs_at(s, pat, k)
}

/// `i` is the last position in `s` that holds `c`.
pub open spec fn last_at(s: Seq<char>, c: char, i: int) -> bool {
    0 <= i < s.len() && s[i] == c && forall|k: int| i < k < s.len() ==> s[k] != c
}

/// How many bytes the UTF-8 encoding of `c` takes.
pub open spec fn char_bytes(c: char) -> nat {
    let n = c as u32;
    if n < 0x80 {
        1
    } else if n < 0x800 {
        2
    } else if n < 0x10000 {
        3
    } else {
        4
    }
}

/// How many bytes the UTF-8 encoding of `s` takes.
pub open spec fn byte_len(s: Seq<char>) -> nat
    decreases s.len(),
{
    if s.len() == 0 {
        0
    } else {
        byte_len(s.drop_last()) + char_bytes(s.last())
    }
}

/// The whole of `chars` as text.
pub fn whole_text(chars: &Vec<char>) -> (r: String)
    ensures
        r@ == chars@,
{
    let r = text_of(chars, 0, chars.len());
    assert(chars@.subrange(0, chars@.len() as int) =~= chars@);
    r
}

/// Whether `pat` stands in `chars` at position `at`.
fn stands_at(chars: &Vec<char>, pat: &Vec<char>, at: usize) -> (r: bool)
    requires
        at + pat@.len() <= chars@.len(),
    ensures
        r == (chars@.subrange(at as int, at + pat@.len()) == pat@),
{
    let n: usize = chars.len();
    let mut i: usize = 0;
    while i < pat.len()
        invariant
            i <= pat@.len(),
            at + pat@.len() <= chars@.len(),
            n == chars@.len(),
            forall|k: int| 0 <= k < i ==> chars@[at + k] == pat@[k],
        decreases pat@.len() - i,
    {
        if chars[at + i] != pat[i] {
            assert(chars@.subrange(at as int, at + pat@.len())[i as int] != pat@[i as int]);
            return false;
        }
        i = i + 1;
    }
    assert(chars@.subrange(at as int, at + pat@.len()) =~= pat@);
    true
}

/// Whether `s` and `t` are the same text.
pub fn same_text(s: &str, t: &str) -> (r: bool)
    ensures
        r == (s@ == t@),
{
    let a = chars_of(s);
    let b = chars_of(t);
    if a.len() != b.len() {
        return false;
    }
    let r = stands_at(&a, &b, 0);
    assert(a@.subrange(0, b@.len() as int) =~= a@);
    r
}

/// Whether `s` starts with `p`.
pub fn has_prefix(s: &str, p: &str) -> (r: bool)
    ensures
        r == p@.is_prefix_of(s@),
{
    let a = chars_of(s);
    let b = chars_of(p);
    b.len() <= a.len() && stands_at(&a, &b, 0)
}

/// Whether `s` ends with `p`.
pub fn has_suffix(s: &str, p: &str) -> (r: bool)
    ensures
        r == p@.is_suffix_of(s@),
{
    let a = chars_of(s);
    let b = chars_of(p);
    if b.len() > a.len() {
        return false;
    }
    let at: usize = a.len() - b.len();
    let r = stands_at(&a, &b, at);
    assert(at + b@.len() == a@.len());
    r
}

/// What follows `p` in `s`, where `s` starts with `p`.
pub fn without_prefix(s: &str, p: &str) -> (r: Option<String>)
    ensures
        r is Some <==> p@.is_prefix_of(s@),
        r matches Some(rest) ==> rest@ == s@.skip(p@.len() as int) && s@ == p@ + rest@,
{
    let a = chars_of(s);
    let b = chars_of(p);
    if b.len() <= a.len() && stands_at(&a, &b, 0) {
        let rest = text_of(&a, b.len(), a.len());
        assert(rest@ =~= s@.skip(p@.len() as int));
        assert(s@ =~= p@ + rest@);
        Some(rest)
    } else {
        None
    }
}

/// What comes before `p` in `s`, where `s` ends with `p`.
pub fn without_suffix(s: &str, p: &str) -> (r: Option<String>)
    ensures
        r is Some <==> p@.is_suffix_of(s@),
        r matches Some(rest) ==> rest@ == s@.take(s@.len() - p@.len()) && s@ == rest@ + p@,
{
    let a = chars_of(s);
    let b = chars_of(p);
    if b.len() > a.len() {
        return None;
    }
    let at: usize = a.len() - b.len();
    if stands_at(&a, &b, at) {
        assert(at + b@.len() == a@.len());
        let rest = text_of(&a, 0, at);
        assert(rest@ =~= s@.take(s@.len() - p@.len()));
        assert(s@ =~= rest@ + p@);
        Some(rest)
    } else {
        assert(at + b@.len() == a@.len());
        None
    }
}

/// Whether `c` occurs in `s`.
pub fn has_char(s: &str, c: char) -> (r: bool)
    ensures
        r == s@.contains(c),
{
    let a = chars_of(s);
    let mut i: usize = 0;
    while i < a.len()
        invariant
            a@ == s@,
            i <= a@.len(),
            forall|k: int| 0 <= k < i ==> a@[k] != c,
        decreases a@.len() - i,
    {
        if a[i] == c {
            assert(s@[i as int] == c);
            return true;
        }
        i = i + 1;
    }
    false
}

/// Whether every character of `s` is `c`.
pub fn all_chars_are(s: &str, c: char) -> (r: bool)
    ensures
        r == forall|k: int| 0 <= k < s@.len() ==> s@[k] == c,
{
    let a = chars_of(s);
    let mut i: usize = 0;
    while i < a.len()
        invariant
            a@ == s@,
            i <= a@.len(),
            forall|k: int| 0 <= k < i ==> s@[k] == c,
        decreases a@.len() - i,
    {
        if a[i] != c {
            assert(s@[i as int] != c);
            return false;
        }
        i = i + 1;
    }
    true
}

/// The number of characters of `s`.
pub fn char_count(s: &str) -> (r: usize)
    ensures
        r == s@.len(),
{
    chars_of(s).len()
}

/// How often `c` occurs in `s`.
pub fn count_char(s: &str, c: char) -> (r: usize)
    ensures
        r == count_of(s@, c),
{
    let a = chars_of(s);
    let mut i: usize = 0;
    let mut n: usize = 0;
    while i < a.len()
        invariant
            a@ == s@,
            n <= i <= a@.len(),
            n == count_of(s@.take(i as int), c),
        decreases a@.len() - i,
    {
        assert(s@.take(i + 1).drop_last() =~= s@.take(i as int));
        if a[i] == c {
            n = n + 1;
        }
        i = i + 1;
    }
    assert(s@.take(s@.len() as int) =~= s@);
    n
}

/// The last position of `c` in `chars`.
pub fn last_position(chars: &Vec<char>, c: char) -> (r: Option<usize>)
    ensures
        r is Some <==> chars@.contains(c),
        r matches Some(i) ==> last_at(chars@, c, i as int),
{
    let mut i: usize = chars.len();
    while i > 0
        invariant
            i <= chars@.len(),
            forall|k: int| i <= k < chars@.len() ==> chars@[k] != c,
        decreases i,
    {
        i = i - 1;
        if chars[i] == c {
            assert(chars@[i as int] == c);
            return Some(i);
        }
    }
    None
}

/// The first position at which `pat` stands in `s`.
pub fn find_text(s: &str, pat: &str) -> (r: Option<usize>)
    ensures
        r is Some <==> exists|i: int| occurs_at(s@, pat@, i),
        r matches Some(i) ==> first_at(s@, pat@, i as int),
{
    let a = chars_of(s);
    let b = chars_of(pat);
    if b.len() > a.len() {
        return None;
    }
    let mut i: usize = 0;
    while i <= a.len() - b.len()
        invariant
            a@ == s@,
            b@ == pat@,
            b@.len() <= a@.len(),
            i <= a@.len() - b@.len() + 1,
            forall|k: int| 0 <= k < i ==> !#[trigger] occurs_at(s@, pat@, k),
        decreases a@.len() - b@.len() + 1 - i,
    {
        if stands_at(&a, &b, i) {
            assert(occurs_at(s@, pat@, i as int));
            return Some(i);
        }
        if i == a.len() - b.len() {
            assert forall|k: int| !occurs_at(s@, pat@, k) by {
                if k > i {
                    assert(k + pat@.len() > s@.len());
                }
            }
            return None;
        }
        i = i + 1;
    }
    None
}

/// The characters `from..to` of `s`.
pub fn substring(s: &str, from: usize, to: usize) -> (r: String)
    requires
        from <= to <= s@.len(),
    ensures
        r@ == s@.subrange(from as int, to as int),
{
    let a = chars_of(s);
    text_of(&a, from, to)
}

/// `a` and then `b`.
pub fn concat(a: &str, b: &str) -> (r: String)
    ensures
        r@ == a@ + b@,
{
    let mut out = a.to_owned();
    out.append(b);
    out
}

/// `a`, then `b`, then `c`.
pub fn concat3(a: &str, b: &str, c: &str) -> (r: String)
    ensures
        r@ == a@ + b@ + c@,
{
    let mut out = a.to_owned();
    out.append(b);
    out.append(c);
    out
}

/// `s` without its leading white space.
pub fn trimmed_start(s: &str) -> (r: String)
    ensures
        r@ == trim_start(s@),
{
    let a = chars_of(s);
    let from = first_solid(&a);
    text_of(&a, from, a.len())
}

/// The position of the first character of `chars` that is not white space.
fn first_solid(chars: &Vec<char>) -> (r: usize)
    ensures
        r <= chars@.len(),
        trim_start(chars@) == chars@.subrange(r as int, chars@.len() as int),
{
    let mut i: usize = 0;
    assert(chars@.subrange(0, chars@.len() as int) =~= chars@);
    while i < chars.len() && white(chars[i])
        invariant
            i <= chars@.len(),
            trim_start(chars@) == trim_start(chars@.subrange(i as int, chars@.len() as int)),
        decreases chars@.len() - i,
    {
        assert(chars@.subrange(i as int, chars@.len() as int).drop_first() =~= chars@.subrange(
            i + 1,
            chars@.len() as int,
        ));
        i = i + 1;
    }
    i
}

/// `s` without white space at either end.
pub fn trimmed(s: &str) -> (r: String)
    ensures
        r@ == trim(s@),
{
    let a = chars_of(s);
    let from = first_solid(&a);
    let mut to: usize = a.len();
    let ghost solid = |c: char| is_white(c);
    while to > from && white(a[to - 1])
        invariant
            from <= to <= a@.len(),
            solid == (|c: char| is_white(c)),
            trim_end_by(a@.subrange(from as int, a@.len() as int), solid) == trim_end_by(
                a@.subrange(from as int, to as int),
                solid,
            ),
        decreases to,
    {
        assert(a@.subrange(from as int, to as int).drop_last() =~= a@.subrange(
            from as int,
            to - 1,
        ));
        to = to - 1;
    }
    text_of(&a, from, to)
}

/// Whether `c` ends a line.
pub open spec fn is_line_end(c: char) -> bool {
    c == '\r' || c == '\n'
}

/// `s` without the line ends at its end.
pub fn without_line_ends(s: &str) -> (r: String)
    ensures
        r@ == trim_end_by(s@, |c: char| is_line_end(c)),
{
    let a = chars_of(s);
    let mut to: usize = a.len();
    let ghost ends = |c: char| is_line_end(c);
    assert(a@.subrange(0, a@.len() as int) =~= a@);
    while to > 0 && (a[to - 1] == '\r' || a[to - 1] == '\n')
        invariant
            to <= a@.len(),
            ends == (|c: char| is_line_end(c)),
            trim_end_by(a@, ends) == trim_end_by(a@.subrange(0, to as int), ends),
        decreases to,
    {
        assert(a@.subrange(0, to as int).drop_last() =~= a@.subrange(0, to - 1));
        to = to - 1;
    }
    text_of(&a, 0, to)
}

/// The first word of `s`, or nothing where `s` is white space alone.
pub fn word_at_start(s: &str) -> (r: String)
    ensures
        r@ == first_word(s@),
{
    let a = chars_of(s);
    let from = first_solid(&a);
    let mut to: usize = from;
    let ghost rest = a@.subrange(from as int, a@.len() as int);
    assert(rest.subrange(0, rest.len() as int) =~= rest);
    while to < a.len() && !white(a[to])
        invariant
            from <= to <= a@.len(),
            rest == a@.subrange(from as int, a@.len() as int),
            leading_word(rest) == a@.subrange(from as int, to as int) + leading_word(
                a@.subrange(to as int, a@.len() as int),
            ),
        decreases a@.len() - to,
    {
        let ghost tail = a@.subrange(to as int, a@.len() as int);
        assert(tail.drop_first() =~= a@.subrange(to + 1, a@.len() as int));
        assert(a@.subrange(from as int, to as int) + (seq![tail[0]] + leading_word(
            tail.drop_first(),
        )) =~= a@.subrange(from as int, to + 1) + leading_word(tail.drop_first()));
        to = to + 1;
    }
    assert(leading_word(a@.subrange(to as int, a@.len() as int)) =~= Seq::<char>::empty());
    assert(leading_word(rest) =~= a@.subrange(from as int, to as int));
    text_of(&a, from, to)
}

/// A list of texts, each as its characters.
pub open spec fn views(texts: Seq<String>) -> Seq<Seq<char>> {
    Seq::new(texts.len(), |i: int| texts[i]@)
}

/// The pieces of `s` between the occurrences of `sep`.
pub fn pieces(s: &str, sep: char) -> (r: Vec<String>)
    ensures
        views(r@) == split(s@, sep),
{
    let a = chars_of(s);
    let mut out: Vec<String> = Vec::new();
    let mut cur = String::new();
    let mut i: usize = 0;
    assert(views(out@).push(cur@) =~= seq![Seq::<char>::empty()]);
    while i < a.len()
        invariant
            a@ == s@,
            i <= a@.len(),
            split(s@.take(i as int), sep) == views(out@).push(cur@),
        decreases a@.len() - i,
    {
        assert(s@.take(i + 1).drop_last() =~= s@.take(i as int));
        let ghost before = views(out@).push(cur@);
        if a[i] == sep {
            out.push(cur);
            cur = String::new();
            assert(views(out@) =~= before);
        } else {
            cur.push(a[i]);
            assert(before.drop_last() =~= views(out@));
        }
        i = i + 1;
    }
    assert(s@.take(s@.len() as int) =~= s@);
    let ghost done = views(out@).push(cur@);
    out.push(cur);
    assert(views(out@) =~= done);
    out
}

/// `parts` one after the other, with `sep` between each two.
pub fn joined(parts: &Vec<String>, sep: &str) -> (r: String)
    ensures
        r@ == join(views(parts@), sep@),
{
    let mut out = String::new();
    let mut i: usize = 0;
    while i < parts.len()
        invariant
            i <= parts@.len(),
            out@ == join(views(parts@).take(i as int), sep@),
        decreases parts@.len() - i,
    {
        let ghost now = views(parts@).take(i + 1);
        assert(now.drop_last() =~= views(parts@).take(i as int));
        if i > 0 {
            out.append(sep);
        }
        out.append(parts[i].as_str());
        assert(now.last() == parts@[i as int]@);
        if i == 0 {
            assert(now =~= seq![parts@[0]@]);
            assert(out@ =~= parts@[0]@);
        }
        i = i + 1;
    }
    assert(views(parts@).take(parts@.len() as int) =~= views(parts@));
    out
}

/// How many bytes the UTF-8 encoding of `c` takes.
pub fn bytes_of_char(c: char) -> (r: usize)
    ensures
        r == char_bytes(c),
{
    let n: u32 = c as u32;
    if n < 0x80 {
        1
    } else if n < 0x800 {
        2
    } else if n < 0x10000 {
        3
    } else {
        4
    }
}

/// The bytes of a text are those of its two parts.
pub proof fn lemma_byte_len_add(a: Seq<char>, b: Seq<char>)
    ensures
        byte_len(a + b) == byte_len(a) + byte_len(b),
    decreases b.len(),
{
    if b.len() == 0 {
        assert(a + b =~= a);
    } else {
        assert((a + b).drop_last() =~= a + b.drop_last());
        lemma_byte_len_add(a, b.drop_last());
    }
}

/// A text has at least one byte for each character, and at most four.
pub proof fn lemma_byte_len_bounds(s: Seq<char>)
    ensures
        s.len() <= byte_len(s) <= 4 * s.len(),
    decreases s.len(),
{
    if s.len() > 0 {
        lemma_byte_len_bounds(s.drop_last());
    }
}

/// How many bytes the UTF-8 encoding of `s` takes.
pub fn byte_length(s: &str) -> (r: u128)
    ensures
        r == byte_len(s@),
{
    let a = chars_of(s);
    let mut i: usize = 0;
    let mut n: u128 = 0;
    while i < a.len()
        invariant
            a@ == s@,
            i <= a@.len(),
            n == byte_len(s@.take(i as int)),
            n <= 4 * i,
        decreases a@.len() - i,
    {
        assert(s@.take(i + 1).drop_last() =~= s@.take(i as int));
        n = n + bytes_of_char(a[i]) as u128;
        i = i + 1;
    }
    assert(s@.take(s@.len() as int) =~= s@);
    n
}

/// A text has one piece at least.
pub proof fn lemma_split_not_empty(s: Seq<char>, sep: char)
    ensures
        split(s, sep).len() > 0,
    decreases s.len(),
{
    if s.len() > 0 {
        lemma_split_not_empty(s.drop_last(), sep);
    }
}

/// What holds no separator belongs to the piece before it.
pub proof fn lemma_split_extend(s: Seq<char>, tail: Seq<char>, sep: char)
    requires
        !tail.contains(sep),
    ensures
        split(s + tail, sep) == split(s, sep).drop_last().push(split(s, sep).last() + tail),
    decreases tail.len(),
{
    lemma_split_not_empty(s, sep);
    if tail.len() == 0 {
        assert(s + tail =~= s);
        assert(split(s, sep).last() + tail =~= split(s, sep).last());
        assert(split(s, sep) =~= split(s, sep).drop_last().push(split(s, sep).last()));
    } else {
        let head = tail.drop_last();
        assert(tail.contains(tail.last()));
        assert forall|c: char| head.contains(c) implies tail.contains(c) by {
            let k = choose|k: int| 0 <= k < head.len() && head[k] == c;
            assert(tail[k] == c);
        }
        lemma_split_extend(s, head, sep);
        assert((s + tail).drop_last() =~= s + head);
        assert((s + tail).last() == tail.last());
        let before = split(s + head, sep);
        assert(before.drop_last() =~= split(s, sep).drop_last());
        assert(before.last().push(tail.last()) =~= split(s, sep).last() + tail);
    }
}

/// A separator at the start gives an empty piece before all others.
pub proof fn lemma_split_leading(s: Seq<char>, sep: char)
    ensures
        split(seq![sep] + s, sep) == seq![Seq::<char>::empty()] + split(s, sep),
    decreases s.len(),
{
    let whole = seq![sep] + s;
    if s.len() == 0 {
        assert(whole.drop_last() =~= Seq::empty());
        assert(split(whole.drop_last(), sep) == seq![Seq::<char>::empty()]);
        assert(split(whole, sep) =~= seq![Seq::<char>::empty()] + split(s, sep));
    } else {
        lemma_split_leading(s.drop_last(), sep);
        lemma_split_not_empty(s.drop_last(), sep);
        assert(whole.drop_last() =~= seq![sep] + s.drop_last());
        let before = split(s.drop_last(), sep);
        let all = seq![Seq::<char>::empty()] + before;
        assert(whole.last() == s.last());
        assert(all.last() == before.last());
        assert(all.drop_last() =~= seq![Seq::<char>::empty()] + before.drop_last());
        assert(split(whole, sep) =~= seq![Seq::<char>::empty()] + split(s, sep));
    }
}

/// Pieces that were joined are what splitting finds again.
pub proof fn lemma_split_join(parts: Seq<Seq<char>>, sep: char)
    requires
        parts.len() > 0,
        forall|i: int| 0 <= i < parts.len() ==> !(#[trigger] parts[i]).contains(sep),
    ensures
        split(join(parts, seq![sep]), sep) == parts,
    decreases parts.len(),
{
    let last = parts.last();
    assert(last == parts[parts.len() - 1]);
    if parts.len() == 1 {
        lemma_split_extend(Seq::empty(), last, sep);
        assert(Seq::<char>::empty() + last =~= last);
        assert(split(last, sep) =~= parts);
    } else {
        let rest = parts.drop_last();
        assert forall|i: int| 0 <= i < rest.len() implies !(#[trigger] rest[i]).contains(sep) by {
            assert(!parts[i].contains(sep));
        }
        lemma_split_join(rest, sep);
        let head = join(rest, seq![sep]) + seq![sep];
        assert(head.drop_last() =~= join(rest, seq![sep]));
        assert(split(head, sep) == rest.push(Seq::empty()));
        lemma_split_extend(head, last, sep);
        assert(rest.push(Seq::<char>::empty()).drop_last() =~= rest);
        assert(Seq::<char>::empty() + last =~= last);
        assert(rest.push(last) =~= parts);
    }
}

/// Whether `s` holds a character that is not white space.
pub open spec fn has_solid(s: Seq<char>) -> bool {
    exists|i: int| 0 <= i < s.len() && !is_white(#[trigger] s[i])
}

/// Of the ASCII characters, the space and the tab, the line ends and the two other
/// spaces between them are white space, and no others.
pub proof fn lemma_ascii_white_space(c: char)
    requires
        c as u32 <= 127,
    ensures
        is_white(c) <==> c == ' ' || c == '\t' || c == '\n' || c == '\r' || c as u32 == 11
            || c as u32 == 12,
{
}

/// What is cut off at the start is white space, and it is cut off up to the first
/// character that is not.
pub proof fn lemma_trim_start_cuts(s: Seq<char>) -> (k: int)
    ensures
        0 <= k <= s.len(),
        trim_start(s) == s.skip(k),
        forall|i: int| 0 <= i < k ==> is_white(#[trigger] s[i]),
        k < s.len() ==> !is_white(s[k]),
    decreases s.len(),
{
    if s.len() > 0 && is_white(s[0]) {
        let rest = s.drop_first();
        let k = lemma_trim_start_cuts(rest);
        assert(rest.skip(k) =~= s.skip(k + 1));
        assert forall|i: int| 0 <= i < k + 1 implies is_white(#[trigger] s[i]) by {
            if i > 0 {
                assert(is_white(rest[i - 1]));
            }
        }
        if k < rest.len() {
            assert(rest[k] == s[k + 1]);
        }
        k + 1
    } else {
        assert(s.skip(0) =~= s);
        0
    }
}

/// What is cut off at the end is to be dropped, and it is cut off down to the last
/// character that is not.
pub proof fn lemma_trim_end_cuts(s: Seq<char>, drop: spec_fn(char) -> bool) -> (k: int)
    ensures
        0 <= k <= s.len(),
        trim_end_by(s, drop) == s.take(k),
        forall|i: int| k <= i < s.len() ==> drop(#[trigger] s[i]),
        k > 0 ==> !drop(s[k - 1]),
    decreases s.len(),
{
    if s.len() > 0 && drop(s.last()) {
        let rest = s.drop_last();
        let k = lemma_trim_end_cuts(rest, drop);
        assert(rest.take(k) =~= s.take(k));
        assert forall|i: int| k <= i < s.len() implies drop(#[trigger] s[i]) by {
            if i < rest.len() {
                assert(drop(rest[i]));
            }
        }
        k
    } else {
        assert(s.take(s.len() as int) =~= s);
        s.len() as int
    }
}

/// What is left of a text without white space at its ends stands between a first and a
/// last character that are not white space; nothing is left of white space alone.
pub proof fn lemma_trim_cuts(s: Seq<char>) -> (r: (int, int))
    ensures
        0 <= r.0 <= r.1 <= s.len(),
        trim(s) == s.subrange(r.0, r.1),
        forall|i: int| 0 <= i < r.0 || r.1 <= i < s.len() ==> is_white(#[trigger] s[i]),
        r.0 < r.1 ==> !is_white(s[r.0]) && !is_white(s[r.1 - 1]),
        trim(s).len() > 0 <==> has_solid(s),
{
    let a = lemma_trim_start_cuts(s);
    let rest = trim_start(s);
    let drop = |c: char| is_white(c);
    let n = lemma_trim_end_cuts(rest, drop);
    let b = a + n;
    assert(rest.take(n) =~= s.subrange(a, b));
    assert forall|i: int| 0 <= i < a || b <= i < s.len() implies is_white(#[trigger] s[i]) by {
        if i >= b {
            assert(drop(rest[i - a]));
        }
    }
    if n > 0 {
        assert(rest[0] == s[a]);
        assert(rest[n - 1] == s[b - 1]);
    }
    if has_solid(s) {
        let i = choose|i: int| 0 <= i < s.len() && !is_white(#[trigger] s[i]);
        assert(a <= i < b);
    }
    (a, b)
}

/// The first word of a text stands behind white space alone, holds none, and reaches to
/// the next or to the end. Only a text of white space has no word.
pub proof fn lemma_first_word_stands(s: Seq<char>) -> (r: (int, int))
    ensures
        0 <= r.0 <= r.1 <= s.len(),
        first_word(s) == s.subrange(r.0, r.1),
        forall|i: int| 0 <= i < r.0 ==> is_white(#[trigger] s[i]),
        forall|i: int| r.0 <= i < r.1 ==> !is_white(#[trigger] s[i]),
        r.1 < s.len() ==> is_white(s[r.1]),
        first_word(s).len() > 0 <==> has_solid(s),
{
    let a = lemma_trim_start_cuts(s);
    let rest = trim_start(s);
    let n = lemma_leading_word_cuts(rest);
    assert(rest.take(n) =~= s.subrange(a, a + n));
    assert forall|i: int| a <= i < a + n implies !is_white(#[trigger] s[i]) by {
        assert(!is_white(rest[i - a]));
    }
    if a + n < s.len() {
        assert(rest[n] == s[a + n]);
    }
    if has_solid(s) {
        let i = choose|i: int| 0 <= i < s.len() && !is_white(#[trigger] s[i]);
        assert(a <= i);
        assert(!is_white(s[a]));
    }
    (a, a + n)
}

proof fn lemma_leading_word_cuts(s: Seq<char>) -> (n: int)
    ensures
        0 <= n <= s.len(),
        leading_word(s) == s.take(n),
        forall|i: int| 0 <= i < n ==> !is_white(#[trigger] s[i]),
        n < s.len() ==> is_white(s[n]),
    decreases s.len(),
{
    if s.len() == 0 || is_white(s[0]) {
        assert(s.take(0) =~= Seq::empty());
        0
    } else {
        let rest = s.drop_first();
        let n = lemma_leading_word_cuts(rest);
        assert(seq![s[0]] + rest.take(n) =~= s.take(n + 1));
        assert forall|i: int| 0 <= i < n + 1 implies !is_white(#[trigger] s[i]) by {
            if i > 0 {
                assert(!is_white(rest[i - 1]));
            }
        }
        if n < rest.len() {
            assert(rest[n] == s[n + 1]);
        }
        n + 1
    }
}

/// Joining the pieces of a text gives the text, and none of them holds the separator.
pub proof fn lemma_pieces_make_the_text(s: Seq<char>, sep: char)
    ensures
        join(split(s, sep), seq![sep]) == s,
        forall|i: int| 0 <= i < split(s, sep).len() ==> !(#[trigger] split(s, sep)[i]).contains(sep),
    decreases s.len(),
{
    let parts = split(s, sep);
    if s.len() == 0 {
        assert(join(parts, seq![sep]) =~= s);
    } else {
        let before = split(s.drop_last(), sep);
        lemma_split_not_empty(s.drop_last(), sep);
        lemma_pieces_make_the_text(s.drop_last(), sep);
        if s.last() == sep {
            assert(parts.drop_last() =~= before);
            assert(join(parts, seq![sep]) =~= s);
        } else {
            let grown = before.last().push(s.last());
            assert(parts.drop_last() =~= before.drop_last());
            assert(join(parts, seq![sep]) =~= join(before, seq![sep]).push(s.last()));
            assert(!before[before.len() - 1].contains(sep));
            assert forall|k: int| 0 <= k < grown.len() implies grown[k] != sep by {
                if k < before.last().len() {
                    assert(before.last().contains(before.last()[k]));
                }
            }
            assert forall|i: int| 0 <= i < parts.len() implies !(#[trigger] parts[i]).contains(
                sep,
            ) by {
                if i < parts.len() - 1 {
                    assert(parts[i] == before[i]);
                }
            }
        }
    }
}

/// Two lists of texts that are joined together have the separator between them once; a
/// single text is joined to itself.
pub proof fn lemma_join_of_both(a: Seq<Seq<char>>, b: Seq<Seq<char>>, sep: Seq<char>)
    requires
        a.len() > 0,
        b.len() > 0,
    ensures
        join(a + b, sep) == join(a, sep) + sep + join(b, sep),
        a.len() == 1 ==> join(a, sep) == a[0],
    decreases b.len(),
{
    let whole = a + b;
    assert(whole.last() == b.last());
    assert(whole.drop_last() =~= a + b.drop_last());
    if b.len() == 1 {
        assert(whole.drop_last() =~= a);
    } else {
        lemma_join_of_both(a, b.drop_last(), sep);
        assert(join(whole, sep) =~= join(a, sep) + sep + join(b, sep));
    }
}

/// A character that occurs in two texts occurs in both together as often; each character
/// occurs once in itself.
pub proof fn lemma_count_of_both(a: Seq<char>, b: Seq<char>, c: char, d: char)
    ensures
        count_of(a + b, c) == count_of(a, c) + count_of(b, c),
        count_of(seq![d], c) == (if c == d {
            1nat
        } else {
            0nat
        }),
    decreases b.len(),
{
    assert(seq![d].drop_last() =~= Seq::empty());
    assert(count_of(seq![d].drop_last(), c) == 0);
    if b.len() == 0 {
        assert(a + b =~= a);
    } else {
        assert((a + b).drop_last() =~= a + b.drop_last());
        lemma_count_of_both(a, b.drop_last(), c, d);
    }
}

/// The bytes that are counted are those of the UTF-8 encoding.
pub proof fn lemma_bytes_are_those_of_utf8(s: Seq<char>)
    ensures
        byte_len(s) == vstd::utf8::encode_utf8(s).len(),
    decreases s.len(),
{
    if s.len() > 0 {
        let rest = s.drop_first();
        lemma_bytes_are_those_of_utf8(rest);
        assert(seq![s[0]] + rest =~= s);
        lemma_byte_len_add(seq![s[0]], rest);
        assert(seq![s[0]].drop_last() =~= Seq::empty());
        assert(byte_len(seq![s[0]].drop_last()) == 0);
        assert(byte_len(seq![s[0]]) == char_bytes(s[0]));
        vstd::utf8::char_is_scalar(s[0]);
        assert(vstd::utf8::encode_scalar(s[0] as u32).len() == char_bytes(s[0]));
    }
}

/// Whether `s` holds nothing but white space.
pub open spec fn all_white(s: Seq<char>) -> bool {
    forall|i: int| 0 <= i < s.len() ==> is_white(#[trigger] s[i])
}

/// `word` is a word between `lead`, which is white space, and `tail`, which starts with
/// some where it holds anything.
pub open spec fn is_first_word_between(lead: Seq<char>, word: Seq<char>, tail: Seq<char>) -> bool {
    &&& all_white(lead)
    &&& word.len() > 0
    &&& forall|i: int| 0 <= i < word.len() ==> !is_white(#[trigger] word[i])
    &&& tail.len() > 0 ==> is_white(tail[0])
}

/// The first word of a text is the one that stands there.
pub proof fn lemma_first_word_is_found(lead: Seq<char>, word: Seq<char>, tail: Seq<char>)
    requires
        is_first_word_between(lead, word, tail),
    ensures
        first_word(lead + word + tail) == word,
        trim_start(lead + word + tail) == word + tail,
{
    let s = lead + word + tail;
    let (a, b) = lemma_first_word_stands(s);
    let k = lemma_trim_start_cuts(s);
    let n = lead.len() as int;
    assert(s[n] == word[0]);
    assert(has_solid(s));
    if k < n {
        assert(s[k] == lead[k]);
    }
    assert(k == n);
    assert(s.skip(n) =~= word + tail);
    if a < n {
        assert(s[a] == lead[a]);
    }
    assert(a == n);
    if b < n + word.len() {
        assert(s[b] == word[b - n]);
    } else if b > n + word.len() {
        assert(s[n + word.len()] == tail[0]);
    }
    assert(s.subrange(a, b) =~= word);
}

/// Beyond ASCII, the white space is the next line, the spaces that Unicode has besides the
/// usual one, and its separators of lines and paragraphs, and nothing else.
pub proof fn lemma_other_white_space(c: char)
    requires
        c as u32 > 127,
    ensures
        is_white(c) <==> c == '\u{85}' || c == '\u{a0}' || c == '\u{1680}' || ('\u{2000}' <= c && c
            <= '\u{200a}') || c == '\u{2028}' || c == '\u{2029}' || c == '\u{202f}' || c
            == '\u{205f}' || c == '\u{3000}',
{
}

} // verus!
