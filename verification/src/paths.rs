//! Paths taken apart into segments, and file names found by fuzzy matching each
//! segment.

use vstd::prelude::*;

verus! {

use crate::context::CompletionContext;
use crate::fuzzy::{
    arinae_score,
    fuzzy_match_with_threshold,
    match_score,
    FuzzyCutoffs,
    FuzzyMatchThreshold,
};
use crate::lists::{lemma_filter_all, lemma_filter_without_first};
use crate::order::{key_lt, key_views, order_by_key, text_before, without_repeats};
use crate::suggestion::{
    copied_texts,
    unprocessed_views,
    CompletionFlags,
    FullPath,
    QuoteType,
    UnprocessedSuggestion,
    UnprocessedView,
};
use crate::text::{
    chars_of,
    concat,
    count_char,
    count_of,
    has_suffix,
    join,
    joined,
    pieces,
    split,
    split_nonempty,
    views,
};

/// Cuts a path at its slashes: whether it starts with one, and the segments that
/// are not empty.
pub fn split_nonempty_path_segments(path: &str) -> (r: (bool, Vec<String>))
    ensures
        r.0 == (path@.len() > 0 && path@[0] == '/'),
        views(r.1@) == split_nonempty(path@, '/'),
{
    let all = pieces(path, '/');
    let ghost keep = |p: Seq<char>| p.len() > 0;
    let ghost parts = split(path@, '/');
    let mut out: Vec<String> = Vec::new();
    let mut i: usize = 0;
    assert(parts.take(0).filter(keep) =~= Seq::empty()) by {
        reveal(Seq::filter);
    }
    assert(views(out@) =~= Seq::empty());
    while i < all.len()
        invariant
            i <= all@.len(),
            parts == views(all@),
            keep == (|p: Seq<char>| p.len() > 0),
            views(out@) == parts.take(i as int).filter(keep),
        decreases all@.len() - i,
    {
        proof {
            crate::lists::lemma_filter_step(parts, keep, i as int);
        }
        if !all[i].as_str().is_empty() {
            let ghost before = out@;
            out.push(all[i].clone());
            assert(views(out@) =~= views(before).push(parts[i as int]));
        }
        i = i + 1;
    }
    assert(parts.take(parts.len() as int) =~= parts);
    let chars = chars_of(path);
    (chars.len() > 0 && chars[0] == '/', out)
}

/// The path with the given segments.
pub open spec fn path_text(is_absolute: bool, segments: Seq<Seq<char>>) -> Seq<char> {
    let relative = join(segments, "/"@);
    if is_absolute {
        "/"@ + relative
    } else {
        relative
    }
}

/// The path as a prefix: where it names something, it ends in a slash.
pub open spec fn prefix_text(is_absolute: bool, segments: Seq<Seq<char>>) -> Seq<char> {
    let path = path_text(is_absolute, segments);
    if path.len() > 0 && !"/"@.is_suffix_of(path) {
        path + "/"@
    } else {
        path
    }
}

/// Puts a path together from its segments.
pub fn path_from_segments(is_absolute: bool, segments: &Vec<String>) -> (r: String)
    ensures
        r@ == path_text(is_absolute, views(segments@)),
{
    let relative = joined(segments, "/");
    if is_absolute {
        concat("/", relative.as_str())
    } else {
        relative
    }
}

/// Puts a path together from its segments, to be followed by a name.
pub fn path_prefix_for_output(is_absolute: bool, segments: &Vec<String>) -> (r: String)
    ensures
        r@ == prefix_text(is_absolute, views(segments@)),
{
    let path = path_from_segments(is_absolute, segments);
    if !path.as_str().is_empty() && !has_suffix(path.as_str(), "/") {
        concat(path.as_str(), "/")
    } else {
        path
    }
}

/// An entry of a directory, with its own entries where it was read.
#[derive(Debug, PartialEq, Eq)]
pub struct DirEntry {
    pub name: String,
    pub path: FullPath,
    pub is_dir: bool,
    pub entries: Option<Vec<DirEntry>>,
}

/// A path found by matching each of its segments.
#[derive(Debug, PartialEq, Eq)]
pub struct FuzzyHit {
    /// The sum of the scores of the segments.
    pub score: i128,
    pub segments: Vec<String>,
    pub path: FullPath,
}

/// The mathematical value of a [`FuzzyHit`].
#[verifier::ext_equal]
pub struct HitView {
    pub score: int,
    pub segments: Seq<Seq<char>>,
    pub path: FullPath,
}

impl View for FuzzyHit {
    type V = HitView;

    open spec fn view(&self) -> HitView {
        HitView { score: self.score as int, segments: views(self.segments@), path: self.path }
    }
}

impl FuzzyHit {
    pub fn copied(&self) -> (r: FuzzyHit)
        ensures
            r@ == self@,
    {
        FuzzyHit {
            score: self.score,
            segments: copied_texts(&self.segments),
            path: self.path.copied(),
        }
    }
}

/// The values of a list of hits.
pub open spec fn hit_views(hits: Seq<FuzzyHit>) -> Seq<HitView> {
    Seq::new(hits.len(), |i: int| hits[i]@)
}

/// A hit below a directory, seen from that directory's parent.
pub open spec fn under(name: Seq<char>, score: int, hit: HitView) -> HitView {
    HitView {
        score: score + hit.score,
        segments: seq![name] + hit.segments,
        path: hit.path,
    }
}

/// The hits at and below an entry whose name has `score`: the entry itself where no
/// segment is left, else what was found below it, if it is a directory.
pub open spec fn hits_at(
    entry: DirEntry,
    score: Option<i64>,
    is_last: bool,
    below: Seq<HitView>,
) -> Seq<HitView> {
    match score {
        None => Seq::empty(),
        Some(s) => if is_last {
            seq![
                HitView { score: s as int, segments: seq![entry.name@], path: entry.path },
            ]
        } else if entry.is_dir {
            below.map_values(|hit: HitView| under(entry.name@, s as int, hit))
        } else {
            Seq::empty()
        },
    }
}

/// The hits below `base` for the patterns in `segments`, one for each level.
pub open spec fn hits_below(base: DirEntry, segments: Seq<Seq<char>>, cutoff: i64) -> Seq<HitView>
    decreases segments.len(), 1nat, 0nat,
{
    if segments.len() == 0 {
        seq![HitView { score: 0, segments: Seq::empty(), path: base.path }]
    } else {
        match base.entries {
            Some(entries) => hits_among(entries@, segments, cutoff),
            None => Seq::empty(),
        }
    }
}

/// The hits at and below `entries`.
pub open spec fn hits_among(
    entries: Seq<DirEntry>,
    segments: Seq<Seq<char>>,
    cutoff: i64,
) -> Seq<HitView>
    decreases segments.len(), 0nat, entries.len(),
{
    if entries.len() == 0 || segments.len() == 0 {
        Seq::empty()
    } else {
        let entry = entries.last();
        hits_among(entries.drop_last(), segments, cutoff) + hits_at(
            entry,
            match_score(entry.name@, segments[0], cutoff),
            segments.len() == 1,
            hits_below(entry, segments.skip(1), cutoff),
        )
    }
}

/// Scores stay within what the number of segments allows.
pub open spec fn bounded_scores(hits: Seq<FuzzyHit>, n: int) -> bool {
    forall|i: int| 0 <= i < hits.len() ==> 0 <= (#[trigger] hits[i]).score <= 32767 * n
}

fn with_name_before(name: &str, segments: &Vec<String>) -> (r: Vec<String>)
    ensures
        views(r@) == seq![name@] + views(segments@),
{
    let mut names: Vec<String> = Vec::new();
    names.push(name.to_owned());
    let mut k: usize = 0;
    assert(views(names@) =~= seq![name@] + views(segments@).take(0));
    while k < segments.len()
        invariant
            k <= segments@.len(),
            views(names@) == seq![name@] + views(segments@).take(k as int),
        decreases segments@.len() - k,
    {
        let ghost earlier = names@;
        names.push(segments[k].clone());
        assert(views(names@) =~= views(earlier).push(segments@[k as int]@));
        assert(views(segments@).take(k + 1) =~= views(segments@).take(k as int).push(
            segments@[k as int]@,
        ));
        k = k + 1;
    }
    assert(views(segments@).take(segments@.len() as int) =~= views(segments@));
    names
}

/// The hits at and below an entry whose name has `score`. What was found below it
/// lies `levels` levels deep.
pub fn entry_hits(
    entry: &DirEntry,
    score: Option<i64>,
    is_last: bool,
    below: &Vec<FuzzyHit>,
    levels: usize,
) -> (r: Vec<FuzzyHit>)
    requires
        score matches Some(s) ==> 0 <= s <= 32767,
        bounded_scores(below@, levels as int),
    ensures
        hit_views(r@) == hits_at(*entry, score, is_last, hit_views(below@)),
        bounded_scores(r@, levels + 1),
{
    let mut out: Vec<FuzzyHit> = Vec::new();
    let s: i64 = match score {
        Some(s) => s,
        None => {
            assert(hit_views(out@) =~= Seq::empty());
            return out;
        },
    };
    if is_last {
        let none: Vec<String> = Vec::new();
        let names = with_name_before(entry.name.as_str(), &none);
        assert(views(names@) =~= seq![entry.name@]);
        out.push(FuzzyHit { score: s as i128, segments: names, path: entry.path.copied() });
        assert(hit_views(out@) =~= hits_at(*entry, score, is_last, hit_views(below@)));
        return out;
    }
    if !entry.is_dir {
        assert(hit_views(out@) =~= Seq::empty());
        return out;
    }
    let mut j: usize = 0;
    while j < below.len()
        invariant
            j <= below@.len(),
            0 <= s <= 32767,
            bounded_scores(below@, levels as int),
            bounded_scores(out@, levels + 1),
            out@.len() == j,
            forall|k: int|
                0 <= k < j ==> (#[trigger] out@[k])@ == under(entry.name@, s as int, below@[k]@),
        decreases below@.len() - j,
    {
        let hit = &below[j];
        assert(0 <= below@[j as int].score <= 32767 * levels);
        out.push(
            FuzzyHit {
                score: s as i128 + hit.score,
                segments: with_name_before(entry.name.as_str(), &hit.segments),
                path: hit.path.copied(),
            },
        );
        j = j + 1;
    }
    assert(hit_views(out@) =~= hits_at(*entry, score, is_last, hit_views(below@)));
    out
}

fn glob_from(
    base: &DirEntry,
    segments: &Vec<String>,
    from: usize,
    cutoffs: &FuzzyCutoffs,
) -> (r: Vec<FuzzyHit>)
    requires
        from <= segments@.len(),
    ensures
        hit_views(r@) == hits_below(*base, views(segments@).skip(from as int), cutoffs.medium),
        bounded_scores(r@, segments@.len() - from),
    decreases segments@.len() - from,
{
    let ghost wanted = views(segments@).skip(from as int);
    let mut out: Vec<FuzzyHit> = Vec::new();
    if from == segments.len() {
        out.push(FuzzyHit { score: 0, segments: Vec::new(), path: base.path.copied() });
        assert(hit_views(out@)[0].segments =~= Seq::empty());
        assert(hit_views(out@) =~= hits_below(*base, wanted, cutoffs.medium));
        return out;
    }
    assert(hit_views(out@) =~= Seq::empty());
    let entries = match &base.entries {
        Some(entries) => entries,
        None => {
            return out;
        },
    };
    let n: usize = segments.len();
    let is_last = n - from == 1;
    let mut i: usize = 0;
    while i < entries.len()
        invariant
            i <= entries@.len(),
            n == segments@.len(),
            from < n,
            wanted == views(segments@).skip(from as int),
            is_last == (wanted.len() == 1),
            hit_views(out@) == hits_among(entries@.take(i as int), wanted, cutoffs.medium),
            bounded_scores(out@, n - from),
        decreases entries@.len() - i,
    {
        let entry = &entries[i];
        assert(entries@.take(i + 1).drop_last() =~= entries@.take(i as int));
        assert(entries@.take(i + 1).last() == *entry);
        assert(wanted[0] == segments@[from as int]@);
        assert(views(segments@).skip(from + 1) =~= wanted.skip(1));
        let score = fuzzy_match_with_threshold(
            entry.name.as_str(),
            segments[from].as_str(),
            FuzzyMatchThreshold::Medium,
            cutoffs,
        );
        // What lies below an entry that does not match is not looked at.
        let below: Vec<FuzzyHit> = if score.is_some() && entry.is_dir && !is_last {
            glob_from(entry, segments, from + 1, cutoffs)
        } else {
            Vec::new()
        };
        let mut found = entry_hits(entry, score, is_last, &below, n - from - 1);
        assert(hit_views(found@) == hits_at(
            *entry,
            score,
            is_last,
            hits_below(*entry, wanted.skip(1), cutoffs.medium),
        ));
        let ghost before = out@;
        let ghost more = found@;
        out.append(&mut found);
        assert(hit_views(out@) =~= hit_views(before) + hit_views(more));
        i = i + 1;
    }
    assert(entries@.take(entries@.len() as int) =~= entries@);
    out
}

/// Finds the paths below `base` of which each segment matches its pattern. Only
/// directories are gone into; one that could not be read holds nothing.
pub fn fuzzy_glob_recursive(
    base: &DirEntry,
    remaining_segments: &Vec<String>,
    cutoffs: &FuzzyCutoffs,
) -> (r: Vec<FuzzyHit>)
    ensures
        hit_views(r@) == hits_below(*base, views(remaining_segments@), cutoffs.medium),
{
    assert(views(remaining_segments@).skip(0) =~= views(remaining_segments@));
    glob_from(base, remaining_segments, 0, cutoffs)
}

/// The characters of a segment as numbers above 0.
pub open spec fn segment_code(s: Seq<char>) -> Seq<i128> {
    Seq::new(s.len(), |i: int| (s[i] as u32 + 1) as i128)
}

/// The key by which lists of segments are sorted: segment by segment, each by its
/// characters.
pub open spec fn segments_key(segments: Seq<Seq<char>>) -> Seq<i128>
    decreases segments.len(),
{
    if segments.len() == 0 {
        Seq::empty()
    } else {
        segments_key(segments.drop_last()) + segment_code(segments.last()) + seq![0i128]
    }
}

proof fn lemma_segments_key_end(segments: Seq<Seq<char>>)
    ensures
        segments_key(segments).len() == 0 <==> segments.len() == 0,
        segments.len() > 0 ==> segments_key(segments).last() == 0,
{
}

proof fn lemma_segment_code_positive(x: char, y: char)
    ensures
        (x as u32 + 1) as i128 >= 1,
        (x as u32 + 1) as i128 == (y as u32 + 1) as i128 ==> x == y,
{
}

proof fn lemma_last_segment_fits(a: Seq<Seq<char>>, b: Seq<Seq<char>>)
    requires
        a.len() > 0,
        b.len() > 0,
        segments_key(a) == segments_key(b),
    ensures
        a.last().len() >= b.last().len(),
{
    if a.last().len() < b.last().len() {
        let ka = segments_key(a);
        let kb = segments_key(b);
        let n = a.last().len();
        lemma_segments_key_end(a.drop_last());
        assert(ka.len() == segments_key(a.drop_last()).len() + n + 1);
        assert(kb.len() == segments_key(b.drop_last()).len() + b.last().len() + 1);
        let p = kb.len() - n - 2;
        let q = p - segments_key(b.drop_last()).len();
        assert(kb[p] == segment_code(b.last())[q]);
        lemma_segment_code_positive(b.last()[q], b.last()[q]);
        assert(ka[p] == segments_key(a.drop_last()).last());
        assert(false);
    }
}

/// Lists of segments with one key are one list.
pub proof fn lemma_segments_key_injective(a: Seq<Seq<char>>, b: Seq<Seq<char>>)
    ensures
        segments_key(a) == segments_key(b) <==> a == b,
    decreases a.len(),
{
    if segments_key(a) == segments_key(b) {
        lemma_segments_key_end(a);
        lemma_segments_key_end(b);
        if a.len() == 0 {
            assert(a =~= b);
        } else {
            lemma_last_segment_fits(a, b);
            lemma_last_segment_fits(b, a);
            let ka = segments_key(a);
            let kb = segments_key(b);
            let n = segments_key(a.drop_last()).len();
            assert(n == segments_key(b.drop_last()).len());
            assert(segments_key(a.drop_last()) =~= ka.take(n as int));
            assert(segments_key(b.drop_last()) =~= kb.take(n as int));
            lemma_segments_key_injective(a.drop_last(), b.drop_last());
            assert forall|i: int| 0 <= i < a.last().len() implies a.last()[i] == b.last()[i] by {
                assert(ka[n + i] == segment_code(a.last())[i]);
                assert(kb[n + i] == segment_code(b.last())[i]);
                lemma_segment_code_positive(a.last()[i], b.last()[i]);
            }
            assert(a.last() =~= b.last());
            assert(a =~= a.drop_last().push(a.last()));
            assert(b =~= b.drop_last().push(b.last()));
        }
    }
}

/// The key by which hits are sorted: the best score first, then the segments.
pub open spec fn hit_key(hit: HitView) -> Seq<i128> {
    seq![(-hit.score) as i128] + segments_key(hit.segments)
}

/// Hits sorted by key, without those whose segments repeat the hit before.
pub open spec fn sorted_hits(hits: Seq<HitView>) -> Seq<HitView> {
    crate::order::select(
        hits,
        crate::order::dedup_order(
            hits.map_values(|h: HitView| segments_key(h.segments)),
            crate::order::stable_order(hits.map_values(|h: HitView| hit_key(h))),
        ),
    )
}

fn push_segment_code(key: &mut Vec<i128>, s: &str)
    ensures
        final(key)@ == old(key)@ + segment_code(s@),
{
    let a = chars_of(s);
    let mut i: usize = 0;
    let ghost start = key@;
    assert(start + segment_code(s@.take(0)) =~= start);
    while i < a.len()
        invariant
            a@ == s@,
            i <= a@.len(),
            key@ == start + segment_code(s@.take(i as int)),
        decreases a@.len() - i,
    {
        let n: u32 = a[i] as u32;
        key.push(n as i128 + 1);
        assert(start + segment_code(s@.take(i + 1)) =~= (start + segment_code(
            s@.take(i as int),
        )).push((n + 1) as i128));
        i = i + 1;
    }
    assert(s@.take(s@.len() as int) =~= s@);
}

fn key_of_segments(segments: &Vec<String>) -> (r: Vec<i128>)
    ensures
        r@ == segments_key(views(segments@)),
{
    let mut key: Vec<i128> = Vec::new();
    let mut i: usize = 0;
    let ghost all = views(segments@);
    while i < segments.len()
        invariant
            i <= segments@.len(),
            all == views(segments@),
            key@ == segments_key(all.take(i as int)),
        decreases segments@.len() - i,
    {
        push_segment_code(&mut key, segments[i].as_str());
        key.push(0);
        assert(all.take(i + 1).drop_last() =~= all.take(i as int));
        assert(key@ =~= segments_key(all.take(i as int)) + segment_code(all[i as int])
            + seq![0i128]);
        i = i + 1;
    }
    assert(all.take(all.len() as int) =~= all);
    key
}

/// Sorts hits, the best first, and drops those whose segments repeat the hit before.
pub fn rank_hits(hits: &Vec<FuzzyHit>) -> (r: Vec<FuzzyHit>)
    requires
        forall|i: int| 0 <= i < hits@.len() ==> 0 <= (#[trigger] hits@[i]).score,
    ensures
        hit_views(r@) == sorted_hits(hit_views(hits@)),
{
    let ghost all = hit_views(hits@);
    let mut keys: Vec<Vec<i128>> = Vec::new();
    let mut names: Vec<Vec<i128>> = Vec::new();
    let mut i: usize = 0;
    while i < hits.len()
        invariant
            i <= hits@.len(),
            forall|i: int| 0 <= i < hits@.len() ==> 0 <= (#[trigger] hits@[i]).score,
            keys@.len() == i,
            names@.len() == i,
            forall|k: int| 0 <= k < i ==> (#[trigger] keys@[k])@ == hit_key(hits@[k]@),
            forall|k: int|
                0 <= k < i ==> (#[trigger] names@[k])@ == segments_key(hits@[k]@.segments),
        decreases hits@.len() - i,
    {
        let hit = &hits[i];
        let name = key_of_segments(&hit.segments);
        let mut key: Vec<i128> = Vec::new();
        assert(0 <= hits@[i as int].score);
        key.push(-hit.score);
        let mut j: usize = 0;
        while j < name.len()
            invariant
                j <= name@.len(),
                key@ == seq![(-hit.score) as i128] + name@.take(j as int),
            decreases name@.len() - j,
        {
            key.push(name[j]);
            assert(name@.take(j + 1) =~= name@.take(j as int).push(name@[j as int]));
            j = j + 1;
        }
        assert(name@.take(name@.len() as int) =~= name@);
        keys.push(key);
        names.push(name);
        i = i + 1;
    }
    assert(key_views(keys@) =~= all.map_values(|h: HitView| hit_key(h)));
    assert(key_views(names@) =~= all.map_values(|h: HitView| segments_key(h.segments)));
    let order = order_by_key(&keys);
    let kept = without_repeats(&names, &order);
    let mut out: Vec<FuzzyHit> = Vec::new();
    let mut k: usize = 0;
    while k < kept.len()
        invariant
            k <= kept@.len(),
            out@.len() == k,
            forall|x: int| 0 <= x < kept@.len() ==> #[trigger] kept@[x] < hits@.len(),
            forall|x: int| 0 <= x < k ==> (#[trigger] out@[x])@ == hits@[kept@[x] as int]@,
        decreases kept@.len() - k,
    {
        out.push(hits[kept[k]].copied());
        k = k + 1;
    }
    assert(hit_views(out@) =~= crate::order::select(all, kept@));
    out
}

/// The segment in which the cursor stands, counted from the right, of `n`
/// segments: the fuzzy match starts there.
pub open spec fn cursor_segment(n: nat, from_right: nat) -> nat {
    if n > from_right {
        (n - from_right - 1) as nat
    } else {
        0
    }
}

/// A path that is to be matched: the directories that are taken as they stand,
/// and the patterns for the levels below them.
#[derive(Debug, PartialEq, Eq)]
pub struct FuzzyQuery {
    pub is_absolute: bool,
    pub prefix_segments: Vec<String>,
    pub fuzzy_segments: Vec<String>,
}

impl FuzzyQuery {
    /// The directory to start from.
    pub open spec fn base(self) -> Seq<char> {
        let path = path_text(self.is_absolute, views(self.prefix_segments@));
        if path.len() == 0 {
            "."@
        } else {
            path
        }
    }

    /// The directory to start from, as the user wrote it.
    pub fn base_path(&self) -> (r: String)
        ensures
            r@ == self.base(),
    {
        let path = path_from_segments(self.is_absolute, &self.prefix_segments);
        if path.as_str().is_empty() {
            ".".to_owned()
        } else {
            path
        }
    }
}

/// Cuts the word under the cursor, with its quoting taken off, at the segment in
/// which the cursor stands. A word without segments asks for nothing.
pub fn fuzzy_query(dequoted: &str, cursor_seg_from_right: usize) -> (r: Option<FuzzyQuery>)
    ensures
        r is None <==> split_nonempty(dequoted@, '/').len() == 0,
        r matches Some(q) ==> {
            let segments = split_nonempty(dequoted@, '/');
            let at = cursor_segment(segments.len(), cursor_seg_from_right as nat) as int;
            &&& q.is_absolute == (dequoted@.len() > 0 && dequoted@[0] == '/')
            &&& views(q.prefix_segments@) == segments.take(at)
            &&& views(q.fuzzy_segments@) == segments.skip(at)
        },
{
    let (is_absolute, segments) = split_nonempty_path_segments(dequoted);
    let n: usize = segments.len();
    if n == 0 {
        return None;
    }
    let at: usize = if n > cursor_seg_from_right {
        n - cursor_seg_from_right - 1
    } else {
        0
    };
    let ghost all = views(segments@);
    let mut prefix_segments: Vec<String> = Vec::new();
    let mut fuzzy_segments: Vec<String> = Vec::new();
    let mut i: usize = 0;
    while i < n
        invariant
            i <= n,
            n == segments@.len(),
            at < n,
            prefix_segments@ == segments@.take(if i < at {
                i as int
            } else {
                at as int
            }),
            fuzzy_segments@ == segments@.subrange(at as int, if i < at {
                at as int
            } else {
                i as int
            }),
        decreases n - i,
    {
        if i < at {
            prefix_segments.push(segments[i].clone());
            assert(prefix_segments@ =~= segments@.take(i + 1));
        } else {
            fuzzy_segments.push(segments[i].clone());
            assert(fuzzy_segments@ =~= segments@.subrange(at as int, i + 1));
        }
        i = i + 1;
    }
    assert(views(prefix_segments@) =~= all.take(at as int));
    assert(views(fuzzy_segments@) =~= all.skip(at as int));
    Some(FuzzyQuery { is_absolute, prefix_segments, fuzzy_segments })
}

/// The suggestion for a hit.
pub open spec fn hit_suggestion(
    hit: HitView,
    prefix: Seq<char>,
    flags: CompletionFlags,
) -> UnprocessedView {
    UnprocessedView {
        raw_text: prefix + join(hit.segments, "/"@),
        full_path: Some(hit.path),
        flags,
        word_under_cursor: Seq::empty(),
        is_git_command: false,
        custom_prefix: None,
    }
}

/// The suggestions for a word whose segments are matched from the one in which
/// the cursor stands.
pub open spec fn fuzzy_suggestions(
    dequoted: Seq<char>,
    from_right: nat,
    base: DirEntry,
    flags: CompletionFlags,
    cutoff: i64,
) -> Seq<UnprocessedView> {
    let segments = split_nonempty(dequoted, '/');
    let at = cursor_segment(segments.len(), from_right) as int;
    let prefix = prefix_text(dequoted.len() > 0 && dequoted[0] == '/', segments.take(at));
    if segments.len() == 0 {
        Seq::empty()
    } else {
        sorted_hits(hits_below(base, segments.skip(at), cutoff)).map_values(
            |hit: HitView| hit_suggestion(hit, prefix, flags),
        )
    }
}

/// Makes a suggestion of each hit, behind the part of the path that was taken as it
/// stands.
pub fn suggest_hits(
    hits: &Vec<FuzzyHit>,
    prefix: &str,
    flags: CompletionFlags,
) -> (r: Vec<UnprocessedSuggestion>)
    ensures
        unprocessed_views(r@) == hit_views(hits@).map_values(
            |hit: HitView| hit_suggestion(hit, prefix@, flags),
        ),
{
    let mut out: Vec<UnprocessedSuggestion> = Vec::new();
    let mut i: usize = 0;
    while i < hits.len()
        invariant
            i <= hits@.len(),
            out@.len() == i,
            forall|k: int|
                0 <= k < i ==> (#[trigger] out@[k])@ == hit_suggestion(hits@[k]@, prefix@, flags),
        decreases hits@.len() - i,
    {
        let tail = joined(&hits[i].segments, "/");
        out.push(
            UnprocessedSuggestion {
                raw_text: concat(prefix, tail.as_str()),
                full_path: Some(hits[i].path.copied()),
                flags,
                word_under_cursor: String::new(),
                is_git_command: false,
                custom_prefix: None,
            },
        );
        assert(out@[i as int]@.word_under_cursor =~= Seq::empty());
        i = i + 1;
    }
    assert(unprocessed_views(out@) =~= hit_views(hits@).map_values(
        |hit: HitView| hit_suggestion(hit, prefix@, flags),
    ));
    out
}

/// Makes suggestions of the paths below `base` whose segments match those of the
/// word, from the one in which the cursor stands.
pub fn tab_complete_fuzzy_filename_impl(
    dequoted: &str,
    quote_type: Option<QuoteType>,
    cursor_seg_from_right: usize,
    base: &DirEntry,
    cutoffs: &FuzzyCutoffs,
) -> (r: (Vec<UnprocessedSuggestion>, CompletionFlags))
    ensures
        r.1 == CompletionFlags::file_name(quote_type),
        unprocessed_views(r.0@) == fuzzy_suggestions(
            dequoted@,
            cursor_seg_from_right as nat,
            *base,
            CompletionFlags::file_name(quote_type),
            cutoffs.medium,
        ),
{
    let flags = CompletionFlags::for_file_name(quote_type);
    let query = match fuzzy_query(dequoted, cursor_seg_from_right) {
        Some(query) => query,
        None => {
            let none: Vec<UnprocessedSuggestion> = Vec::new();
            assert(unprocessed_views(none@) =~= Seq::empty());
            return (none, flags);
        },
    };
    let prefix = path_prefix_for_output(query.is_absolute, &query.prefix_segments);
    assert(views(query.fuzzy_segments@).skip(0) =~= views(query.fuzzy_segments@));
    let hits = glob_from(base, &query.fuzzy_segments, 0, cutoffs);
    let found = rank_hits(&hits);
    (suggest_hits(&found, prefix.as_str(), flags), flags)
}

/// Makes suggestions for a word that is matched in its last segment.
pub fn tab_complete_fuzzy_filename_from_word(
    dequoted: &str,
    quote_type: Option<QuoteType>,
    base: &DirEntry,
    cutoffs: &FuzzyCutoffs,
) -> (r: (Vec<UnprocessedSuggestion>, CompletionFlags))
    ensures
        r.1 == CompletionFlags::file_name(quote_type),
        unprocessed_views(r.0@) == fuzzy_suggestions(
            dequoted@,
            0,
            *base,
            CompletionFlags::file_name(quote_type),
            cutoffs.medium,
        ),
{
    tab_complete_fuzzy_filename_impl(dequoted, quote_type, 0, base, cutoffs)
}

/// Makes suggestions for the word under the cursor, matched from the segment in
/// which the cursor stands.
pub fn tab_complete_fuzzy_filename(
    ctx: &CompletionContext,
    dequoted: &str,
    quote_type: Option<QuoteType>,
    base: &DirEntry,
    cutoffs: &FuzzyCutoffs,
) -> (r: (Vec<UnprocessedSuggestion>, CompletionFlags))
    ensures
        r.1 == CompletionFlags::file_name(quote_type),
        unprocessed_views(r.0@) == fuzzy_suggestions(
            dequoted@,
            count_of(ctx.right@, '/'),
            *base,
            CompletionFlags::file_name(quote_type),
            cutoffs.medium,
        ),
{
    let from_right: usize = count_char(ctx.word_right_of_cursor(), '/');
    tab_complete_fuzzy_filename_impl(dequoted, quote_type, from_right, base, cutoffs)
}

/// A path that was put together from segments is cut into these segments again.
pub proof fn lemma_path_is_cut_where_it_was_joined(is_absolute: bool, segments: Seq<Seq<char>>)
    requires
        forall|i: int|
            0 <= i < segments.len() ==> (#[trigger] segments[i]).len() > 0
                && !segments[i].contains('/'),
    ensures
        split_nonempty(path_text(is_absolute, segments), '/') == segments,
        is_absolute <==> path_text(is_absolute, segments).len() > 0 && path_text(
            is_absolute,
            segments,
        )[0] == '/',
{
    reveal_strlit("/");
    assert("/"@ =~= seq!['/']);
    let keep = |p: Seq<char>| p.len() > 0;
    let relative = join(segments, "/"@);
    if segments.len() == 0 {
        assert(relative =~= Seq::empty());
        assert(split(relative, '/') =~= seq![Seq::<char>::empty()]);
        assert(split(relative, '/') =~= seq![Seq::<char>::empty()] + segments);
    } else {
        crate::text::lemma_split_join(segments, '/');
        lemma_join_starts(segments);
    }
    lemma_filter_all(segments, keep);
    lemma_filter_without_first(Seq::<char>::empty(), segments, keep);
    if is_absolute {
        crate::text::lemma_split_leading(relative, '/');
        lemma_filter_without_first(Seq::<char>::empty(), split(relative, '/'), keep);
    }
}

proof fn lemma_join_starts(segments: Seq<Seq<char>>)
    requires
        segments.len() > 0,
        segments[0].len() > 0,
    ensures
        join(segments, "/"@).len() > 0,
        join(segments, "/"@)[0] == segments[0][0],
        segments[0].contains(join(segments, "/"@)[0]),
    decreases segments.len(),
{
    if segments.len() > 1 {
        lemma_join_starts(segments.drop_last());
    }
    assert(segments[0].contains(segments[0][0]));
}

/// A prefix is empty or ends in a slash, so that a name can follow.
pub proof fn lemma_prefix_takes_a_name(is_absolute: bool, segments: Seq<Seq<char>>)
    ensures
        prefix_text(is_absolute, segments).len() == 0 || prefix_text(
            is_absolute,
            segments,
        ).last() == '/',
{
    reveal_strlit("/");
    assert("/"@ =~= seq!['/']);
    let path = path_text(is_absolute, segments);
    if path.len() > 0 && "/"@.is_suffix_of(path) {
        assert(path.last() == path.skip(path.len() - 1)[0]);
    }
}

proof fn lemma_join_add(a: Seq<Seq<char>>, b: Seq<Seq<char>>)
    requires
        a.len() > 0,
        b.len() > 0,
    ensures
        join(a + b, "/"@) == join(a, "/"@) + "/"@ + join(b, "/"@),
    decreases b.len(),
{
    let whole = a + b;
    assert(whole.last() == b.last());
    assert(whole.drop_last() =~= a + b.drop_last());
    if b.len() == 1 {
        assert(whole.drop_last() =~= a);
    } else {
        lemma_join_add(a, b.drop_last());
        assert(join(whole, "/"@) =~= join(a, "/"@) + "/"@ + join(b, "/"@));
    }
}

proof fn lemma_join_ends(segments: Seq<Seq<char>>)
    requires
        segments.len() > 0,
        segments.last().len() > 0,
    ensures
        join(segments, "/"@).len() > 0,
        join(segments, "/"@).last() == segments.last().last(),
{
}

/// A prefix that is followed by names is the path of all the segments.
pub proof fn lemma_prefix_and_names_are_a_path(
    is_absolute: bool,
    prefix: Seq<Seq<char>>,
    names: Seq<Seq<char>>,
)
    requires
        names.len() > 0,
        forall|i: int|
            0 <= i < prefix.len() ==> (#[trigger] prefix[i]).len() > 0 && !prefix[i].contains('/'),
    ensures
        prefix_text(is_absolute, prefix) + join(names, "/"@) == path_text(
            is_absolute,
            prefix + names,
        ),
{
    reveal_strlit("/");
    assert("/"@ =~= seq!['/']);
    let path = path_text(is_absolute, prefix);
    if prefix.len() == 0 {
        assert(prefix + names =~= names);
        assert(join(prefix, "/"@) =~= Seq::empty());
        if is_absolute {
            assert(path =~= "/"@);
            assert(path.skip(0) =~= path);
        } else {
            assert(path =~= Seq::empty());
        }
        assert(prefix_text(is_absolute, prefix) + join(names, "/"@) =~= path_text(
            is_absolute,
            names,
        ));
    } else {
        let last = prefix[prefix.len() - 1];
        assert(last.contains(last.last()));
        lemma_join_ends(prefix);
        lemma_join_add(prefix, names);
        assert(path.last() == last.last());
        if "/"@.is_suffix_of(path) {
            assert(path.last() == path.skip(path.len() - 1)[0]);
        }
        assert(prefix_text(is_absolute, prefix) + join(names, "/"@) =~= path_text(
            is_absolute,
            prefix + names,
        ));
    }
}

/// A path with a single slash for each run of slashes.
pub open spec fn single_slashes(path: Seq<char>) -> Seq<char>
    decreases path.len(),
{
    if path.len() <= 1 {
        path
    } else if path.last() == '/' && path[path.len() - 2] == '/' {
        single_slashes(path.drop_last())
    } else {
        single_slashes(path.drop_last()).push(path.last())
    }
}

/// A path with a single slash for each run of slashes, and none at its end unless it
/// is the root.
pub open spec fn tidy_path(path: Seq<char>) -> Seq<char> {
    let single = single_slashes(path);
    if single.len() > 1 && single.last() == '/' {
        single.drop_last()
    } else {
        single
    }
}

proof fn lemma_single_slashes(path: Seq<char>)
    requires
        path.len() > 0,
    ensures
        single_slashes(path).len() > 0,
        single_slashes(path)[0] == path[0],
        single_slashes(path).last() == path.last(),
        single_slashes(path).len() >= 2 && single_slashes(path).last() == '/'
            ==> single_slashes(path)[single_slashes(path).len() - 2] != '/',
    decreases path.len(),
{
    if path.len() > 1 {
        lemma_single_slashes(path.drop_last());
    }
}

proof fn lemma_last_piece(s: Seq<char>)
    ensures
        split(s, '/').len() > 0,
        split(s, '/').last().len() == 0 <==> s.len() == 0 || s.last() == '/',
    decreases s.len(),
{
    if s.len() > 0 {
        lemma_last_piece(s.drop_last());
    }
}

/// What one more character does to the segments of a path.
proof fn lemma_segments_grow(s: Seq<char>)
    requires
        s.len() > 0,
    ensures
        ({
            let before = split_nonempty(s.drop_last(), '/');
            let after = split_nonempty(s, '/');
            if s.last() == '/' {
                after == before
            } else if s.len() == 1 || s[s.len() - 2] == '/' {
                after == before.push(seq![s.last()])
            } else {
                before.len() > 0 && after == before.drop_last().push(before.last().push(s.last()))
            }
        }),
{
    reveal(Seq::filter);
    let keep = |p: Seq<char>| p.len() > 0;
    let t = s.drop_last();
    let parts = split(t, '/');
    let whole = split(s, '/');
    lemma_last_piece(t);
    lemma_last_piece(s);
    if s.last() == '/' {
        assert(whole.drop_last() =~= parts);
    } else {
        assert(whole.drop_last() =~= parts.drop_last());
        let start = parts.drop_last().filter(keep);
        if s.len() == 1 || s[s.len() - 2] == '/' {
            assert(parts.last() =~= Seq::empty());
            assert(whole.last() =~= seq![s.last()]);
            assert(parts.filter(keep) == start);
        } else {
            assert(parts.filter(keep) == start.push(parts.last()));
            assert(start.push(parts.last()).drop_last() =~= start);
        }
        assert(whole.filter(keep) == start.push(whole.last()));
    }
}

proof fn lemma_join_grows(segments: Seq<Seq<char>>, c: char)
    requires
        segments.len() > 0,
    ensures
        join(segments.drop_last().push(segments.last().push(c)), "/"@) == join(
            segments,
            "/"@,
        ).push(c),
{
    let grown = segments.drop_last().push(segments.last().push(c));
    assert(grown.drop_last() =~= segments.drop_last());
    assert(grown.last() == segments.last().push(c));
    assert(join(grown, "/"@) =~= join(segments, "/"@).push(c));
}

proof fn lemma_empty_path_has_no_segments()
    ensures
        split_nonempty(Seq::empty(), '/') == Seq::<Seq<char>>::empty(),
{
    reveal(Seq::filter);
    let keep = |p: Seq<char>| p.len() > 0;
    let parts = split(Seq::empty(), '/');
    assert(parts.drop_last() =~= Seq::empty());
    assert(parts.drop_last().filter(keep) =~= Seq::empty());
}

/// Where a path is tidy once it is cut and joined, it stays so with one character
/// more.
proof fn lemma_one_character_more(path: Seq<char>)
    requires
        path.len() > 1,
        path_text(path[0] == '/', split_nonempty(path.drop_last(), '/')) == tidy_path(
            path.drop_last(),
        ),
    ensures
        path_text(path[0] == '/', split_nonempty(path, '/')) == tidy_path(path),
{
    reveal_strlit("/");
    assert("/"@ =~= seq!['/']);
    let is_absolute = path[0] == '/';
    let segments = split_nonempty(path, '/');
    let rest = path.drop_last();
    let before = split_nonempty(rest, '/');
    let c = path.last();
    let single = single_slashes(rest);
    lemma_segments_grow(path);
    lemma_single_slashes(path);
    lemma_single_slashes(rest);
    if c == '/' {
        if rest.last() != '/' {
            assert(single_slashes(path) == single.push('/'));
            assert(single.push('/').drop_last() =~= single);
        }
    } else {
        assert(tidy_path(path) == single.push(c));
        if rest.last() != '/' {
            lemma_join_grows(before, c);
            assert(path_text(is_absolute, segments) =~= path_text(is_absolute, before).push(c));
        } else if before.len() == 0 {
            assert(join(before, "/"@) =~= Seq::empty());
            assert(single =~= seq!['/']);
            assert(segments =~= seq![seq![c]]);
            assert(path_text(is_absolute, segments) =~= single.push(c));
        } else {
            let keep = |p: Seq<char>| p.len() > 0;
            crate::lists::lemma_filter_members(split(rest, '/'), keep, 0);
            lemma_join_starts(before);
            assert(single.len() > 1);
            assert(segments.drop_last() =~= before);
            assert(join(segments, "/"@) == join(before, "/"@) + "/"@ + seq![c]);
            assert(single =~= single.drop_last().push('/'));
            assert(path_text(is_absolute, segments) =~= single.push(c));
        }
    }
}

/// A path that is cut into segments and joined again is the path without repeated
/// slashes, and without one at its end.
pub proof fn lemma_cut_path_is_joined_tidily(path: Seq<char>)
    ensures
        path_text(path.len() > 0 && path[0] == '/', split_nonempty(path, '/')) == tidy_path(path),
    decreases path.len(),
{
    reveal_strlit("/");
    assert("/"@ =~= seq!['/']);
    lemma_empty_path_has_no_segments();
    if path.len() == 0 {
        assert(path =~= Seq::empty());
    } else if path.len() == 1 {
        let c = path[0];
        assert(path.drop_last() =~= Seq::empty());
        assert(path =~= seq![c]);
        lemma_segments_grow(path);
        assert(path_text(c == '/', split_nonempty(path, '/')) =~= path);
    } else {
        lemma_cut_path_is_joined_tidily(path.drop_last());
        lemma_one_character_more(path);
    }
}

/// Hits come best first: where two hits differ in score, the better one stands
/// before the other.
pub proof fn lemma_best_hits_first(hits: Seq<HitView>)
    requires
        hits.len() <= usize::MAX,
        forall|i: int| 0 <= i < hits.len() ==> 0 <= (#[trigger] hits[i]).score <= i128::MAX,
    ensures
        forall|i: int, j: int|
            0 <= i < j < sorted_hits(hits).len() ==> (#[trigger] sorted_hits(hits)[i]).score
                >= (#[trigger] sorted_hits(hits)[j]).score,
{
    let keys = hits.map_values(|h: HitView| hit_key(h));
    let names = hits.map_values(|h: HitView| segments_key(h.segments));
    let order = crate::order::stable_order(keys);
    crate::order::lemma_stable_order_exists(keys);
    let kept = crate::order::dedup_order(names, order);
    assert forall|i: int, j: int| 0 <= i < j < kept.len() implies (#[trigger] sorted_hits(
        hits,
    )[i]).score >= (#[trigger] sorted_hits(hits)[j]).score by {
        crate::order::lemma_dedup_subsequence(names, order, i, j);
        let (p, q) = choose|p: int, q: int|
            0 <= p < q < order.len() && #[trigger] order[p] == kept[i] && #[trigger] order[q]
                == kept[j];
        assert(crate::order::precedes(keys, order[p] as int, order[q] as int));
        let a = hits[order[p] as int];
        let b = hits[order[q] as int];
        assert(keys[order[p] as int] == hit_key(a));
        assert(keys[order[q] as int] == hit_key(b));
        assert(hit_key(a)[0] == (-a.score) as i128);
        assert(hit_key(b)[0] == (-b.score) as i128);
        if a.score < b.score {
            assert(hit_key(b)[0] < hit_key(a)[0]);
            assert(crate::order::key_lt(hit_key(b), hit_key(a)));
            crate::order::lemma_precedes_not_reversed(keys, order[p] as int, order[q] as int);
        }
    }
}

/// `child` is one of the entries that were read of `parent`.
pub open spec fn is_entry_of(child: DirEntry, parent: DirEntry) -> bool {
    parent.entries matches Some(entries) && entries@.contains(child)
}

/// `chain` leads from `base` down to an entry: the first is an entry of `base`, each
/// other one an entry of that before it, and all but the last are directories.
pub open spec fn leads_down(base: DirEntry, chain: Seq<DirEntry>) -> bool {
    &&& chain.len() > 0
    &&& is_entry_of(chain[0], base)
    &&& forall|i: int|
        0 <= i < chain.len() - 1 ==> (#[trigger] chain[i]).is_dir && is_entry_of(
            chain[i + 1],
            chain[i],
        )
}

/// Each name of `chain` has the score that stands in `scores` for the pattern of its
/// level, and that score reaches `cutoff`.
pub open spec fn each_matches(
    chain: Seq<DirEntry>,
    patterns: Seq<Seq<char>>,
    scores: Seq<i64>,
    cutoff: i64,
) -> bool {
    &&& chain.len() == patterns.len()
    &&& chain.len() == scores.len()
    &&& forall|i: int|
        0 <= i < chain.len() ==> arinae_score((#[trigger] chain[i]).name@, patterns[i]) == Some(
            scores[i],
        ) && scores[i] >= cutoff
}

/// The sum of some scores.
pub open spec fn total(scores: Seq<i64>) -> int
    decreases scores.len(),
{
    if scores.len() == 0 {
        0
    } else {
        scores[0] + total(scores.skip(1))
    }
}

/// The names of some entries.
pub open spec fn names_of(chain: Seq<DirEntry>) -> Seq<Seq<char>> {
    Seq::new(chain.len(), |i: int| chain[i].name@)
}

/// `hit` is the entry that `chain` leads to.
pub open spec fn is_hit_at_end(hit: HitView, chain: Seq<DirEntry>, scores: Seq<i64>) -> bool {
    &&& hit.score == total(scores)
    &&& hit.segments == names_of(chain)
    &&& hit.path == chain.last().path
}

proof fn lemma_hits_of_an_entry(
    entries: Seq<DirEntry>,
    segments: Seq<Seq<char>>,
    cutoff: i64,
    k: int,
    hit: HitView,
)
    requires
        0 <= k < entries.len(),
        segments.len() > 0,
        hits_at(
            entries[k],
            match_score(entries[k].name@, segments[0], cutoff),
            segments.len() == 1,
            hits_below(entries[k], segments.skip(1), cutoff),
        ).contains(hit),
    ensures
        hits_among(entries, segments, cutoff).contains(hit),
    decreases entries.len(),
{
    let before = hits_among(entries.drop_last(), segments, cutoff);
    let all = hits_among(entries, segments, cutoff);
    if k == entries.len() - 1 {
        let last = hits_at(
            entries[k],
            match_score(entries[k].name@, segments[0], cutoff),
            segments.len() == 1,
            hits_below(entries[k], segments.skip(1), cutoff),
        );
        let i = choose|i: int| 0 <= i < last.len() && last[i] == hit;
        assert(all[before.len() + i] == hit);
    } else {
        lemma_hits_of_an_entry(entries.drop_last(), segments, cutoff, k, hit);
        let i = choose|i: int| 0 <= i < before.len() && before[i] == hit;
        assert(all[i] == hit);
    }
}

/// Every path is found of which each name matches the pattern of its level: an entry of
/// any kind at the last level, and below directories that were read at the others.
pub proof fn lemma_no_path_is_missed(
    base: DirEntry,
    chain: Seq<DirEntry>,
    patterns: Seq<Seq<char>>,
    scores: Seq<i64>,
    cutoff: i64,
)
    requires
        leads_down(base, chain),
        each_matches(chain, patterns, scores, cutoff),
    ensures
        exists|hit: HitView| #[trigger]
            hits_below(base, patterns, cutoff).contains(hit) && is_hit_at_end(hit, chain, scores),
    decreases chain.len(),
{
    let entries = base.entries->0@;
    let first = chain[0];
    let k = choose|k: int| 0 <= k < entries.len() && entries[k] == first;
    let score = match_score(first.name@, patterns[0], cutoff);
    let below = hits_below(first, patterns.skip(1), cutoff);
    assert(score == Some(scores[0]));
    if chain.len() == 1 {
        let hit = HitView { score: scores[0] as int, segments: seq![first.name@], path: first.path };
        assert(hits_at(first, score, true, below)[0] == hit);
        lemma_hits_of_an_entry(entries, patterns, cutoff, k, hit);
        assert(total(scores.skip(1)) == 0);
        assert(names_of(chain) =~= hit.segments);
        assert(hits_below(base, patterns, cutoff).contains(hit));
        assert(is_hit_at_end(hit, chain, scores));
    } else {
        let rest = chain.skip(1);
        let rest_scores = scores.skip(1);
        assert(chain[0].is_dir && is_entry_of(chain[1], chain[0]));
        assert forall|i: int| 0 <= i < rest.len() - 1 implies (#[trigger] rest[i]).is_dir
            && is_entry_of(rest[i + 1], rest[i]) by {
            assert(chain[i + 1].is_dir && is_entry_of(chain[i + 2], chain[i + 1]));
        }
        assert forall|i: int| 0 <= i < rest.len() implies arinae_score(
            (#[trigger] rest[i]).name@,
            patterns.skip(1)[i],
        ) == Some(rest_scores[i]) && rest_scores[i] >= cutoff by {
            assert(arinae_score(chain[i + 1].name@, patterns[i + 1]) == Some(scores[i + 1]));
        }
        lemma_no_path_is_missed(first, rest, patterns.skip(1), rest_scores, cutoff);
        let inner = choose|hit: HitView| #[trigger]
            below.contains(hit) && is_hit_at_end(hit, rest, rest_scores);
        let i = choose|i: int| 0 <= i < below.len() && below[i] == inner;
        let hit = under(first.name@, scores[0] as int, inner);
        assert(hits_at(first, score, false, below)[i] == hit);
        lemma_hits_of_an_entry(entries, patterns, cutoff, k, hit);
        assert(names_of(chain) =~= seq![first.name@] + names_of(rest));
        assert(chain.last() == rest.last());
        assert(hits_below(base, patterns, cutoff).contains(hit));
        assert(is_hit_at_end(hit, chain, scores));
    }
}

proof fn lemma_hits_are_of_entries(
    entries: Seq<DirEntry>,
    segments: Seq<Seq<char>>,
    cutoff: i64,
    i: int,
) -> (k: int)
    requires
        segments.len() > 0,
        0 <= i < hits_among(entries, segments, cutoff).len(),
    ensures
        0 <= k < entries.len(),
        hits_at(
            entries[k],
            match_score(entries[k].name@, segments[0], cutoff),
            segments.len() == 1,
            hits_below(entries[k], segments.skip(1), cutoff),
        ).contains(hits_among(entries, segments, cutoff)[i]),
    decreases entries.len(),
{
    let before = hits_among(entries.drop_last(), segments, cutoff);
    let all = hits_among(entries, segments, cutoff);
    if i < before.len() {
        let k = lemma_hits_are_of_entries(entries.drop_last(), segments, cutoff, i);
        assert(all[i] == before[i]);
        k
    } else {
        let k = entries.len() - 1;
        let last = hits_at(
            entries[k],
            match_score(entries[k].name@, segments[0], cutoff),
            segments.len() == 1,
            hits_below(entries[k], segments.skip(1), cutoff),
        );
        assert(all[i] == last[i - before.len()]);
        k
    }
}

/// What is found are paths of which each name matches the pattern of its level, and
/// nothing else; each with the sum of the scores of its names.
pub proof fn lemma_only_paths_are_found(
    base: DirEntry,
    patterns: Seq<Seq<char>>,
    cutoff: i64,
    i: int,
) -> (r: (Seq<DirEntry>, Seq<i64>))
    requires
        patterns.len() > 0,
        0 <= i < hits_below(base, patterns, cutoff).len(),
    ensures
        leads_down(base, r.0),
        each_matches(r.0, patterns, r.1, cutoff),
        is_hit_at_end(hits_below(base, patterns, cutoff)[i], r.0, r.1),
    decreases patterns.len(),
{
    let hit = hits_below(base, patterns, cutoff)[i];
    let entries = base.entries->0@;
    let k = lemma_hits_are_of_entries(entries, patterns, cutoff, i);
    let entry = entries[k];
    let score = match_score(entry.name@, patterns[0], cutoff);
    let below = hits_below(entry, patterns.skip(1), cutoff);
    let here = hits_at(entry, score, patterns.len() == 1, below);
    let j = choose|j: int| 0 <= j < here.len() && here[j] == hit;
    if patterns.len() == 1 {
        let chain = seq![entry];
        let scores = seq![score->0];
        assert(total(scores.skip(1)) == 0);
        assert(names_of(chain) =~= hit.segments);
        assert(leads_down(base, chain));
        (chain, scores)
    } else {
        let (rest, rest_scores) = lemma_only_paths_are_found(
            entry,
            patterns.skip(1),
            cutoff,
            j,
        );
        let chain = seq![entry] + rest;
        let scores = seq![score->0] + rest_scores;
        assert(scores.skip(1) =~= rest_scores);
        assert(names_of(chain) =~= seq![entry.name@] + names_of(rest));
        assert(chain.last() == rest.last());
        assert forall|m: int| 0 <= m < chain.len() - 1 implies (#[trigger] chain[m]).is_dir
            && is_entry_of(chain[m + 1], chain[m]) by {
            if m == 0 {
                assert(chain[1] == rest[0]);
            } else {
                assert(rest[m - 1].is_dir && is_entry_of(rest[m], rest[m - 1]));
            }
        }
        assert forall|m: int| 0 <= m < chain.len() implies arinae_score(
            (#[trigger] chain[m]).name@,
            patterns[m],
        ) == Some(scores[m]) && scores[m] >= cutoff by {
            if m > 0 {
                assert(arinae_score(rest[m - 1].name@, patterns.skip(1)[m - 1]) == Some(
                    rest_scores[m - 1],
                ));
            }
        }
        (chain, scores)
    }
}

proof fn lemma_same_names_same_total(
    a: Seq<DirEntry>,
    b: Seq<DirEntry>,
    patterns: Seq<Seq<char>>,
    x: Seq<i64>,
    y: Seq<i64>,
    cutoff: i64,
)
    requires
        each_matches(a, patterns, x, cutoff),
        each_matches(b, patterns, y, cutoff),
        names_of(a) == names_of(b),
    ensures
        x == y,
{
    assert forall|i: int| 0 <= i < x.len() implies x[i] == y[i] by {
        assert(names_of(a)[i] == names_of(b)[i]);
        assert(arinae_score(a[i].name@, patterns[i]) == Some(x[i]));
        assert(arinae_score(b[i].name@, patterns[i]) == Some(y[i]));
    }
    assert(x =~= y);
}

/// The word is cut before the segment in which the cursor stands: `prefix` is taken as
/// it stands, and the `patterns` are that segment and those right of it, one for each
/// slash right of the cursor.
pub open spec fn is_cut_at_cursor(
    dequoted: Seq<char>,
    from_right: nat,
    prefix: Seq<Seq<char>>,
    patterns: Seq<Seq<char>>,
) -> bool {
    &&& prefix + patterns == split_nonempty(dequoted, '/')
    &&& 0 < patterns.len() <= from_right + 1
    &&& prefix.len() > 0 ==> patterns.len() == from_right + 1
}

/// The text of a path that is found for a word: the part that is taken as it stands, and
/// the names that match, with slashes between them, and one before them where the word
/// starts with one.
pub open spec fn found_text(
    dequoted: Seq<char>,
    prefix: Seq<Seq<char>>,
    names: Seq<Seq<char>>,
) -> Seq<char> {
    let path = join(prefix + names, seq!['/']);
    if dequoted.len() > 0 && dequoted[0] == '/' {
        seq!['/'] + path
    } else {
        path
    }
}

/// `u` is a suggestion for the path that `chain` leads to.
pub open spec fn is_suggestion_for(
    u: UnprocessedView,
    dequoted: Seq<char>,
    prefix: Seq<Seq<char>>,
    chain: Seq<DirEntry>,
    flags: CompletionFlags,
) -> bool {
    &&& u.raw_text == found_text(dequoted, prefix, names_of(chain))
    &&& u.full_path == Some(chain.last().path)
    &&& u.flags == flags
    &&& u.word_under_cursor.len() == 0
    &&& !u.is_git_command
    &&& u.custom_prefix is None
}

proof fn lemma_cut_at_cursor(
    dequoted: Seq<char>,
    from_right: nat,
    prefix: Seq<Seq<char>>,
    patterns: Seq<Seq<char>>,
)
    requires
        is_cut_at_cursor(dequoted, from_right, prefix, patterns),
    ensures
        ({
            let segments = split_nonempty(dequoted, '/');
            let at = cursor_segment(segments.len(), from_right) as int;
            segments.take(at) == prefix && segments.skip(at) == patterns
        }),
{
    let segments = split_nonempty(dequoted, '/');
    let at = cursor_segment(segments.len(), from_right) as int;
    assert(at == prefix.len());
    assert(segments.take(at) =~= prefix);
    assert(segments.skip(at) =~= patterns);
}

proof fn lemma_hit_text(
    dequoted: Seq<char>,
    from_right: nat,
    prefix: Seq<Seq<char>>,
    patterns: Seq<Seq<char>>,
    hit: HitView,
    chain: Seq<DirEntry>,
    flags: CompletionFlags,
)
    requires
        is_cut_at_cursor(dequoted, from_right, prefix, patterns),
        chain.len() > 0,
        hit.segments == names_of(chain),
        hit.path == chain.last().path,
    ensures
        is_suggestion_for(
            hit_suggestion(
                hit,
                prefix_text(dequoted.len() > 0 && dequoted[0] == '/', prefix),
                flags,
            ),
            dequoted,
            prefix,
            chain,
            flags,
        ),
{
    reveal_strlit("/");
    assert("/"@ =~= seq!['/']);
    let segments = split_nonempty(dequoted, '/');
    let keep = |p: Seq<char>| p.len() > 0;
    assert forall|i: int| 0 <= i < prefix.len() implies (#[trigger] prefix[i]).len() > 0
        && !prefix[i].contains('/') by {
        assert(prefix[i] == (prefix + patterns)[i]);
        crate::lists::lemma_filter_members(split(dequoted, '/'), keep, i);
        crate::text::lemma_pieces_make_the_text(dequoted, '/');
        let k = choose|k: int|
            0 <= k < split(dequoted, '/').len() && split(dequoted, '/')[k] == segments[i];
        assert(!split(dequoted, '/')[k].contains('/'));
    }
    lemma_prefix_and_names_are_a_path(
        dequoted.len() > 0 && dequoted[0] == '/',
        prefix,
        names_of(chain),
    );
}

/// Every path whose names match the segments of the word from the cursor on is suggested.
/// (Of entries with one name, one is.)
pub proof fn lemma_no_path_is_left_out(
    dequoted: Seq<char>,
    from_right: nat,
    prefix: Seq<Seq<char>>,
    patterns: Seq<Seq<char>>,
    base: DirEntry,
    flags: CompletionFlags,
    cutoff: i64,
    chain: Seq<DirEntry>,
    scores: Seq<i64>,
) -> (i: int)
    requires
        is_cut_at_cursor(dequoted, from_right, prefix, patterns),
        leads_down(base, chain),
        each_matches(chain, patterns, scores, cutoff),
        hits_below(base, patterns, cutoff).len() <= usize::MAX,
    ensures
        0 <= i < fuzzy_suggestions(dequoted, from_right, base, flags, cutoff).len(),
        fuzzy_suggestions(dequoted, from_right, base, flags, cutoff)[i].raw_text == found_text(
            dequoted,
            prefix,
            names_of(chain),
        ),
{
    lemma_cut_at_cursor(dequoted, from_right, prefix, patterns);
    lemma_no_path_is_missed(base, chain, patterns, scores, cutoff);
    let hits = hits_below(base, patterns, cutoff);
    let hit = choose|hit: HitView| #[trigger]
        hits.contains(hit) && is_hit_at_end(hit, chain, scores);
    let x = choose|x: int| 0 <= x < hits.len() && hits[x] == hit;
    let keys = hits.map_values(|h: HitView| hit_key(h));
    let names = hits.map_values(|h: HitView| segments_key(h.segments));
    let order = crate::order::stable_order(keys);
    crate::order::lemma_stable_order_exists(keys);
    assert(order.contains(x as usize));
    let p = choose|p: int| 0 <= p < order.len() && order[p] == x as usize;
    let i = crate::order::lemma_dedup_keeps_keys(names, order, p);
    crate::order::lemma_dedup_within(names, order, keys.len() as int);
    let y = crate::order::dedup_order(names, order)[i] as int;
    assert(names[y] == segments_key(hits[y].segments));
    assert(names[x] == segments_key(hits[x].segments));
    lemma_segments_key_injective(hits[y].segments, hits[x].segments);
    assert(sorted_hits(hits)[i] == hits[y]);
    let like = HitView { segments: hit.segments, path: hit.path, ..hits[y] };
    lemma_hit_text(dequoted, from_right, prefix, patterns, like, chain, flags);
    let found = fuzzy_suggestions(dequoted, from_right, base, flags, cutoff);
    let start = prefix_text(dequoted.len() > 0 && dequoted[0] == '/', prefix);
    assert(found[i] == hit_suggestion(hits[y], start, flags));
    assert(hit_suggestion(hits[y], start, flags).raw_text == hit_suggestion(
        like,
        start,
        flags,
    ).raw_text);
    i
}

/// What is suggested are paths whose names match the segments of the word from the cursor
/// on, and what is suggested first has no lower score than what follows.
pub proof fn lemma_better_paths_first(
    dequoted: Seq<char>,
    from_right: nat,
    prefix: Seq<Seq<char>>,
    patterns: Seq<Seq<char>>,
    base: DirEntry,
    flags: CompletionFlags,
    cutoff: i64,
    i: int,
    j: int,
) -> (r: ((Seq<DirEntry>, Seq<i64>), (Seq<DirEntry>, Seq<i64>)))
    requires
        is_cut_at_cursor(dequoted, from_right, prefix, patterns),
        hits_below(base, patterns, cutoff).len() <= usize::MAX,
        forall|k: int|
            0 <= k < hits_below(base, patterns, cutoff).len() ==> 0 <= (#[trigger] hits_below(
                base,
                patterns,
                cutoff,
            )[k]).score <= i128::MAX,
        0 <= i <= j < fuzzy_suggestions(dequoted, from_right, base, flags, cutoff).len(),
    ensures
        ({
            let found = fuzzy_suggestions(dequoted, from_right, base, flags, cutoff);
            let ((a, x), (b, y)) = r;
            &&& leads_down(base, a) && each_matches(a, patterns, x, cutoff)
            &&& leads_down(base, b) && each_matches(b, patterns, y, cutoff)
            &&& is_suggestion_for(found[i], dequoted, prefix, a, flags)
            &&& is_suggestion_for(found[j], dequoted, prefix, b, flags)
            &&& total(x) >= total(y)
        }),
{
    lemma_cut_at_cursor(dequoted, from_right, prefix, patterns);
    let hits = hits_below(base, patterns, cutoff);
    let keys = hits.map_values(|h: HitView| hit_key(h));
    let names = hits.map_values(|h: HitView| segments_key(h.segments));
    let order = crate::order::stable_order(keys);
    crate::order::lemma_stable_order_exists(keys);
    crate::order::lemma_dedup_within(names, order, keys.len() as int);
    let kept = crate::order::dedup_order(names, order);
    let (a, x) = lemma_only_paths_are_found(base, patterns, cutoff, kept[i] as int);
    let (b, y) = lemma_only_paths_are_found(base, patterns, cutoff, kept[j] as int);
    assert(sorted_hits(hits)[i] == hits[kept[i] as int]);
    assert(sorted_hits(hits)[j] == hits[kept[j] as int]);
    lemma_hit_text(dequoted, from_right, prefix, patterns, hits[kept[i] as int], a, flags);
    lemma_hit_text(dequoted, from_right, prefix, patterns, hits[kept[j] as int], b, flags);
    lemma_best_hits_first(hits);
    if i < j {
        assert(sorted_hits(hits)[i].score >= sorted_hits(hits)[j].score);
    }
    ((a, x), (b, y))
}

/// No path is found twice: of entries with one name, one is left.
pub proof fn lemma_no_path_is_found_twice(
    base: DirEntry,
    patterns: Seq<Seq<char>>,
    cutoff: i64,
    i: int,
    j: int,
)
    requires
        patterns.len() > 0,
        hits_below(base, patterns, cutoff).len() <= usize::MAX,
        0 <= i < j < sorted_hits(hits_below(base, patterns, cutoff)).len(),
    ensures
        sorted_hits(hits_below(base, patterns, cutoff))[i].segments != sorted_hits(
            hits_below(base, patterns, cutoff),
        )[j].segments,
{
    let hits = hits_below(base, patterns, cutoff);
    let keys = hits.map_values(|h: HitView| hit_key(h));
    let names = hits.map_values(|h: HitView| segments_key(h.segments));
    let order = crate::order::stable_order(keys);
    crate::order::lemma_stable_order_exists(keys);
    assert forall|p: int, q: int|
        0 <= p < order.len() && 0 <= q < order.len() implies (names[#[trigger] order[p] as int]
        == names[#[trigger] order[q] as int] <==> keys[order[p] as int] == keys[order[q] as int]) by {
        let g = hits[order[p] as int];
        let h = hits[order[q] as int];
        lemma_segments_key_injective(g.segments, h.segments);
        if g.segments == h.segments {
            let (a, x) = lemma_only_paths_are_found(base, patterns, cutoff, order[p] as int);
            let (b, y) = lemma_only_paths_are_found(base, patterns, cutoff, order[q] as int);
            lemma_same_names_same_total(a, b, patterns, x, y, cutoff);
        }
        assert(segments_key(g.segments) =~= hit_key(g).skip(1));
        assert(segments_key(h.segments) =~= hit_key(h).skip(1));
    }
    crate::order::lemma_dedup_alike(names, keys, order);
    crate::order::lemma_sorted_dedup(keys, order);
    crate::order::lemma_dedup_within(keys, order, keys.len() as int);
    let kept = crate::order::dedup_order(keys, order);
    assert(crate::order::key_lt(keys[kept[i] as int], keys[kept[j] as int]));
    crate::order::lemma_key_irreflexive(keys[kept[i] as int]);
    let g = hits[kept[i] as int];
    let h = hits[kept[j] as int];
    if g.segments == h.segments {
        let (a, x) = lemma_only_paths_are_found(base, patterns, cutoff, kept[i] as int);
        let (b, y) = lemma_only_paths_are_found(base, patterns, cutoff, kept[j] as int);
        lemma_same_names_same_total(a, b, patterns, x, y, cutoff);
    }
}

/// The directory to start from is that of the segments which are taken as they stand: the
/// root where there are none and the path starts with a slash, else the directory that the
/// shell is in.
pub proof fn lemma_directory_to_start_from(query: FuzzyQuery)
    ensures
        query.prefix_segments@.len() == 0 && query.is_absolute ==> query.base() == seq!['/'],
        query.prefix_segments@.len() == 0 && !query.is_absolute ==> query.base() == seq!['.'],
        query.prefix_segments@.len() > 0 && query.prefix_segments@[0]@.len() > 0 ==> query.base()
            == (if query.is_absolute {
            seq!['/']
        } else {
            Seq::empty()
        }) + join(views(query.prefix_segments@), seq!['/']),
{
    reveal_strlit("/");
    reveal_strlit(".");
    assert("/"@ =~= seq!['/']);
    assert("."@ =~= seq!['.']);
    let segments = views(query.prefix_segments@);
    if segments.len() == 0 {
        assert(join(segments, "/"@) =~= Seq::empty());
        assert("/"@ + join(segments, "/"@) =~= seq!['/']);
    } else if segments[0].len() > 0 {
        lemma_join_starts(segments);
        assert(Seq::<char>::empty() + join(segments, "/"@) =~= join(segments, "/"@));
    }
}

/// `a` comes before `b`: the first name that differs does, or `a` has ended.
pub open spec fn names_before(a: Seq<Seq<char>>, b: Seq<Seq<char>>) -> bool {
    exists|i: int| #[trigger] names_differ_at(a, b, i) && i < b.len() && (i == a.len() || text_before(
        a[i],
        b[i],
    ))
}

/// `a` and `b` have the same names up to `i`, and not there.
pub open spec fn names_differ_at(a: Seq<Seq<char>>, b: Seq<Seq<char>>, i: int) -> bool {
    &&& 0 <= i <= a.len()
    &&& i <= b.len()
    &&& a.take(i) == b.take(i)
    &&& i < a.len() && i < b.len() ==> a[i] != b[i]
}

proof fn lemma_segments_key_front(segments: Seq<Seq<char>>)
    requires
        segments.len() > 0,
    ensures
        segments_key(segments) == segment_code(segments[0]) + seq![0i128] + segments_key(
            segments.skip(1),
        ),
    decreases segments.len(),
{
    let rest = segments.skip(1);
    if segments.len() == 1 {
        assert(segments.drop_last() =~= Seq::empty());
        assert(segments_key(segments.drop_last()) =~= Seq::empty());
        assert(segments_key(rest) =~= Seq::empty());
        assert(segments_key(segments) =~= segment_code(segments[0]) + seq![0i128] + segments_key(
            rest,
        ));
    } else {
        let head = segments.drop_last();
        lemma_segments_key_front(head);
        assert(head.skip(1) =~= rest.drop_last());
        assert(rest.last() == segments.last());
        assert(segments_key(segments) =~= segment_code(segments[0]) + seq![0i128] + segments_key(
            rest,
        ));
    }
}

proof fn lemma_same_start_of_keys(p: Seq<i128>, x: Seq<i128>, y: Seq<i128>)
    ensures
        key_lt(p + x, p + y) == key_lt(x, y),
    decreases p.len(),
{
    if p.len() == 0 {
        assert(p + x =~= x);
        assert(p + y =~= y);
    } else {
        lemma_same_start_of_keys(p.drop_first(), x, y);
        assert((p + x).drop_first() =~= p.drop_first() + x);
        assert((p + y).drop_first() =~= p.drop_first() + y);
    }
}

proof fn lemma_first_names_decide(a: Seq<char>, b: Seq<char>, x: Seq<i128>, y: Seq<i128>)
    requires
        a != b,
        key_lt(segment_code(a) + seq![0i128] + x, segment_code(b) + seq![0i128] + y),
    ensures
        text_before(a, b),
    decreases a.len(),
{
    let ka = segment_code(a) + seq![0i128] + x;
    let kb = segment_code(b) + seq![0i128] + y;
    if a.len() == 0 || b.len() == 0 || a[0] != b[0] {
        assert(a.take(0) =~= b.take(0));
        assert(crate::order::differ_at(a, b, 0));
        if a.len() == 0 && b.len() == 0 {
            assert(a =~= b);
        } else if a.len() == 0 {
            assert(text_before(a, b));
        } else if b.len() == 0 {
            lemma_segment_code_positive(a[0], a[0]);
            assert(ka[0] == (a[0] as u32 + 1) as i128);
            assert(kb[0] == 0);
        } else {
            lemma_segment_code_positive(a[0], b[0]);
            assert(ka[0] == (a[0] as u32 + 1) as i128);
            assert(kb[0] == (b[0] as u32 + 1) as i128);
        }
    } else {
        let ra = a.drop_first();
        let rb = b.drop_first();
        assert(ka.drop_first() =~= segment_code(ra) + seq![0i128] + x);
        assert(kb.drop_first() =~= segment_code(rb) + seq![0i128] + y);
        if ra == rb {
            assert(a =~= seq![a[0]] + ra);
            assert(b =~= seq![b[0]] + rb);
        }
        lemma_first_names_decide(ra, rb, x, y);
        let i = choose|i: int| #[trigger]
            crate::order::differ_at(ra, rb, i) && i < rb.len() && (i == ra.len() || (ra[i] as u32)
                < (rb[i] as u32));
        assert(a.take(i + 1) =~= seq![a[0]] + ra.take(i));
        assert(b.take(i + 1) =~= seq![b[0]] + rb.take(i));
        assert(crate::order::differ_at(a, b, i + 1));
    }
}

proof fn lemma_names_are_sorted(a: Seq<Seq<char>>, b: Seq<Seq<char>>)
    requires
        key_lt(segments_key(a), segments_key(b)),
    ensures
        names_before(a, b),
    decreases a.len(),
{
    if b.len() > 0 {
        assert(a.take(0) =~= b.take(0));
        if a.len() == 0 {
            assert(names_differ_at(a, b, 0));
        } else {
            lemma_segments_key_front(a);
            lemma_segments_key_front(b);
            let ra = a.skip(1);
            let rb = b.skip(1);
            if a[0] == b[0] {
                lemma_same_start_of_keys(
                    segment_code(a[0]) + seq![0i128],
                    segments_key(ra),
                    segments_key(rb),
                );
                lemma_names_are_sorted(ra, rb);
                let i = choose|i: int| #[trigger] names_differ_at(ra, rb, i) && i < rb.len() && (i
                    == ra.len() || text_before(ra[i], rb[i]));
                assert(a.take(i + 1) =~= seq![a[0]] + ra.take(i));
                assert(b.take(i + 1) =~= seq![b[0]] + rb.take(i));
                assert(names_differ_at(a, b, i + 1));
            } else {
                lemma_first_names_decide(a[0], b[0], segments_key(ra), segments_key(rb));
                assert(names_differ_at(a, b, 0));
            }
        }
    }
}

/// Paths with one score stand in the order of their names, each compared by its
/// characters.
pub proof fn lemma_paths_with_one_score_stand_in_order(
    base: DirEntry,
    patterns: Seq<Seq<char>>,
    cutoff: i64,
    i: int,
    j: int,
)
    requires
        patterns.len() > 0,
        hits_below(base, patterns, cutoff).len() <= usize::MAX,
        0 <= i < j < sorted_hits(hits_below(base, patterns, cutoff)).len(),
        sorted_hits(hits_below(base, patterns, cutoff))[i].score == sorted_hits(
            hits_below(base, patterns, cutoff),
        )[j].score,
    ensures
        names_before(
            sorted_hits(hits_below(base, patterns, cutoff))[i].segments,
            sorted_hits(hits_below(base, patterns, cutoff))[j].segments,
        ),
{
    lemma_no_path_is_found_twice(base, patterns, cutoff, i, j);
    let hits = hits_below(base, patterns, cutoff);
    let keys = hits.map_values(|h: HitView| hit_key(h));
    let names = hits.map_values(|h: HitView| segments_key(h.segments));
    let order = crate::order::stable_order(keys);
    crate::order::lemma_stable_order_exists(keys);
    crate::order::lemma_dedup_within(names, order, keys.len() as int);
    let kept = crate::order::dedup_order(names, order);
    crate::order::lemma_dedup_subsequence(names, order, i, j);
    let (p, q) = choose|p: int, q: int|
        0 <= p < q < order.len() && #[trigger] order[p] == kept[i] && #[trigger] order[q] == kept[j];
    assert(crate::order::precedes(keys, order[p] as int, order[q] as int));
    let g = hits[order[p] as int];
    let h = hits[order[q] as int];
    assert(sorted_hits(hits)[i] == g && sorted_hits(hits)[j] == h);
    assert(keys[order[p] as int] == hit_key(g));
    assert(keys[order[q] as int] == hit_key(h));
    lemma_segments_key_injective(g.segments, h.segments);
    assert(segments_key(g.segments) =~= hit_key(g).drop_first());
    assert(segments_key(h.segments) =~= hit_key(h).drop_first());
    assert(key_lt(hit_key(g), hit_key(h)));
    assert(hit_key(g)[0] == hit_key(h)[0]);
    lemma_names_are_sorted(g.segments, h.segments);
}

/// A word that holds nothing but slashes asks for nothing.
pub proof fn lemma_slashes_ask_for_nothing(
    dequoted: Seq<char>,
    from_right: nat,
    base: DirEntry,
    flags: CompletionFlags,
    cutoff: i64,
)
    requires
        forall|i: int| 0 <= i < dequoted.len() ==> #[trigger] dequoted[i] == '/',
    ensures
        fuzzy_suggestions(dequoted, from_right, base, flags, cutoff).len() == 0,
{
    lemma_slashes_have_no_segments(dequoted);
}

proof fn lemma_slashes_have_no_segments(s: Seq<char>)
    requires
        forall|i: int| 0 <= i < s.len() ==> #[trigger] s[i] == '/',
    ensures
        split_nonempty(s, '/').len() == 0,
    decreases s.len(),
{
    if s.len() == 0 {
        lemma_empty_path_has_no_segments();
        assert(s =~= Seq::empty());
    } else {
        let rest = s.drop_last();
        assert forall|i: int| 0 <= i < rest.len() implies #[trigger] rest[i] == '/' by {
            assert(s[i] == '/');
        }
        lemma_slashes_have_no_segments(rest);
        lemma_segments_grow(s);
        assert(s[s.len() - 1] == '/');
    }
}

} // verus!
