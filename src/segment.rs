//! Splitting a line into plain and matched segments.
use vstd::prelude::*;
use crate::text::{chars_of, find_from, find_from_exec, lemma_find_from};
use crate::record::strings_view;
use vstd::string::StrSliceExecFns;
use vstd::string::StringExecFns;

verus! {

/// A run of a line's text, marked as matched or plain.
pub struct Segment {
    pub text: String,
    pub matched: bool,
}

impl View for Segment {
    type V = (Seq<char>, bool);

    open spec fn view(&self) -> (Seq<char>, bool) {
        (self.text@, self.matched)
    }
}

/// The abstract value of a sequence of segments.
pub open spec fn segs_view(segs: Seq<Segment>) -> Seq<(Seq<char>, bool)> {
    segs.map_values(|x: Segment| x@)
}


/// One segment holding `text`, or none when `text` is empty.
pub open spec fn piece(text: Seq<char>, matched: bool) -> Seq<(Seq<char>, bool)> {
    if text.len() == 0 {
        seq![]
    } else {
        seq![(text, matched)]
    }
}

/// `x` brought into the range from `lo` to `hi`.
pub open spec fn between(x: int, lo: int, hi: int) -> int {
    if x < lo {
        lo
    } else if x > hi {
        hi
    } else {
        x
    }
}

/// How many entries of `starts` are below `q`.
pub open spec fn count_below(starts: Seq<int>, q: int) -> int
    decreases starts.len(),
{
    if starts.len() == 0 {
        0
    } else {
        count_below(starts.drop_last(), q) + if starts.last() < q {
            1int
        } else {
            0int
        }
    }
}

/// The line position of the character whose image in the search text holds
/// search position `p`, where `starts[i]` is where the image of character
/// `i` starts.
pub open spec fn line_start(starts: Seq<int>, p: int) -> int {
    count_below(starts, p + 1) - 1
}

/// The first line position whose image starts at or after search position `q`.
pub open spec fn line_end(starts: Seq<int>, q: int) -> int {
    count_below(starts, q)
}

/// Each character stands for itself: character `i` of a text of length `n`
/// is found at position `i`.
pub open spec fn identity_starts(n: int) -> Seq<int> {
    Seq::new(n as nat, |i: int| i)
}

/// The segments of `line` from search position `from` and line position
/// `cur` on. The occurrences of `needle` are taken greedily, left to right
/// and without overlap, from `search`, in which character `i` of `line`
/// stands as the run that starts at `starts[i]`. Each occurrence marks the
/// whole characters of `line` whose runs it touches, from where the last
/// mark ended on.
pub open spec fn segments_from(
    line: Seq<char>,
    search: Seq<char>,
    starts: Seq<int>,
    needle: Seq<char>,
    from: int,
    cur: int,
) -> Seq<(Seq<char>, bool)>
    decreases search.len() + 1 - from,
{
    if needle.len() == 0 || from < 0 || cur < 0 || cur > line.len() {
        seq![]
    } else {
        match find_from(search, needle, from) {
            None => piece(line.subrange(cur, line.len() as int), false),
            Some(p) => {
                proof {
                    lemma_find_from(search, needle, from);
                }
                let a = between(line_start(starts, p), cur, line.len() as int);
                let b = between(line_end(starts, p + needle.len()), a, line.len() as int);
                piece(line.subrange(cur, a), false) + piece(line.subrange(a, b), true)
                    + segments_from(line, search, starts, needle, p + needle.len(), b)
            },
        }
    }
}

/// The segments of a whole line.
pub open spec fn segments_of(
    line: Seq<char>,
    search: Seq<char>,
    starts: Seq<int>,
    needle: Seq<char>,
) -> Seq<(Seq<char>, bool)> {
    segments_from(line, search, starts, needle, 0, 0)
}

/// The segments of `line` when it is searched as it stands.
pub open spec fn plain_segments(line: Seq<char>, needle: Seq<char>) -> Seq<(Seq<char>, bool)> {
    segments_of(line, line, identity_starts(line.len() as int), needle)
}

/// The text formed by the images of a line's characters, one after another.
pub open spec fn images_text(images: Seq<Seq<char>>) -> Seq<char> {
    images.flatten()
}

/// Where the image of each character starts in `images_text(images)`.
pub open spec fn image_starts(images: Seq<Seq<char>>) -> Seq<int>
    decreases images.len(),
{
    if images.len() == 0 {
        seq![]
    } else {
        image_starts(images.drop_last()).push(images.drop_last().flatten().len() as int)
    }
}

/// The segments of `line` when character `i` is searched as `images[i]`.
pub open spec fn image_segments(
    line: Seq<char>,
    images: Seq<Seq<char>>,
    needle: Seq<char>,
) -> Seq<(Seq<char>, bool)> {
    segments_of(line, images_text(images), image_starts(images), needle)
}

/// The integer values of `v`.
pub open spec fn ints(v: Seq<usize>) -> Seq<int> {
    v.map_values(|x: usize| x as int)
}

/// The texts of `segs`, concatenated in order.
pub open spec fn joined(segs: Seq<(Seq<char>, bool)>) -> Seq<char>
    decreases segs.len(),
{
    if segs.len() == 0 {
        Seq::empty()
    } else {
        segs[0].0 + joined(segs.drop_first())
    }
}

/// Every segment is non-empty and no two plain segments are next to each other.
pub open spec fn well_formed(segs: Seq<(Seq<char>, bool)>) -> bool {
    &&& forall|i: int| 0 <= i < segs.len() ==> #[trigger] segs[i].0.len() > 0
    &&& forall|i: int| 0 <= i < segs.len() - 1 ==> #[trigger] segs[i].1 || segs[i + 1].1
}

/// Where segment `i` of `segs` starts in the concatenation of their texts.
pub open spec fn offset_of(segs: Seq<(Seq<char>, bool)>, i: int) -> int {
    joined(segs.take(i)).len() as int
}

/// Joining two runs of segments joins their texts.
pub proof fn lemma_joined_concat(a: Seq<(Seq<char>, bool)>, b: Seq<(Seq<char>, bool)>)
    ensures
        joined(a + b) == joined(a) + joined(b),
    decreases a.len(),
{
    if a.len() == 0 {
        assert(a + b =~= b);
        assert(joined(a) + joined(b) =~= joined(b));
    } else {
        assert((a + b).drop_first() =~= a.drop_first() + b);
        lemma_joined_concat(a.drop_first(), b);
        assert(joined(a + b) =~= joined(a) + joined(b));
    }
}

/// The text of a single segment.
proof fn lemma_joined_single(x: (Seq<char>, bool))
    ensures
        joined(seq![x]) == x.0,
{
    let s = seq![x];
    assert(s.drop_first() =~= Seq::<(Seq<char>, bool)>::empty());
    assert(joined(s.drop_first()) =~= Seq::<char>::empty());
    assert(joined(s) =~= x.0);
}

/// The text of a single piece.
proof fn lemma_joined_piece(text: Seq<char>, matched: bool)
    ensures
        joined(piece(text, matched)) == text,
{
    if text.len() == 0 {
        assert(joined(piece(text, matched)) =~= text);
    } else {
        lemma_joined_single((text, matched));
    }
}


/// More of `starts` lies below a larger bound.
proof fn lemma_count_below_monotone(starts: Seq<int>, q1: int, q2: int)
    requires
        q1 <= q2,
    ensures
        count_below(starts, q1) <= count_below(starts, q2),
        0 <= count_below(starts, q1) <= starts.len(),
    decreases starts.len(),
{
    if starts.len() > 0 {
        lemma_count_below_monotone(starts.drop_last(), q1, q2);
    }
}

/// In a text searched as it stands, the entries below `q` are those up to it.
proof fn lemma_count_below_identity(n: int, q: int)
    requires
        n >= 0,
    ensures
        count_below(identity_starts(n), q) == between(q, 0, n),
    decreases n,
{
    if n > 0 {
        assert(identity_starts(n).drop_last() =~= identity_starts(n - 1));
        lemma_count_below_identity(n - 1, q);
    }
}

/// From the end of `line` on, there are no segments.
proof fn lemma_segments_at_end(
    line: Seq<char>,
    search: Seq<char>,
    starts: Seq<int>,
    needle: Seq<char>,
    from: int,
)
    ensures
        segments_from(line, search, starts, needle, from, line.len() as int) == Seq::<
            (Seq<char>, bool),
        >::empty(),
    decreases search.len() + 1 - from,
{
    if needle.len() == 0 || from < 0 {
    } else {
        lemma_find_from(search, needle, from);
        match find_from(search, needle, from) {
            None => {},
            Some(p) => {
                lemma_segments_at_end(line, search, starts, needle, p + needle.len());
                assert(segments_from(line, search, starts, needle, from, line.len() as int)
                    =~= Seq::<(Seq<char>, bool)>::empty());
            },
        }
    }
}

/// The segments from line position `cur` on rebuild `line` from there to its end.
pub proof fn lemma_segments_rebuild(
    line: Seq<char>,
    search: Seq<char>,
    starts: Seq<int>,
    needle: Seq<char>,
    from: int,
    cur: int,
)
    requires
        needle.len() > 0,
        from >= 0,
        0 <= cur <= line.len(),
    ensures
        joined(segments_from(line, search, starts, needle, from, cur)) == line.subrange(
            cur,
            line.len() as int,
        ),
    decreases search.len() + 1 - from,
{
    let n = line.len() as int;
    lemma_find_from(search, needle, from);
    match find_from(search, needle, from) {
        None => {
            lemma_joined_piece(line.subrange(cur, n), false);
        },
        Some(p) => {
            let q = p + needle.len();
            let a = between(line_start(starts, p), cur, n);
            let b = between(line_end(starts, q), a, n);
            let pa = piece(line.subrange(cur, a), false);
            let pb = piece(line.subrange(a, b), true);
            let rest = segments_from(line, search, starts, needle, q, b);
            lemma_segments_rebuild(line, search, starts, needle, q, b);
            lemma_joined_piece(line.subrange(cur, a), false);
            lemma_joined_piece(line.subrange(a, b), true);
            lemma_joined_concat(pa, pb);
            lemma_joined_concat(pa + pb, rest);
            assert(joined(pa + pb + rest) =~= line.subrange(cur, n));
        },
    }
}

/// The segments from line position `cur` on are well formed.
pub proof fn lemma_segments_well_formed(
    line: Seq<char>,
    search: Seq<char>,
    starts: Seq<int>,
    needle: Seq<char>,
    from: int,
    cur: int,
)
    requires
        needle.len() > 0,
        from >= 0,
        0 <= cur <= line.len(),
    ensures
        well_formed(segments_from(line, search, starts, needle, from, cur)),
    decreases search.len() + 1 - from,
{
    let n = line.len() as int;
    lemma_find_from(search, needle, from);
    match find_from(search, needle, from) {
        None => {},
        Some(p) => {
            let q = p + needle.len();
            lemma_count_below_monotone(starts, p + 1, q);
            let a = between(line_start(starts, p), cur, n);
            let b = between(line_end(starts, q), a, n);
            let pa = piece(line.subrange(cur, a), false);
            let pb = piece(line.subrange(a, b), true);
            let rest = segments_from(line, search, starts, needle, q, b);
            lemma_segments_well_formed(line, search, starts, needle, q, b);
            if pb.len() == 0 {
                if a == cur {
                    assert(pa + pb + rest =~= rest);
                } else {
                    lemma_segments_at_end(line, search, starts, needle, q);
                    assert(pa + pb + rest =~= pa);
                }
            } else {
                let all = pa + pb + rest;
                assert forall|i: int| 0 <= i < all.len() - 1 implies #[trigger] all[i].1 || all[
                    i + 1].1 by {
                    if i + 1 < pa.len() + 1 {
                    } else {
                        assert(all[i + 1] == rest[i + 1 - pa.len() - 1]);
                    }
                }
            }
        },
    }
}

/// When `line` is searched as it stands, every matched segment is `needle`.
pub proof fn lemma_plain_matches_are_needle(line: Seq<char>, needle: Seq<char>, from: int)
    requires
        needle.len() > 0,
        0 <= from <= line.len(),
    ensures
        forall|i: int|
            0 <= i < segments_from(line, line, identity_starts(line.len() as int), needle, from, from).len()
                && (#[trigger] segments_from(line, line, identity_starts(line.len() as int), needle, from, from)[i]).1
                ==> segments_from(line, line, identity_starts(line.len() as int), needle, from, from)[i].0 == needle,
    decreases line.len() + 1 - from,
{
    let n = line.len() as int;
    let st = identity_starts(n);
    let segs = segments_from(line, line, st, needle, from, from);
    lemma_find_from(line, needle, from);
    match find_from(line, needle, from) {
        None => {},
        Some(p) => {
            let q = p + needle.len();
            lemma_count_below_identity(n, p + 1);
            lemma_count_below_identity(n, q);
            assert(line_start(st, p) == p);
            assert(line_end(st, q) == q);
            let pa = piece(line.subrange(from, p), false);
            let pb = piece(line.subrange(p, q), true);
            let rest = segments_from(line, line, st, needle, q, q);
            lemma_plain_matches_are_needle(line, needle, q);
            assert(segs == pa + pb + rest);
            assert forall|i: int| 0 <= i < segs.len() && (#[trigger] segs[i]).1 implies segs[i].0
                == needle by {
                if i < pa.len() {
                } else if i < pa.len() + pb.len() {
                } else {
                    assert(segs[i] == rest[i - pa.len() - pb.len()]);
                }
            }
        },
    }
}

/// Each segment of a run whose texts join to `line` is the piece of `line`
/// at its offset, and each ends before or where the next one starts.
pub proof fn lemma_segment_ranges(segs: Seq<(Seq<char>, bool)>, line: Seq<char>)
    requires
        joined(segs) == line,
    ensures
        forall|i: int|
            0 <= i < segs.len() ==> 0 <= #[trigger] offset_of(segs, i) && offset_of(segs, i)
                + segs[i].0.len() <= line.len() && line.subrange(
                offset_of(segs, i),
                offset_of(segs, i) + segs[i].0.len(),
            ) == segs[i].0,
        forall|i: int, j: int|
            0 <= i < j < segs.len() ==> #[trigger] offset_of(segs, i) + segs[i].0.len()
                <= #[trigger] offset_of(segs, j),
{
    assert forall|i: int| 0 <= i < segs.len() implies 0 <= #[trigger] offset_of(segs, i)
        && offset_of(segs, i) + segs[i].0.len() <= line.len() && line.subrange(
        offset_of(segs, i),
        offset_of(segs, i) + segs[i].0.len(),
    ) == segs[i].0 by {
        let pre = segs.take(i);
        let mid = seq![segs[i]];
        let post = segs.skip(i + 1);
        assert(segs =~= pre + mid + post);
        lemma_joined_concat(pre + mid, post);
        lemma_joined_concat(pre, mid);
        lemma_joined_single(segs[i]);
        assert(line =~= joined(pre) + segs[i].0 + joined(post));
        assert(line.subrange(offset_of(segs, i), offset_of(segs, i) + segs[i].0.len())
            =~= segs[i].0);
    }
    assert forall|i: int, j: int| 0 <= i < j < segs.len() implies #[trigger] offset_of(segs, i)
        + segs[i].0.len() <= #[trigger] offset_of(segs, j) by {
        let pre = segs.take(i + 1);
        let mid = segs.subrange(i + 1, j);
        assert(segs.take(j) =~= pre + mid);
        lemma_joined_concat(pre, mid);
        assert(pre =~= segs.take(i) + seq![segs[i]]);
        lemma_joined_concat(segs.take(i), seq![segs[i]]);
        lemma_joined_single(segs[i]);
    }
}

/// Appends to `segs` the segment of `line` between `a` and `b`, when it is not empty.
fn push_piece(segs: &mut Vec<Segment>, line: &str, a: usize, b: usize, matched: bool)
    requires
        a <= b <= line@.len(),
    ensures
        segs_view(final(segs)@) == segs_view(old(segs)@) + piece(
            line@.subrange(a as int, b as int),
            matched,
        ),
{
    if a < b {
        let text = String::from_str(line.substring_char(a, b));
        segs.push(Segment { text, matched });
        assert(segs_view(segs@) =~= segs_view(old(segs)@) + piece(
            line@.subrange(a as int, b as int),
            matched,
        ));
    } else {
        assert(segs_view(segs@) =~= segs_view(old(segs)@) + piece(
            line@.subrange(a as int, b as int),
            matched,
        ));
    }
}


/// How many entries of `starts` are below `q`.
fn count_below_exec(starts: &Vec<usize>, q: usize) -> (r: usize)
    ensures
        r == count_below(ints(starts@), q as int),
{
    let mut k: usize = 0;
    let mut i: usize = 0;
    while i < starts.len()
        invariant
            i <= starts.len(),
            k <= i,
            k == count_below(ints(starts@).take(i as int), q as int),
        decreases starts.len() - i,
    {
        assert(ints(starts@).take(i as int + 1).drop_last() =~= ints(starts@).take(i as int));
        if starts[i] < q {
            k = k + 1;
        }
        i = i + 1;
    }
    assert(ints(starts@).take(i as int) =~= ints(starts@));
    k
}

/// Splits `line` into segments, searching `hay`, where character `i` of
/// `line` stands as the run of `hay` that starts at `starts[i]`.
fn mark(line: &str, hay: &Vec<char>, starts: &Vec<usize>, pat: &Vec<char>) -> (r: Vec<Segment>)
    requires
        pat@.len() > 0,
    ensures
        segs_view(r@) == segments_of(line@, hay@, ints(starts@), pat@),
{
    let line_len = line.unicode_len();
    let ghost st = ints(starts@);
    let mut segs: Vec<Segment> = Vec::new();
    let mut from: usize = 0;
    let mut cur: usize = 0;
    loop
        invariant_except_break
            segs_view(segs@) + segments_from(line@, hay@, st, pat@, from as int, cur as int)
                == segments_of(line@, hay@, st, pat@),
        invariant
            line_len == line@.len(),
            st == ints(starts@),
            pat@.len() > 0,
            from <= hay@.len(),
            cur <= line_len,
        ensures
            segs_view(segs@) == segments_of(line@, hay@, st, pat@),
        decreases hay@.len() + 1 - from,
    {
        match find_from_exec(hay, pat, from) {
            None => {
                let ghost before = segs_view(segs@);
                push_piece(&mut segs, line, cur, line_len, false);
                assert(segs_view(segs@) == before + segments_from(
                    line@,
                    hay@,
                    st,
                    pat@,
                    from as int,
                    cur as int,
                ));
                break;
            },
            Some(p) => {
                proof {
                    lemma_find_from(hay@, pat@, from as int);
                    assert(p + pat.len() <= hay.len());
                }
                let ghost before = segs_view(segs@);
                let end = p + pat.len();
                let first = count_below_exec(starts, p + 1);
                let last = count_below_exec(starts, end);
                proof {
                    lemma_count_below_monotone(st, p + 1, end as int);
                }
                let a = if first <= cur {
                    cur
                } else if first - 1 > line_len {
                    line_len
                } else {
                    first - 1
                };
                let b = if last < a {
                    a
                } else if last > line_len {
                    line_len
                } else {
                    last
                };
                push_piece(&mut segs, line, cur, a, false);
                push_piece(&mut segs, line, a, b, true);
                assert(before + segments_from(line@, hay@, st, pat@, from as int, cur as int)
                    =~= segs_view(segs@) + segments_from(
                    line@,
                    hay@,
                    st,
                    pat@,
                    end as int,
                    b as int,
                ));
                from = end;
                cur = b;
            },
        }
    }
    segs
}

/// Splits `line` into segments: every occurrence of `needle` in `line`,
/// found left to right without overlap, is marked as matched.
pub fn annotate(line: &str, needle: &str) -> (r: Vec<Segment>)
    requires
        needle@.len() > 0,
    ensures
        segs_view(r@) == plain_segments(line@, needle@),
{
    let hay = chars_of(line);
    let pat = chars_of(needle);
    let mut starts: Vec<usize> = Vec::new();
    let mut i: usize = 0;
    while i < hay.len()
        invariant
            i <= hay.len(),
            starts.len() == i,
            ints(starts@) == identity_starts(i as int),
        decreases hay.len() - i,
    {
        let ghost before = starts@;
        starts.push(i);
        assert forall|k: int| 0 <= k < i + 1 implies #[trigger] ints(starts@)[k] == identity_starts(
            i as int + 1,
        )[k] by {
            if k < i {
                assert(ints(before)[k] == identity_starts(i as int)[k]);
            }
        }
        assert(ints(starts@) =~= identity_starts(i as int + 1));
        i = i + 1;
    }
    mark(line, &hay, &starts, &pat)
}

/// The search text formed by `images`, and where each image starts in it.
pub fn image_layout(images: &Vec<String>) -> (r: (Vec<char>, Vec<usize>))
    ensures
        r.0@ == images_text(strings_view(images@)),
        ints(r.1@) == image_starts(strings_view(images@)),
{
    let ghost imgs = strings_view(images@);
    let mut hay: Vec<char> = Vec::new();
    let mut starts: Vec<usize> = Vec::new();
    let mut i: usize = 0;
    while i < images.len()
        invariant
            i <= images.len(),
            imgs == strings_view(images@),
            hay@ == imgs.take(i as int).flatten(),
            ints(starts@) == image_starts(imgs.take(i as int)),
        decreases images.len() - i,
    {
        let ghost prev = imgs.take(i as int);
        assert(imgs.take(i as int + 1) =~= prev.push(images@[i as int]@));
        assert(imgs.take(i as int + 1).drop_last() =~= prev);
        starts.push(hay.len());
        assert(ints(starts@) =~= image_starts(imgs.take(i as int + 1)));
        let cs = chars_of(images[i].as_str());
        let ghost base = hay@;
        let mut j: usize = 0;
        while j < cs.len()
            invariant
                j <= cs.len(),
                hay@ == base + cs@.take(j as int),
            decreases cs.len() - j,
        {
            hay.push(cs[j]);
            assert(hay@ =~= base + cs@.take(j as int + 1));
            j = j + 1;
        }
        proof {
            assert(cs@.take(j as int) =~= cs@);
            prev.lemma_flatten_push(images@[i as int]@);
        }
        i = i + 1;
    }
    assert(imgs.take(i as int) =~= imgs);
    (hay, starts)
}

/// Splits `line` into segments, where character `i` of `line` is searched as
/// `images[i]`: every occurrence of `needle` in the images, found left to
/// right without overlap, marks the whole characters whose images it
/// touches.
pub fn annotate_images(line: &str, images: &Vec<String>, needle: &str) -> (r: Vec<Segment>)
    requires
        needle@.len() > 0,
    ensures
        segs_view(r@) == image_segments(line@, strings_view(images@), needle@),
{
    let pat = chars_of(needle);
    let (hay, starts) = image_layout(images);
    mark(line, &hay, &starts, &pat)
}

} // verus!
