//! Match records: the annotated lines that a search yields.
use vstd::prelude::*;
use crate::segment::{
    annotate, annotate_images, image_layout, image_segments, images_text, plain_segments,
    segs_view, Segment,
};
use crate::text::{chars_of, find_from, find_from_exec};
use vstd::string::StringExecFns;

verus! {

/// One matched line: where it came from, its 1-based number in its source,
/// and its segments.
pub struct MatchRecord {
    pub origin: String,
    pub index: usize,
    pub segments: Vec<Segment>,
}

/// The abstract value of a `MatchRecord`.
pub ghost struct RecordView {
    pub origin: Seq<char>,
    pub index: int,
    pub segments: Seq<(Seq<char>, bool)>,
}

impl View for MatchRecord {
    type V = RecordView;

    open spec fn view(&self) -> RecordView {
        RecordView { origin: self.origin@, index: self.index as int, segments: segs_view(self.segments@) }
    }
}

/// The abstract value of a sequence of records.
pub open spec fn records_view(rs: Seq<MatchRecord>) -> Seq<RecordView> {
    rs.map_values(|r: MatchRecord| r@)
}

/// The abstract value of a sequence of strings.
pub open spec fn strings_view(v: Seq<String>) -> Seq<Seq<char>> {
    v.map_values(|s: String| s@)
}

/// The record of a line with the given segments.
pub open spec fn record_of(
    origin: Seq<char>,
    index: int,
    segments: Seq<(Seq<char>, bool)>,
) -> RecordView {
    RecordView { origin, index, segments }
}

/// The records of a line in literal mode, searched as it stands: one record
/// when `needle` occurs in it, none otherwise.
pub open spec fn literal_records(
    origin: Seq<char>,
    index: int,
    line: Seq<char>,
    needle: Seq<char>,
) -> Seq<RecordView> {
    if needle.len() > 0 && find_from(line, needle, 0) is Some {
        seq![record_of(origin, index, plain_segments(line, needle))]
    } else {
        seq![]
    }
}

/// The records of a line in literal mode, where character `i` of the line
/// is searched as `images[i]`: one record when `needle` occurs in the
/// images, none otherwise.
pub open spec fn folded_records(
    origin: Seq<char>,
    index: int,
    line: Seq<char>,
    images: Seq<Seq<char>>,
    needle: Seq<char>,
) -> Seq<RecordView> {
    if needle.len() > 0 && find_from(images_text(images), needle, 0) is Some {
        seq![record_of(origin, index, image_segments(line, images, needle))]
    } else {
        seq![]
    }
}

/// The distinct non-empty texts of `found`, in the order first met.
pub open spec fn distinct_texts(found: Seq<Seq<char>>) -> Seq<Seq<char>>
    decreases found.len(),
{
    if found.len() == 0 {
        seq![]
    } else {
        let before = distinct_texts(found.drop_last());
        let t = found.last();
        if t.len() == 0 || before.contains(t) {
            before
        } else {
            before.push(t)
        }
    }
}

/// The records of a line in regex mode, given the texts that the regular
/// expression matched: one per distinct non-empty text, with every
/// occurrence of that text in the line marked.
pub open spec fn regex_records(
    origin: Seq<char>,
    index: int,
    line: Seq<char>,
    found: Seq<Seq<char>>,
) -> Seq<RecordView> {
    distinct_texts(found).map_values(|t: Seq<char>| record_of(origin, index, plain_segments(line, t)))
}

/// The texts that `distinct_texts` keeps are non-empty and pairwise different.
pub proof fn lemma_distinct_texts(found: Seq<Seq<char>>)
    ensures
        forall|i: int|
            0 <= i < distinct_texts(found).len() ==> #[trigger] distinct_texts(found)[i].len()
                > 0,
        forall|i: int, j: int|
            0 <= i < j < distinct_texts(found).len() ==> #[trigger] distinct_texts(found)[i]
                != #[trigger] distinct_texts(found)[j],
        forall|t: Seq<char>| #[trigger]
            distinct_texts(found).contains(t) <==> t.len() > 0 && found.contains(t),
    decreases found.len(),
{
    if found.len() > 0 {
        let rest = found.drop_last();
        lemma_distinct_texts(rest);
        assert(found =~= rest.push(found.last()));
        assert forall|t: Seq<char>| #[trigger] found.contains(t) <==> rest.contains(t) || t
            == found.last() by {
            if found.contains(t) {
                let k = choose|k: int| 0 <= k < found.len() && found[k] == t;
                if k < rest.len() {
                    assert(rest[k] == t);
                }
            }
            if rest.contains(t) {
                let k = choose|k: int| 0 <= k < rest.len() && rest[k] == t;
                assert(found[k] == t);
            }
            if t == found.last() {
                assert(found[found.len() - 1] == t);
            }
        }
        let before = distinct_texts(rest);
        let t = found.last();
        if !(t.len() == 0 || before.contains(t)) {
            let after = before.push(t);
            assert forall|u: Seq<char>| #[trigger] after.contains(u) <==> before.contains(u) || u
                == t by {
                if after.contains(u) {
                    let k = choose|k: int| 0 <= k < after.len() && after[k] == u;
                    if k < before.len() {
                        assert(before[k] == u);
                    }
                }
                if before.contains(u) {
                    let k = choose|k: int| 0 <= k < before.len() && before[k] == u;
                    assert(after[k] == u);
                }
                if u == t {
                    assert(after[after.len() - 1] == u);
                }
            }
        }
    }
}

/// The texts of the matched segments of `segs`, in order.
pub open spec fn matched_texts(segs: Seq<(Seq<char>, bool)>) -> Seq<Seq<char>>
    decreases segs.len(),
{
    if segs.len() == 0 {
        seq![]
    } else if segs.last().1 {
        matched_texts(segs.drop_last()).push(segs.last().0)
    } else {
        matched_texts(segs.drop_last())
    }
}

/// The texts of the matched segments of `segs`, in order.
pub fn matched_segment_texts(segs: &Vec<Segment>) -> (r: Vec<String>)
    ensures
        strings_view(r@) == matched_texts(segs_view(segs@)),
{
    let mut out: Vec<String> = Vec::new();
    let mut i: usize = 0;
    while i < segs.len()
        invariant
            i <= segs.len(),
            strings_view(out@) == matched_texts(segs_view(segs@).take(i as int)),
        decreases segs.len() - i,
    {
        let ghost before = strings_view(out@);
        assert(segs_view(segs@).take(i as int + 1).drop_last() =~= segs_view(segs@).take(
            i as int,
        ));
        if segs[i].matched {
            out.push(segs[i].text.clone());
            assert(strings_view(out@) =~= before.push(segs@[i as int].text@));
        }
        i = i + 1;
    }
    assert(segs_view(segs@).take(segs.len() as int) =~= segs_view(segs@));
    out
}

/// The distinct non-empty texts of `found`, in the order first met.
pub fn distinct_matches(found: &Vec<String>) -> (r: Vec<String>)
    ensures
        strings_view(r@) == distinct_texts(strings_view(found@)),
{
    let mut out: Vec<String> = Vec::new();
    let mut i: usize = 0;
    while i < found.len()
        invariant
            i <= found.len(),
            strings_view(out@) == distinct_texts(strings_view(found@).take(i as int)),
        decreases found.len() - i,
    {
        let t = &found[i];
        let ghost prev = strings_view(found@).take(i as int);
        assert(strings_view(found@).take(i as int + 1).drop_last() =~= prev);
        let mut seen = t.as_str().is_empty();
        let mut j: usize = 0;
        while j < out.len() && !seen
            invariant
                j <= out.len(),
                seen <==> (t@.len() == 0 || exists|k: int| 0 <= k < j && out@[k]@ == t@),
            decreases out.len() - j,
        {
            if out[j] == *t {
                seen = true;
            }
            j = j + 1;
        }
        proof {
            let v = strings_view(out@);
            if v.contains(t@) {
                let k = choose|k: int| 0 <= k < v.len() && v[k] == t@;
                assert(out@[k]@ == t@);
            }
            if exists|k: int| 0 <= k < j && out@[k]@ == t@ {
                let k = choose|k: int| 0 <= k < j && out@[k]@ == t@;
                assert(v[k] == t@);
            }
        }
        if !seen {
            let ghost before = strings_view(out@);
            out.push(t.clone());
            assert(strings_view(out@) =~= before.push(t@));
        }
        i = i + 1;
    }
    assert(strings_view(found@).take(found.len() as int) =~= strings_view(found@));
    out
}

/// The records of a line in literal mode, searched as it stands.
pub fn literal_line_records(origin: &str, index: usize, line: &str, needle: &str) -> (r: Vec<
    MatchRecord,
>)
    ensures
        records_view(r@) == literal_records(origin@, index as int, line@, needle@),
{
    let mut out: Vec<MatchRecord> = Vec::new();
    if needle.is_empty() {
        assert(records_view(out@) =~= literal_records(origin@, index as int, line@, needle@));
        return out;
    }
    let hay = chars_of(line);
    let pat = chars_of(needle);
    match find_from_exec(&hay, &pat, 0) {
        None => {
            assert(records_view(out@) =~= literal_records(origin@, index as int, line@, needle@));
        },
        Some(_) => {
            let segments = annotate(line, needle);
            out.push(MatchRecord { origin: String::from_str(origin), index, segments });
            assert(records_view(out@) =~= literal_records(origin@, index as int, line@, needle@));
        },
    }
    out
}

/// The records of a line in literal mode, given the image that each of its
/// characters is searched as.
pub fn folded_line_records(
    origin: &str,
    index: usize,
    line: &str,
    images: &Vec<String>,
    needle: &str,
) -> (r: Vec<MatchRecord>)
    ensures
        records_view(r@) == folded_records(
            origin@,
            index as int,
            line@,
            strings_view(images@),
            needle@,
        ),
{
    let ghost want = folded_records(origin@, index as int, line@, strings_view(images@), needle@);
    let mut out: Vec<MatchRecord> = Vec::new();
    if needle.is_empty() {
        assert(records_view(out@) =~= want);
        return out;
    }
    let (hay, _) = image_layout(images);
    let pat = chars_of(needle);
    match find_from_exec(&hay, &pat, 0) {
        None => {
            assert(records_view(out@) =~= want);
        },
        Some(_) => {
            let segments = annotate_images(line, images, needle);
            out.push(MatchRecord { origin: String::from_str(origin), index, segments });
            assert(records_view(out@) =~= want);
        },
    }
    out
}

/// The records of a line in regex mode, given the texts that the regular
/// expression matched in it.
pub fn regex_line_records(origin: &str, index: usize, line: &str, found: &Vec<String>) -> (r: Vec<
    MatchRecord,
>)
    ensures
        records_view(r@) == regex_records(origin@, index as int, line@, strings_view(found@)),
{
    let texts = distinct_matches(found);
    proof {
        lemma_distinct_texts(strings_view(found@));
    }
    let ghost want = regex_records(origin@, index as int, line@, strings_view(found@));
    assert forall|i: int| 0 <= i < texts.len() implies #[trigger] texts@[i]@.len() > 0 by {
        assert(strings_view(texts@)[i] == texts@[i]@);
    }
    let mut out: Vec<MatchRecord> = Vec::new();
    let mut j: usize = 0;
    while j < texts.len()
        invariant
            j <= texts.len(),
            strings_view(texts@) == distinct_texts(strings_view(found@)),
            want == regex_records(origin@, index as int, line@, strings_view(found@)),
            want.len() == texts.len(),
            forall|i: int| 0 <= i < texts.len() ==> #[trigger] texts@[i]@.len() > 0,
            records_view(out@) == want.take(j as int),
            out.len() == j,
        decreases texts.len() - j,
    {
        assert(strings_view(texts@)[j as int] == texts@[j as int]@);
        let segments = annotate(line, texts[j].as_str());
        let ghost before = records_view(out@);
        out.push(MatchRecord { origin: String::from_str(origin), index, segments });
        assert(want[j as int] == record_of(origin@, index as int, plain_segments(line@, texts@[j as int]@)));
        assert(out@[j as int]@ == want[j as int]);
        assert(records_view(out@) =~= before.push(out@[j as int]@));
        assert(records_view(out@) =~= want.take(j as int + 1));
        j = j + 1;
    }
    assert(want.take(j as int) =~= want);
    out
}

} // verus!
