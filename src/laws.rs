//! Properties that hold of every search: each record rebuilds its line,
//! its segments are well formed and do not overlap, and records come
//! source after source.
use vstd::prelude::*;
use crate::grep::{flat_records, grouped_by, source_grouped, Grep, Source};
use crate::matcher::{lower_images, lower_text};
use crate::record::{lemma_distinct_texts, distinct_texts, RecordView};
use crate::regex_engine::regex_matches;
use crate::segment::{
    identity_starts, image_starts, images_text, joined, lemma_plain_matches_are_needle,
    lemma_segment_ranges, lemma_segments_rebuild, lemma_segments_well_formed, offset_of,
    segments_of, well_formed,
};

verus! {

/// The segments of a record cover `line` exactly: their texts join to it,
/// they are well formed, and each is the piece of `line` at its offset,
/// ending before or where the next one starts.
pub open spec fn covers(segs: Seq<(Seq<char>, bool)>, line: Seq<char>) -> bool {
    &&& joined(segs) == line
    &&& well_formed(segs)
    &&& forall|i: int|
        0 <= i < segs.len() ==> line.subrange(
            #[trigger] offset_of(segs, i),
            offset_of(segs, i) + segs[i].0.len(),
        ) == segs[i].0
    &&& forall|i: int, j: int|
        0 <= i < j < segs.len() ==> #[trigger] offset_of(segs, i) + segs[i].0.len()
            <= #[trigger] offset_of(segs, j)
}

proof fn lemma_segments_cover(
    line: Seq<char>,
    search: Seq<char>,
    starts: Seq<int>,
    needle: Seq<char>,
)
    requires
        needle.len() > 0,
    ensures
        covers(segments_of(line, search, starts, needle), line),
{
    let segs = segments_of(line, search, starts, needle);
    lemma_segments_rebuild(line, search, starts, needle, 0, 0);
    assert(line.subrange(0, line.len() as int) =~= line);
    lemma_segments_well_formed(line, search, starts, needle, 0, 0);
    lemma_segment_ranges(segs, line);
}

/// The text that the matched segments of record `k` of a line carry, when
/// the line is searched as it stands.
pub open spec fn record_text(g: &Grep, line: Seq<char>, k: int) -> Seq<char> {
    if g.is_expression {
        distinct_texts(regex_matches(g.pattern@, g.ignore_case, line))[k]
    } else {
        g.pattern@
    }
}

/// Every record of a line covers it and carries the line's origin and
/// number; when the line is searched as it stands, its matched segments all
/// carry the record's text.
proof fn lemma_line_records(
    g: &Grep,
    origin: Seq<char>,
    index: int,
    line: Seq<char>,
    recs: Seq<RecordView>,
)
    requires
        g.line_outcome(origin, index, line, recs),
    ensures
        forall|k: int|
            0 <= k < recs.len() ==> covers(#[trigger] recs[k].segments, line) && recs[k].origin
                == origin && recs[k].index == index,
        g.is_expression || !g.ignore_case ==> forall|k: int, i: int|
            0 <= k < recs.len() && 0 <= i < recs[k].segments.len() && (
            #[trigger] recs[k].segments[i]).1 ==> recs[k].segments[i].0 == record_text(g, line, k),
{
    let n = line.len() as int;
    if g.is_expression {
        let found = regex_matches(g.pattern@, g.ignore_case, line);
        lemma_distinct_texts(found);
        assert forall|k: int| 0 <= k < recs.len() implies covers(#[trigger] recs[k].segments, line)
            && recs[k].origin == origin && recs[k].index == index by {
            lemma_segments_cover(line, line, identity_starts(n), distinct_texts(found)[k]);
        }
        assert forall|k: int, i: int|
            0 <= k < recs.len() && 0 <= i < recs[k].segments.len() && (
            #[trigger] recs[k].segments[i]).1 implies recs[k].segments[i].0 == record_text(
            g,
            line,
            k,
        ) by {
            lemma_plain_matches_are_needle(line, distinct_texts(found)[k], 0);
        }
    } else if g.ignore_case {
        assert forall|k: int| 0 <= k < recs.len() implies covers(#[trigger] recs[k].segments, line)
            && recs[k].origin == origin && recs[k].index == index by {
            let imgs = lower_images(line);
            lemma_segments_cover(line, images_text(imgs), image_starts(imgs), lower_text(g.pattern@));
        }
    } else {
        assert forall|k: int| 0 <= k < recs.len() implies covers(#[trigger] recs[k].segments, line)
            && recs[k].origin == origin && recs[k].index == index by {
            lemma_segments_cover(line, line, identity_starts(n), g.pattern@);
        }
        assert forall|k: int, i: int|
            0 <= k < recs.len() && 0 <= i < recs[k].segments.len() && (
            #[trigger] recs[k].segments[i]).1 implies recs[k].segments[i].0 == record_text(
            g,
            line,
            k,
        ) by {
            lemma_plain_matches_are_needle(line, g.pattern@, 0);
        }
    }
}

/// When a line is searched as it stands (a regular expression, or a literal
/// without case folding), all matched segments of a record carry one text:
/// the pattern itself for a literal, and for a regular expression a text
/// that it matched in the line. With the offsets of the segments, the line
/// holds that text at the offset of each matched segment.
pub proof fn law_matched_segments_carry_match(
    g: &Grep,
    origin: Seq<char>,
    index: int,
    line: Seq<char>,
    recs: Seq<RecordView>,
)
    requires
        g.line_outcome(origin, index, line, recs),
        g.is_expression || !g.ignore_case,
    ensures
        forall|k: int, i: int|
            0 <= k < recs.len() && 0 <= i < recs[k].segments.len() && (
            #[trigger] recs[k].segments[i]).1 ==> recs[k].segments[i].0 == record_text(g, line, k)
                && line.subrange(
                offset_of(recs[k].segments, i),
                offset_of(recs[k].segments, i) + recs[k].segments[i].0.len(),
            ) == record_text(g, line, k),
        g.is_expression ==> forall|k: int|
            0 <= k < recs.len() ==> regex_matches(g.pattern@, g.ignore_case, line).contains(
                #[trigger] record_text(g, line, k),
            ),
{
    lemma_line_records(g, origin, index, line, recs);
    assert forall|k: int, i: int|
        0 <= k < recs.len() && 0 <= i < recs[k].segments.len() && (
        #[trigger] recs[k].segments[i]).1 implies recs[k].segments[i].0 == record_text(g, line, k)
        && line.subrange(
        offset_of(recs[k].segments, i),
        offset_of(recs[k].segments, i) + recs[k].segments[i].0.len(),
    ) == record_text(g, line, k) by {
        assert(covers(recs[k].segments, line));
    }
    if g.is_expression {
        let found = regex_matches(g.pattern@, g.ignore_case, line);
        lemma_distinct_texts(found);
        assert forall|k: int| 0 <= k < recs.len() implies found.contains(
            #[trigger] record_text(g, line, k),
        ) by {
            assert(distinct_texts(found).contains(distinct_texts(found)[k]));
        }
    }
}

/// For every record of a line, the texts of its segments, joined in order,
/// are the line itself.
pub proof fn law_record_rebuilds_line(
    g: &Grep,
    origin: Seq<char>,
    index: int,
    line: Seq<char>,
    recs: Seq<RecordView>,
)
    requires
        g.line_outcome(origin, index, line, recs),
    ensures
        forall|k: int| 0 <= k < recs.len() ==> joined(#[trigger] recs[k].segments) == line,
{
    lemma_line_records(g, origin, index, line, recs);
}

/// In every record no two neighbouring segments are both plain, and no
/// segment is empty.
pub proof fn law_record_well_formed(
    g: &Grep,
    origin: Seq<char>,
    index: int,
    line: Seq<char>,
    recs: Seq<RecordView>,
)
    requires
        g.line_outcome(origin, index, line, recs),
    ensures
        forall|k: int| 0 <= k < recs.len() ==> well_formed(#[trigger] recs[k].segments),
{
    lemma_line_records(g, origin, index, line, recs);
}

/// In every record each segment is the piece of the line at its offset, and
/// segments never overlap: each ends before or where any later one starts.
pub proof fn law_segments_disjoint(
    g: &Grep,
    origin: Seq<char>,
    index: int,
    line: Seq<char>,
    recs: Seq<RecordView>,
)
    requires
        g.line_outcome(origin, index, line, recs),
    ensures
        forall|k: int, i: int|
            0 <= k < recs.len() && 0 <= i < recs[k].segments.len() ==> line.subrange(
                #[trigger] offset_of(recs[k].segments, i),
                offset_of(recs[k].segments, i) + recs[k].segments[i].0.len(),
            ) == recs[k].segments[i].0,
        forall|k: int, i: int, j: int|
            0 <= k < recs.len() && 0 <= i < j < recs[k].segments.len() ==> #[trigger] offset_of(
                recs[k].segments,
                i,
            ) + recs[k].segments[i].0.len() <= #[trigger] offset_of(recs[k].segments, j),
{
    lemma_line_records(g, origin, index, line, recs);
    assert forall|k: int, i: int|
        0 <= k < recs.len() && 0 <= i < recs[k].segments.len() implies line.subrange(
        #[trigger] offset_of(recs[k].segments, i),
        offset_of(recs[k].segments, i) + recs[k].segments[i].0.len(),
    ) == recs[k].segments[i].0 by {
        assert(covers(recs[k].segments, line));
    }
    assert forall|k: int, i: int, j: int|
        0 <= k < recs.len() && 0 <= i < j < recs[k].segments.len() implies #[trigger] offset_of(
        recs[k].segments,
        i,
    ) + recs[k].segments[i].0.len() <= #[trigger] offset_of(recs[k].segments, j) by {
        assert(covers(recs[k].segments, line));
    }
}

/// Where block `a` of `x` starts in `x.flatten()`.
pub open spec fn block_start<A>(x: Seq<Seq<A>>, a: int) -> int {
    x.take(a).flatten().len() as int
}

/// Each block of `x` stands whole in `x.flatten()`, in order.
pub proof fn lemma_flatten_blocks<A>(x: Seq<Seq<A>>)
    ensures
        forall|a: int|
            0 <= a < x.len() ==> x.flatten().subrange(
                #[trigger] block_start(x, a),
                block_start(x, a) + x[a].len(),
            ) == x[a],
        forall|a: int, b: int|
            0 <= a < b < x.len() ==> #[trigger] block_start(x, a) + x[a].len()
                <= #[trigger] block_start(x, b),
{
    assert forall|a: int| 0 <= a < x.len() implies x.flatten().subrange(
        #[trigger] block_start(x, a),
        block_start(x, a) + x[a].len(),
    ) == x[a] by {
        let pre = x.take(a);
        let mid = seq![x[a]];
        let post = x.skip(a + 1);
        assert(x =~= pre + mid + post);
        vstd::seq_lib::lemma_flatten_concat(pre + mid, post);
        vstd::seq_lib::lemma_flatten_concat(pre, mid);
        mid.lemma_flatten_singleton();
        assert(x.flatten().subrange(block_start(x, a), block_start(x, a) + x[a].len()) =~= x[a]);
    }
    assert forall|a: int, b: int| 0 <= a < b < x.len() implies #[trigger] block_start(x, a)
        + x[a].len() <= #[trigger] block_start(x, b) by {
        let pre = x.take(a + 1);
        let mid = x.subrange(a + 1, b);
        assert(x.take(b) =~= pre + mid);
        vstd::seq_lib::lemma_flatten_concat(pre, mid);
        assert(pre =~= x.take(a) + seq![x[a]]);
        vstd::seq_lib::lemma_flatten_concat(x.take(a), seq![x[a]]);
        seq![x[a]].lemma_flatten_singleton();
    }
}

/// The records of a run come source after source: those of each source
/// stand together, in the order of the sources, and within a source the
/// records of each line stand together, in line order. Every record carries
/// its source's origin and its line's number.
pub proof fn law_sources_in_order(
    g: &Grep,
    sources: Seq<Source>,
    per_line: Seq<Seq<Seq<RecordView>>>,
)
    requires
        grouped_by(
            |o: Seq<char>, i: int, l: Seq<char>, rs: Seq<RecordView>| g.line_outcome(o, i, l, rs),
            sources,
            per_line,
        ),
    ensures
        ({
            let blocks = per_line.map_values(|p: Seq<Seq<RecordView>>| p.flatten());
            &&& flat_records(per_line) == blocks.flatten()
            &&& forall|a: int|
                0 <= a < blocks.len() ==> flat_records(per_line).subrange(
                    #[trigger] block_start(blocks, a),
                    block_start(blocks, a) + blocks[a].len(),
                ) == blocks[a] && blocks[a] == per_line[a].flatten()
            &&& forall|a: int, b: int|
                0 <= a < b < blocks.len() ==> #[trigger] block_start(blocks, a) + blocks[a].len()
                    <= #[trigger] block_start(blocks, b)
        }),
        forall|s: int, l: int, k: int|
            0 <= s < per_line.len() && 0 <= l < per_line[s].len() && 0 <= k
                < per_line[s][l].len() ==> (#[trigger] per_line[s][l][k]).origin
                == sources[s].origin@ && per_line[s][l][k].index == l + 1,
{
    let blocks = per_line.map_values(|p: Seq<Seq<RecordView>>| p.flatten());
    lemma_flatten_blocks(blocks);
    assert forall|s: int, l: int, k: int|
        0 <= s < per_line.len() && 0 <= l < per_line[s].len() && 0 <= k
            < per_line[s][l].len() implies (#[trigger] per_line[s][l][k]).origin
        == sources[s].origin@ && per_line[s][l][k].index == l + 1 by {
        assert(source_grouped(
            |o: Seq<char>, i: int, l: Seq<char>, rs: Seq<RecordView>| g.line_outcome(o, i, l, rs),
            sources[s],
            per_line[s],
        ));
        lemma_line_records(
            g,
            sources[s].origin@,
            l + 1,
            sources[s].lines@[l]@,
            per_line[s][l],
        );
    }
}

} // verus!
