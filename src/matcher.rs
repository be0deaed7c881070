//! The two matching strategies, literal and regular expression, and the
//! case folding that the literal one rests on.
use vstd::prelude::*;
use crate::record::{
    distinct_matches, distinct_texts, folded_line_records, folded_records, literal_line_records,
    literal_records, matched_segment_texts, matched_texts, records_view, regex_line_records,
    regex_records, strings_view, MatchRecord, RecordView,
};
use crate::regex_engine::{compile_regex, regex_accepts, regex_found, regex_matches, CompiledRegex};
use crate::segment::{annotate, annotate_images, image_segments, images_text, plain_segments};
use crate::text::chars_of;
use vstd::string::StringExecFns;

verus! {

/// What `char::to_lowercase` makes of a character.
pub uninterp spec fn lower_char_of(c: char) -> Seq<char>;

/// Relies on `char::to_lowercase`: the result depends on the character
/// alone and, as documented, holds one or more characters.
#[verifier::external_body]
fn lower_char(c: char) -> (r: String)
    ensures
        r@ == lower_char_of(c),
        r@.len() > 0,
{
    c.to_lowercase().collect()
}

/// The lower-case image of each character of `s`.
pub open spec fn lower_images(s: Seq<char>) -> Seq<Seq<char>> {
    s.map_values(|c: char| lower_char_of(c))
}

/// `s` lower-cased, one character at a time.
pub open spec fn lower_text(s: Seq<char>) -> Seq<char> {
    images_text(lower_images(s))
}

/// The lower-case image of each character of `s`.
pub fn lower_images_of(s: &str) -> (r: Vec<String>)
    ensures
        strings_view(r@) == lower_images(s@),
{
    let cs = chars_of(s);
    let mut out: Vec<String> = Vec::new();
    let mut i: usize = 0;
    while i < cs.len()
        invariant
            i <= cs.len(),
            cs@ == s@,
            strings_view(out@) == lower_images(s@.take(i as int)),
        decreases cs.len() - i,
    {
        let ghost before = strings_view(out@);
        let img = lower_char(cs[i]);
        out.push(img);
        assert(strings_view(out@) =~= before.push(lower_char_of(s@[i as int])));
        assert(s@.take(i as int + 1) =~= s@.take(i as int).push(s@[i as int]));
        assert(lower_images(s@.take(i as int + 1)) =~= lower_images(s@.take(i as int)).push(
            lower_char_of(s@[i as int]),
        ));
        i = i + 1;
    }
    assert(s@.take(i as int) =~= s@);
    out
}

/// `s` lower-cased, one character at a time.
pub fn lower_text_of(s: &str) -> (r: String)
    ensures
        r@ == lower_text(s@),
{
    let cs = chars_of(s);
    let mut out = String::new();
    let mut i: usize = 0;
    while i < cs.len()
        invariant
            i <= cs.len(),
            cs@ == s@,
            out@ == lower_text(s@.take(i as int)),
        decreases cs.len() - i,
    {
        let img = lower_char(cs[i]);
        proof {
            assert(lower_images(s@.take(i as int + 1)) =~= lower_images(s@.take(i as int)).push(
                img@,
            ));
            lower_images(s@.take(i as int)).lemma_flatten_push(img@);
        }
        out.append(img.as_str());
        i = i + 1;
    }
    assert(s@.take(i as int) =~= s@);
    out
}

/// How a line is matched, chosen once per run.
pub enum LineMatcher {
    /// Substring search for `needle`, in the lower-cased line when `fold` holds.
    Literal { needle: String, fold: bool },
    /// A compiled regular expression.
    Regex { re: CompiledRegex },
}

impl LineMatcher {
    /// The literal strategy for `pattern`, folded to lower case when
    /// `ignore_case` holds.
    pub fn literal(pattern: &str, ignore_case: bool) -> (r: LineMatcher)
        ensures
            r matches LineMatcher::Literal { needle, fold } && fold == ignore_case && needle@ == (
            if ignore_case {
                lower_text(pattern@)
            } else {
                pattern@
            }),
    {
        if ignore_case {
            LineMatcher::Literal { needle: lower_text_of(pattern), fold: true }
        } else {
            LineMatcher::Literal { needle: String::from_str(pattern), fold: false }
        }
    }

    /// The regular-expression strategy for `pattern`, or the compiler's
    /// message when the pattern is refused.
    pub fn regex(pattern: &str, ignore_case: bool) -> (r: Result<LineMatcher, String>)
        ensures
            r is Ok <==> regex_accepts(pattern@, ignore_case),
            r matches Ok(m) ==> (m matches LineMatcher::Regex { re } && re.source() == pattern@
                && re.folds_case() == ignore_case),
    {
        match compile_regex(pattern, ignore_case) {
            Ok(re) => Ok(LineMatcher::Regex { re }),
            Err(e) => Err(e),
        }
    }

    /// What `search_line` yields for `line`.
    pub open spec fn yields(
        &self,
        origin: Seq<char>,
        index: int,
        line: Seq<char>,
        recs: Seq<RecordView>,
    ) -> bool {
        match self {
            LineMatcher::Literal { needle, fold } => recs == if *fold {
                folded_records(origin, index, line, lower_images(line), needle@)
            } else {
                literal_records(origin, index, line, needle@)
            },
            LineMatcher::Regex { re } => recs == regex_records(
                origin,
                index,
                line,
                regex_matches(re.source(), re.folds_case(), line),
            ),
        }
    }

    /// What `find_matches` returns for `line`.
    pub open spec fn finds(&self, line: Seq<char>, texts: Seq<Seq<char>>) -> bool {
        match self {
            LineMatcher::Literal { needle, fold } => texts == distinct_texts(
                matched_texts(
                    if *fold {
                        image_segments(line, lower_images(line), needle@)
                    } else {
                        plain_segments(line, needle@)
                    },
                ),
            ),
            LineMatcher::Regex { re } => texts == distinct_texts(
                regex_matches(re.source(), re.folds_case(), line),
            ),
        }
    }

    /// The distinct matched substrings of `line`, in the order first met. A
    /// literal match is cut from `line` itself, so it keeps the line's case.
    pub fn find_matches(&self, line: &str) -> (r: Vec<String>)
        ensures
            self.finds(line@, strings_view(r@)),
    {
        match self {
            LineMatcher::Literal { needle, fold } => {
                if needle.as_str().is_empty() {
                    let r: Vec<String> = Vec::new();
                    assert(strings_view(r@) =~= seq![]);
                    assert(image_segments(line@, lower_images(line@), needle@) =~= seq![]);
                    assert(plain_segments(line@, needle@) =~= seq![]);
                    return r;
                }
                let segs = if *fold {
                    let images = lower_images_of(line);
                    annotate_images(line, &images, needle.as_str())
                } else {
                    annotate(line, needle.as_str())
                };
                let texts = matched_segment_texts(&segs);
                distinct_matches(&texts)
            },
            LineMatcher::Regex { re } => {
                let found = regex_found(re, line);
                distinct_matches(&found)
            },
        }
    }

    /// The records of one line: in literal mode one record when the needle
    /// occurs, in regex mode one per distinct text matched.
    pub fn search_line(&self, origin: &str, index: usize, line: &str) -> (r: Vec<MatchRecord>)
        ensures
            self.yields(origin@, index as int, line@, records_view(r@)),
    {
        match self {
            LineMatcher::Literal { needle, fold } => {
                if *fold {
                    let images = lower_images_of(line);
                    folded_line_records(origin, index, line, &images, needle.as_str())
                } else {
                    literal_line_records(origin, index, line, needle.as_str())
                }
            },
            LineMatcher::Regex { re } => {
                let found = regex_found(re, line);
                regex_line_records(origin, index, line, &found)
            },
        }
    }
}

} // verus!
