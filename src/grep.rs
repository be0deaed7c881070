//! A search run: its configuration, its sources and the records it yields.
use vstd::prelude::*;
use crate::matcher::{lower_images, lower_text, LineMatcher};
use crate::record::{folded_records, literal_records, records_view, regex_records, MatchRecord, RecordView};
use crate::regex_engine::{regex_accepts, regex_matches};

verus! {

/// The lines of one input source, with the label that names it.
pub struct Source {
    pub origin: String,
    pub lines: Vec<String>,
}

/// Why a run cannot start.
pub enum GrepError {
    /// The pattern is not a valid regular expression; the message says why.
    InvalidPatternSyntax(String),
}

/// The configuration of a search run.
pub struct Grep {
    /// The names of the input files; none means standard input.
    pub files: Vec<String>,
    pub pattern: String,
    /// Whether the pattern is a regular expression rather than a literal.
    pub is_expression: bool,
    pub ignore_case: bool,
    /// Whether rendered lines carry their line number.
    pub is_line_number: bool,
}

/// `groups` holds, for each line of `src` in order, records that `outcome`
/// allows for that line, numbered from 1.
pub open spec fn source_grouped(
    outcome: spec_fn(Seq<char>, int, Seq<char>, Seq<RecordView>) -> bool,
    src: Source,
    groups: Seq<Seq<RecordView>>,
) -> bool {
    &&& groups.len() == src.lines@.len()
    &&& forall|l: int|
        0 <= l < groups.len() ==> outcome(src.origin@, l + 1, src.lines@[l]@, #[trigger] groups[l])
}

/// `per_line` holds, for each source in order, the records of its lines.
pub open spec fn grouped_by(
    outcome: spec_fn(Seq<char>, int, Seq<char>, Seq<RecordView>) -> bool,
    sources: Seq<Source>,
    per_line: Seq<Seq<Seq<RecordView>>>,
) -> bool {
    &&& per_line.len() == sources.len()
    &&& forall|s: int|
        0 <= s < sources.len() ==> source_grouped(outcome, sources[s], #[trigger] per_line[s])
}

/// The records of all sources, source after source and line after line.
pub open spec fn flat_records(per_line: Seq<Seq<Seq<RecordView>>>) -> Seq<RecordView> {
    per_line.map_values(|g: Seq<Seq<RecordView>>| g.flatten()).flatten()
}

/// `recs` are the records of every line of `sources`, source after source
/// and line after line, each line's records being those `outcome` allows.
pub open spec fn sources_outcome(
    outcome: spec_fn(Seq<char>, int, Seq<char>, Seq<RecordView>) -> bool,
    sources: Seq<Source>,
    recs: Seq<RecordView>,
) -> bool {
    exists|per_line: Seq<Seq<Seq<RecordView>>>|
        #[trigger] grouped_by(outcome, sources, per_line) && recs == flat_records(per_line)
}

impl LineMatcher {
    /// Searches every line of every source, in order, numbering the lines
    /// of each source from 1.
    pub fn search_sources(&self, sources: &Vec<Source>) -> (r: Vec<MatchRecord>)
        ensures
            sources_outcome(
                |o: Seq<char>, i: int, l: Seq<char>, rs: Seq<RecordView>| self.yields(o, i, l, rs),
                sources@,
                records_view(r@),
            ),
    {
        let ghost outcome = |o: Seq<char>, i: int, l: Seq<char>, rs: Seq<RecordView>|
            self.yields(o, i, l, rs);
        let mut out: Vec<MatchRecord> = Vec::new();
        let ghost mut per_line: Seq<Seq<Seq<RecordView>>> = seq![];
        let mut s: usize = 0;
        while s < sources.len()
            invariant
                s <= sources.len(),
                per_line.len() == s,
                outcome == (|o: Seq<char>, i: int, l: Seq<char>, rs: Seq<RecordView>|
                    self.yields(o, i, l, rs)),
                forall|k: int|
                    0 <= k < s ==> source_grouped(outcome, sources@[k], #[trigger] per_line[k]),
                records_view(out@) == flat_records(per_line),
            decreases sources.len() - s,
        {
            let src = &sources[s];
            let ghost mut groups: Seq<Seq<RecordView>> = seq![];
            let ghost done = records_view(out@);
            let mut l: usize = 0;
            while l < src.lines.len()
                invariant
                    l <= src.lines.len(),
                    groups.len() == l,
                    outcome == (|o: Seq<char>, i: int, l: Seq<char>, rs: Seq<RecordView>|
                        self.yields(o, i, l, rs)),
                    forall|k: int|
                        0 <= k < l ==> outcome(
                            src.origin@,
                            k + 1,
                            src.lines@[k]@,
                            #[trigger] groups[k],
                        ),
                    records_view(out@) == done + groups.flatten(),
                decreases src.lines.len() - l,
            {
                let mut recs = self.search_line(src.origin.as_str(), l + 1, src.lines[l].as_str());
                let ghost found = records_view(recs@);
                let ghost before = records_view(out@);
                out.append(&mut recs);
                proof {
                    assert(records_view(out@) =~= before + found);
                    groups.lemma_flatten_push(found);
                    groups = groups.push(found);
                }
                l = l + 1;
            }
            proof {
                assert(source_grouped(outcome, *src, groups));
                per_line.map_values(|g: Seq<Seq<RecordView>>| g.flatten()).lemma_flatten_push(
                    groups.flatten(),
                );
                assert(per_line.push(groups).map_values(|g: Seq<Seq<RecordView>>| g.flatten())
                    =~= per_line.map_values(|g: Seq<Seq<RecordView>>| g.flatten()).push(
                    groups.flatten(),
                ));
                per_line = per_line.push(groups);
            }
            s = s + 1;
        }
        proof {
            assert(grouped_by(outcome, sources@, per_line));
        }
        out
    }
}

impl Grep {
    pub fn new(
        files: Vec<String>,
        pattern: String,
        is_expression: bool,
        ignore_case: bool,
        is_line_number: bool,
    ) -> (r: Grep)
        ensures
            r.files@ == files@,
            r.pattern@ == pattern@,
            r.is_expression == is_expression,
            r.ignore_case == ignore_case,
            r.is_line_number == is_line_number,
    {
        Grep { files, pattern, is_expression, ignore_case, is_line_number }
    }

    /// Whether the pattern can be used: a literal always can, a regular
    /// expression when it compiles.
    pub open spec fn pattern_ok(&self) -> bool {
        !self.is_expression || regex_accepts(self.pattern@, self.ignore_case)
    }

    /// The records that this configuration yields for one line.
    pub open spec fn line_outcome(
        &self,
        origin: Seq<char>,
        index: int,
        line: Seq<char>,
        recs: Seq<RecordView>,
    ) -> bool {
        if self.is_expression {
            recs == regex_records(
                origin,
                index,
                line,
                regex_matches(self.pattern@, self.ignore_case, line),
            )
        } else if self.ignore_case {
            recs == folded_records(origin, index, line, lower_images(line), lower_text(self.pattern@))
        } else {
            recs == literal_records(origin, index, line, self.pattern@)
        }
    }

    /// What a run over `sources` yields.
    pub open spec fn run_outcome(&self, sources: Seq<Source>, recs: Seq<RecordView>) -> bool {
        sources_outcome(
            |o: Seq<char>, i: int, l: Seq<char>, rs: Seq<RecordView>| self.line_outcome(o, i, l, rs),
            sources,
            recs,
        )
    }

    /// Whether rendered lines carry their origin: only when more than one
    /// file is searched.
    pub fn shows_origin(&self) -> (r: bool)
        ensures
            r == (self.files@.len() > 1),
    {
        self.files.len() > 1
    }

    /// `m` matches lines as this configuration asks.
    pub open spec fn served_by(&self, m: &LineMatcher) -> bool {
        match m {
            LineMatcher::Literal { needle, fold } => !self.is_expression && *fold
                == self.ignore_case && needle@ == if self.ignore_case {
                lower_text(self.pattern@)
            } else {
                self.pattern@
            },
            LineMatcher::Regex { re } => self.is_expression && re.source() == self.pattern@
                && re.folds_case() == self.ignore_case,
        }
    }

    /// The matching strategy of this configuration, compiled once; a
    /// regular expression that does not compile is an error.
    pub fn matcher(&self) -> (r: Result<LineMatcher, GrepError>)
        ensures
            r is Ok <==> self.pattern_ok(),
            r matches Ok(m) ==> self.served_by(&m),
    {
        if self.is_expression {
            match LineMatcher::regex(self.pattern.as_str(), self.ignore_case) {
                Ok(m) => Ok(m),
                Err(e) => Err(GrepError::InvalidPatternSyntax(e)),
            }
        } else {
            Ok(LineMatcher::literal(self.pattern.as_str(), self.ignore_case))
        }
    }

    /// Searches every line of every source with `m`. When `m` serves this
    /// configuration, the records are those of the configuration.
    pub fn search_with(&self, m: &LineMatcher, sources: &Vec<Source>) -> (r: Vec<MatchRecord>)
        ensures
            self.served_by(m) ==> self.run_outcome(sources@, records_view(r@)),
    {
        let r = m.search_sources(sources);
        proof {
            if self.served_by(m) {
                let mo = |o: Seq<char>, i: int, l: Seq<char>, rs: Seq<RecordView>|
                    m.yields(o, i, l, rs);
                let go = |o: Seq<char>, i: int, l: Seq<char>, rs: Seq<RecordView>|
                    self.line_outcome(o, i, l, rs);
                let per_line = choose|per_line: Seq<Seq<Seq<RecordView>>>|
                    #[trigger] grouped_by(mo, sources@, per_line) && records_view(r@)
                        == flat_records(per_line);
                assert forall|s: int| 0 <= s < sources@.len() implies source_grouped(
                    go,
                    sources@[s],
                    #[trigger] per_line[s],
                ) by {
                    assert(source_grouped(mo, sources@[s], per_line[s]));
                }
                assert(grouped_by(go, sources@, per_line));
            }
        }
        r
    }

    /// Searches every line of every source, in order. The pattern is checked
    /// before any line is looked at.
    pub fn run(&self, sources: &Vec<Source>) -> (r: Result<Vec<MatchRecord>, GrepError>)
        ensures
            r is Ok <==> self.pattern_ok(),
            r matches Ok(recs) ==> self.run_outcome(sources@, records_view(recs@)),
    {
        match self.matcher() {
            Ok(m) => Ok(self.search_with(&m, sources)),
            Err(e) => Err(e),
        }
    }
}

} // verus!
