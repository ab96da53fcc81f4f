//! Persistence: a proof serializes to an ordered sequence of line records
//! (the nesting tree flattened, each record carrying its depth), and is
//! reconstructed from such a document into a fresh pool.  A document with
//! malformed nesting is rejected whole; no partially built proof escapes.

use vstd::prelude::*;
use crate::expr::SpecExpr;
use crate::expr::wf_expr;
use crate::expr::spec_render;
use crate::lined::Line;
use crate::lined::LinedProof;
use crate::lined::Citation;
use crate::lined::levels_ok;
use crate::lined::level_step_ok;
use crate::lined::line_expr_text;
use crate::lined::copy_cites;
use crate::rules::Rule;

verus! {

/// One persisted line: role, depth, rendered text, rule tag and citations.
#[derive(Debug)]
pub struct LineRecord {
    pub is_assumption: bool,
    pub level: usize,
    pub text: String,
    pub rule: Rule,
    pub cites: Vec<Citation>,
}

/// The persisted form of a proof.
#[derive(Debug)]
pub struct Document {
    pub records: Vec<LineRecord>,
}

/// The persisted document is structurally invalid at this record.
#[derive(Debug)]
pub struct FormatError {
    pub at: usize,
}

/// The nesting discipline, stated on records.
pub open spec fn record_step_ok(records: Seq<LineRecord>, i: int) -> bool {
    if i == 0 {
        records[0].level == 0
    } else {
        records[i].level <= records[i - 1].level + 1 && (records[i].level == records[i - 1].level
            + 1 ==> records[i].is_assumption)
    }
}

/// Every record obeys the nesting discipline.
pub open spec fn records_ok(records: Seq<LineRecord>) -> bool {
    forall|i: int| 0 <= i < records.len() ==> #[trigger] record_step_ok(records, i)
}

/// What `to_document` emits: one record per line, fields copied, the text
/// being the line's displayed expression (canonical when parsed, raw
/// otherwise).
pub open spec fn document_of(pf: LinedProof, d: Document) -> bool {
    &&& d.records@.len() == pf.lines@.len()
    &&& forall|i: int|
        #![trigger d.records@[i]]
        0 <= i < pf.lines@.len() ==> {
            &&& d.records@[i].is_assumption == pf.lines@[i].is_assumption
            &&& d.records@[i].level == pf.lines@[i].level
            &&& d.records@[i].rule == pf.lines@[i].rule
            &&& d.records@[i].cites@ == pf.lines@[i].cites@
            &&& d.records@[i].text@ == line_expr_text(pf.lines@[i], pf.pool@)
        }
}

/// What `from_document` builds: one line per record, fields copied, each
/// text re-interned into the fresh pool, the cursor at the end.
pub open spec fn loaded_from(pf: LinedProof, d: Document) -> bool {
    &&& pf.lines@.len() == d.records@.len()
    &&& forall|i: int|
        #![trigger pf.lines@[i]]
        0 <= i < pf.lines@.len() ==> {
            &&& pf.lines@[i].is_assumption == d.records@[i].is_assumption
            &&& pf.lines@[i].level == d.records@[i].level
            &&& pf.lines@[i].rule == d.records@[i].rule
            &&& pf.lines@[i].cites@ == d.records@[i].cites@
            &&& pf.lines@[i].text@ == d.records@[i].text@
            &&& (pf.lines@[i].expr is None ==> forall|e2: SpecExpr|
                wf_expr(e2) ==> spec_render(e2) != d.records@[i].text@)
        }
    &&& pf.cursor == d.records@.len()
}

impl LinedProof {
    /// Serializes the proof: walks the lines in order and emits one record
    /// each, with the expression as rendered canonical text (raw text where
    /// it does not parse), so handles never leave the pool.
    #[verifier::loop_isolation(false)]
    pub fn to_document(&self) -> (d: Document)
        requires
            self.wf(),
        ensures
            document_of(*self, d),
            records_ok(d.records@),
    {
        let mut records: Vec<LineRecord> = Vec::new();
        let mut i: usize = 0;
        while i < self.lines.len()
            invariant
                i <= self.lines@.len(),
                records@.len() == i,
                forall|k: int|
                    #![trigger records@[k]]
                    0 <= k < i ==> {
                        &&& records@[k].is_assumption == self.lines@[k].is_assumption
                        &&& records@[k].level == self.lines@[k].level
                        &&& records@[k].rule == self.lines@[k].rule
                        &&& records@[k].cites@ == self.lines@[k].cites@
                        &&& records@[k].text@ == line_expr_text(self.lines@[k], self.pool@)
                    },
            decreases self.lines@.len() - i,
        {
            let line = &self.lines[i];
            let text: String = match line.expr {
                Some(h) => self.pool.render(h),
                None => line.text.clone(),
            };
            records.push(
                LineRecord {
                    is_assumption: line.is_assumption,
                    level: line.level,
                    text,
                    rule: line.rule,
                    cites: copy_cites(&line.cites),
                },
            );
            i = i + 1;
        }
        let d = Document { records };
        proof {
            assert forall|i2: int| 0 <= i2 < d.records@.len() implies record_step_ok(
                d.records@,
                i2,
            ) by {
                assert(level_step_ok(self.lines@, i2));
            }
        }
        d
    }
}

/// Reconstructs a proof from a persisted document.
///
/// The nesting discipline is validated first: a record whose level cannot
/// attach to its predecessor fails the whole load with the index of the
/// first offender.  Then every record's text is re-interned into a fresh
/// pool, in document order; text that no longer parses leaves that line's
/// handle absent, exactly as a failed edit would.
#[verifier::loop_isolation(false)]
pub fn from_document(d: &Document) -> (r: Result<LinedProof, FormatError>)
    ensures
        match r {
            Ok(pf) => pf.wf() && loaded_from(pf, *d) && records_ok(d.records@),
            Err(fe) => {
                &&& fe.at < d.records@.len()
                &&& !record_step_ok(d.records@, fe.at as int)
                &&& forall|u: int| 0 <= u < fe.at ==> #[trigger] record_step_ok(d.records@, u)
            },
        },
{
    let n: usize = d.records.len();
    let mut i: usize = 0;
    while i < n
        invariant
            i <= n,
            forall|u: int| 0 <= u < i ==> #[trigger] record_step_ok(d.records@, u),
        decreases n - i,
    {
        let ok: bool = if i == 0 {
            d.records[0].level == 0
        } else {
            let pl: usize = d.records[i - 1].level;
            let cl: usize = d.records[i].level;
            cl <= pl || (cl > 0 && cl - 1 == pl && d.records[i].is_assumption)
        };
        if !ok {
            return Err(FormatError { at: i });
        }
        i = i + 1;
    }
    let mut pf = LinedProof::new();
    let mut j: usize = 0;
    while j < n
        invariant
            j <= n,
            pf.pool.wf(),
            pf.lines@.len() == j,
            pf.cursor == 0,
            levels_ok(pf.lines@),
            pf.lines_wf(),
            forall|k: int|
                #![trigger pf.lines@[k]]
                0 <= k < j ==> {
                    &&& pf.lines@[k].is_assumption == d.records@[k].is_assumption
                    &&& pf.lines@[k].level == d.records@[k].level
                    &&& pf.lines@[k].rule == d.records@[k].rule
                    &&& pf.lines@[k].cites@ == d.records@[k].cites@
                    &&& pf.lines@[k].text@ == d.records@[k].text@
                    &&& (pf.lines@[k].expr is None ==> forall|e2: SpecExpr|
                        wf_expr(e2) ==> spec_render(e2) != d.records@[k].text@)
                },
        decreases n - j,
    {
        let rec = &d.records[j];
        let handle: Option<usize> = match pf.pool.intern(rec.text.as_str()) {
            Ok(h) => Some(h),
            Err(_) => None,
        };
        let line = Line {
            is_assumption: rec.is_assumption,
            level: rec.level,
            text: rec.text.clone(),
            expr: handle,
            rule: rec.rule,
            cites: copy_cites(&rec.cites),
        };
        let ghost prior_lines = pf.lines@;
        pf.lines.push(line);
        proof {
            assert(record_step_ok(d.records@, j as int));
            assert forall|i2: int| 0 <= i2 < pf.lines@.len() implies level_step_ok(
                pf.lines@,
                i2,
            ) by {
                if i2 < j {
                    assert(level_step_ok(prior_lines, i2));
                    assert(pf.lines@[i2] == prior_lines[i2]);
                    if i2 > 0 {
                        assert(pf.lines@[i2 - 1] == prior_lines[i2 - 1]);
                    }
                }
            }
        }
        j = j + 1;
    }
    let m: usize = pf.lines.len();
    pf.cursor = m;
    Ok(pf)
}

} // verus!
