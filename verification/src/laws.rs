//! The library-wide laws, each proved from the public contracts and
//! invariants: interning determinism, render idempotence on canonical
//! text, visibility blocking by closed subproofs, assumption triviality,
//! and the save/load display round trip.

use vstd::prelude::*;
use crate::expr::SpecExpr;
use crate::expr::wf_expr;
use crate::expr::spec_render;
use crate::pool::Pool;
use crate::lined::Line;
use crate::lined::LinedProof;
use crate::lined::VerificationError;
use crate::lined::visible;
use crate::lined::spec_verify_line;
use crate::lined::spec_display;
use crate::lined::display_line;
use crate::lined::line_expr_text;
use crate::document::Document;
use crate::document::document_of;
use crate::document::loaded_from;

verus! {

/// Interning determinism: within one pool, structurally equal interned
/// expressions stand behind a single handle, so two handles whose
/// expressions are equal are the same handle.  Together with `intern`'s
/// contract (an already-interned expression keeps its handle), texts that
/// parse to structurally equal expressions intern to equal handles.
pub proof fn lemma_interning_deterministic(p: Pool, h1: int, h2: int)
    requires
        p.wf(),
        0 <= h1 < p@.len(),
        0 <= h2 < p@.len(),
        p@[h1] == p@[h2],
    ensures
        h1 == h2,
{
    if h1 < h2 {
        assert(p@[h1] != p@[h2]);
    }
    if h2 < h1 {
        assert(p@[h2] != p@[h1]);
    }
}

/// Render idempotence: the canonical rendering of any interned expression
/// is itself parseable, so interning it cannot fail, and by `intern`'s
/// contract the handle it returns renders to that same text.  Rendering an
/// interned canonical form therefore reproduces it exactly: renderings are
/// fixed points of intern-then-render.
pub proof fn lemma_canonical_text_reparses(p: Pool, h: int)
    requires
        p.wf(),
        0 <= h < p@.len(),
    ensures
        exists|e2: SpecExpr| wf_expr(e2) && spec_render(e2) == spec_render(p@[h]),
{
    assert(wf_expr(p@[h]) && spec_render(p@[h]) == spec_render(p@[h]));
}

/// Visibility monotonicity: a line is visible only while its subproof is
/// still open.  Any line strictly between the cited line and the citing
/// line that stands shallower than the cited line closes the cited line's
/// subproof and destroys visibility.
pub proof fn lemma_closed_subproof_blocks_visibility(lines: Seq<Line>, j: int, k: int, i: int)
    requires
        0 <= j < k < i < lines.len(),
        (lines[k].level as int) < (lines[j].level as int),
    ensures
        !visible(lines, j, i),
{
    assert(!(lines[j].level <= lines[k].level));
}

/// Assumption triviality: a line marked as an assumption verifies
/// successfully whatever its expression content, its stored rule, or its
/// citations.
pub proof fn lemma_assumption_verifies(pf: LinedProof, index: usize)
    requires
        index < pf.lines@.len(),
        pf.lines@[index as int].is_assumption,
    ensures
        spec_verify_line(pf, index) == Ok::<(), VerificationError>(()),
{
}

/// Two proofs whose rows display identically display identically as wholes.
proof fn lemma_display_pointwise(l1: Seq<Line>, p1: Seq<SpecExpr>, l2: Seq<Line>, p2: Seq<SpecExpr>)
    requires
        l1.len() == l2.len(),
        forall|i: int|
            0 <= i < l1.len() ==> #[trigger] display_line(l1[i], p1) == display_line(l2[i], p2),
    ensures
        spec_display(l1, p1) == spec_display(l2, p2),
    decreases l1.len(),
{
    if l1.len() > 0 {
        assert forall|i: int| 0 <= i < l1.drop_last().len() implies #[trigger] display_line(
            l1.drop_last()[i],
            p1,
        ) == display_line(l2.drop_last()[i], p2) by {
            assert(l1.drop_last()[i] == l1[i]);
            assert(l2.drop_last()[i] == l2[i]);
        }
        lemma_display_pointwise(l1.drop_last(), p1, l2.drop_last(), p2);
        assert(display_line(l1.last(), p1) == display_line(l2.last(), p2));
    }
}

/// Round trip: a proof saved with `to_document` and loaded back with
/// `from_document` displays identically to the original.  (`to_document`
/// guarantees the records' nesting is valid, so the load cannot fail.)
pub proof fn lemma_document_round_trip(p: LinedProof, d: Document, q: LinedProof)
    requires
        p.wf(),
        q.wf(),
        document_of(p, d),
        loaded_from(q, d),
    ensures
        spec_display(q.lines@, q.pool@) == spec_display(p.lines@, p.pool@),
{
    assert forall|i: int| 0 <= i < q.lines@.len() implies #[trigger] display_line(
        q.lines@[i],
        q.pool@,
    ) == display_line(p.lines@[i], p.pool@) by {
        assert(line_expr_text(q.lines@[i], q.pool@) == d.records@[i].text@) by {
            match q.lines@[i].expr {
                Some(h) => {
                    assert(spec_render(q.pool@[h as int]) == q.lines@[i].text@);
                },
                None => {},
            }
        }
        assert(line_expr_text(p.lines@[i], p.pool@) == d.records@[i].text@);
    }
    lemma_display_pointwise(q.lines@, q.pool@, p.lines@, p.pool@);
}

} // verus!
