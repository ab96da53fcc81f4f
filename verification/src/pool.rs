//! The expression pool: interns parsed formulas and hands out small stable
//! handles, so that structural comparison of formulas is comparison of
//! handles.

use vstd::prelude::*;
use crate::expr::Expr;
use crate::expr::SpecExpr;
use crate::expr::wf_expr;
use crate::expr::spec_render;
use crate::expr::expr_eq;
use crate::expr::render_expr;
use crate::parse::ParseError;
use crate::parse::parse_expr;

verus! {

/// Owns every interned expression of one proof.  The pool only grows;
/// a handle, once returned, stays valid for the pool's lifetime.
pub struct Pool {
    exprs: Vec<Expr>,
}

impl View for Pool {
    type V = Seq<SpecExpr>;

    closed spec fn view(&self) -> Seq<SpecExpr> {
        self.exprs@.map_values(|e: Expr| e@)
    }
}

impl Pool {
    /// Entries are well formed and pairwise structurally distinct, so a
    /// handle identifies its expression and structurally equal expressions
    /// share one handle.
    pub open spec fn wf(&self) -> bool {
        &&& forall|k: int| 0 <= k < self@.len() ==> wf_expr(#[trigger] self@[k])
        &&& forall|k1: int, k2: int|
            #![trigger self@[k1], self@[k2]]
            0 <= k1 < k2 < self@.len() ==> self@[k1] != self@[k2]
    }

    /// Creates an empty pool.
    pub fn new() -> (p: Pool)
        ensures
            p.wf(),
            p@.len() == 0,
    {
        Pool { exprs: Vec::new() }
    }

    /// The number of interned expressions.
    pub fn len(&self) -> (n: usize)
        ensures
            n == self@.len(),
    {
        self.exprs.len()
    }

    /// Parses `text` and interns the resulting expression.
    ///
    /// If the text is the canonical rendering of a well-formed formula, the
    /// result is a handle to that formula: the existing handle when the
    /// formula was interned before, else a fresh one at the end of the pool.
    /// Otherwise the pool is unchanged and the parse error is returned.
    pub fn intern(&mut self, text: &str) -> (r: Result<usize, ParseError>)
        requires
            old(self).wf(),
        ensures
            final(self).wf(),
            old(self)@.len() <= final(self)@.len(),
            forall|k: int| 0 <= k < old(self)@.len() ==> final(self)@[k] == old(self)@[k],
            match r {
                Ok(h) => {
                    &&& h < final(self)@.len()
                    &&& wf_expr(final(self)@[h as int])
                    &&& spec_render(final(self)@[h as int]) == text@
                    &&& (h < old(self)@.len() || (final(self)@ == old(self)@.push(
                        final(self)@[h as int],
                    ) && h == old(self)@.len()))
                    &&& forall|k: int|
                        0 <= k < old(self)@.len() && old(self)@[k] == final(self)@[h as int] ==> h
                            == k
                },
                Err(pe) => {
                    &&& final(self)@ == old(self)@
                    &&& pe.text@ == text@
                    &&& forall|e2: SpecExpr| wf_expr(e2) ==> spec_render(e2) != text@
                },
            },
    {
        match parse_expr(text) {
            Err(pe) => Err(pe),
            Ok(e) => {
                let mut k: usize = 0;
                while k < self.exprs.len()
                    invariant
                        self.exprs@ == old(self).exprs@,
                        old(self).wf(),
                        wf_expr(e@),
                        spec_render(e@) == text@,
                        k <= self.exprs@.len(),
                        forall|t: int| 0 <= t < k ==> self@[t] != e@,
                    decreases self.exprs@.len() - k,
                {
                    if expr_eq(&self.exprs[k], &e) {
                        proof {
                            assert forall|t: int|
                                0 <= t < old(self)@.len() && old(self)@[t] == self@[k as int]
                                    implies t == k by {
                                assert(self@[t] == self@[k as int]);
                            }
                        }
                        return Ok(k);
                    }
                    k = k + 1;
                }
                let ghost prior = self@;
                let h: usize = self.exprs.len();
                self.exprs.push(e);
                proof {
                    assert(self@ =~= prior.push(e@));
                }
                Ok(h)
            },
        }
    }

    /// Returns the interned expression behind a handle; total for every
    /// handle this pool ever returned.
    pub fn get(&self, h: usize) -> (e: &Expr)
        requires
            h < self@.len(),
        ensures
            e@ == self@[h as int],
    {
        &self.exprs[h]
    }

    /// Renders the expression behind a handle in canonical form.
    pub fn render(&self, h: usize) -> (r: String)
        requires
            h < self@.len(),
        ensures
            r@ == spec_render(self@[h as int]),
    {
        render_expr(&self.exprs[h])
    }
}

} // verus!
