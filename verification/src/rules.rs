//! The closed set of inference rules and their verification predicates.
//!
//! A rule is stateless: it judges a candidate conclusion against an ordered
//! list of cited premise expressions and an ordered list of cited subproofs
//! (each an assumption paired with the subproof's final expression).  Scope
//! visibility is not a rule's concern; the lined proof resolves citations
//! before dispatching here.

use vstd::prelude::*;
use crate::expr::Expr;
use crate::expr::SpecExpr;
use crate::expr::expr_eq;

verus! {

/// The inference rules a derived line may carry.
#[derive(Clone, Copy, Debug, PartialEq, Eq, Structural)]
pub enum Rule {
    /// An assumption is justified by being asserted.
    Assumption,
    /// The conclusion repeats the single cited premise.
    Reiteration,
    /// From `A` and `B`, conclude `(A&B)`.
    AndIntro,
    /// From `(A&B)`, conclude `A` or conclude `B`.
    AndElim,
    /// From `A`, conclude `(A|B)` or `(B|A)`.
    OrIntro,
    /// From a subproof taking assumption `A` to result `B`, conclude `(A->B)`.
    ImpliesIntro,
    /// From `A` and `(A->B)`, in that order, conclude `B`.
    ImpliesElim,
}

/// Why a rule rejected a line.
#[derive(Debug)]
pub enum RuleViolation {
    /// The citation lists have the wrong arity for the rule.
    Shape { expected_premises: usize, expected_subproofs: usize, got_premises: usize, got_subproofs: usize },
    /// The arity is right but the cited expressions do not stand in the
    /// syntactic relation the rule demands of the conclusion.
    Mismatch,
}

/// How many single-line premises each rule cites.
pub open spec fn premise_arity(r: Rule) -> int {
    match r {
        Rule::Assumption => 0,
        Rule::Reiteration => 1,
        Rule::AndIntro => 2,
        Rule::AndElim => 1,
        Rule::OrIntro => 1,
        Rule::ImpliesIntro => 0,
        Rule::ImpliesElim => 2,
    }
}

/// How many subproofs each rule cites.
pub open spec fn subproof_arity(r: Rule) -> int {
    match r {
        Rule::ImpliesIntro => 1,
        _ => 0,
    }
}

/// The citation lists fit the rule.  An assumption line accepts anything:
/// it is trivially justified.
pub open spec fn shape_ok(r: Rule, n_premises: int, n_subproofs: int) -> bool {
    r is Assumption || (n_premises == premise_arity(r) && n_subproofs == subproof_arity(r))
}

/// The syntactic relation each rule demands between the cited expressions
/// and the conclusion, assuming the arity fits.
pub open spec fn match_ok(
    r: Rule,
    conclusion: SpecExpr,
    premises: Seq<SpecExpr>,
    subproofs: Seq<(SpecExpr, SpecExpr)>,
) -> bool {
    match r {
        Rule::Assumption => true,
        Rule::Reiteration => premises[0] == conclusion,
        Rule::AndIntro => conclusion == SpecExpr::And(
            Box::new(premises[0]),
            Box::new(premises[1]),
        ),
        Rule::AndElim => match premises[0] {
            SpecExpr::And(a, b) => conclusion == *a || conclusion == *b,
            _ => false,
        },
        Rule::OrIntro => match conclusion {
            SpecExpr::Or(a, b) => premises[0] == *a || premises[0] == *b,
            _ => false,
        },
        Rule::ImpliesIntro => conclusion == SpecExpr::Implies(
            Box::new(subproofs[0].0),
            Box::new(subproofs[0].1),
        ),
        Rule::ImpliesElim => match premises[1] {
            SpecExpr::Implies(a, b) => premises[0] == *a && conclusion == *b,
            _ => false,
        },
    }
}

/// The exact verdict a rule gives: shape errors before mismatch errors.
pub open spec fn spec_rule_verify(
    r: Rule,
    conclusion: SpecExpr,
    premises: Seq<SpecExpr>,
    subproofs: Seq<(SpecExpr, SpecExpr)>,
) -> Result<(), RuleViolation> {
    if !shape_ok(r, premises.len() as int, subproofs.len() as int) {
        Err(
            RuleViolation::Shape {
                expected_premises: premise_arity(r) as usize,
                expected_subproofs: subproof_arity(r) as usize,
                got_premises: premises.len() as usize,
                got_subproofs: subproofs.len() as usize,
            },
        )
    } else if !match_ok(r, conclusion, premises, subproofs) {
        Err(RuleViolation::Mismatch)
    } else {
        Ok(())
    }
}

/// The views of a sequence of expressions.
pub open spec fn exprs_view(s: Seq<Expr>) -> Seq<SpecExpr> {
    s.map_values(|e: Expr| e@)
}

/// The views of a sequence of assumption/result pairs.
pub open spec fn pairs_view(s: Seq<(Expr, Expr)>) -> Seq<(SpecExpr, SpecExpr)> {
    s.map_values(|p: (Expr, Expr)| (p.0@, p.1@))
}

/// Checks a rule against a resolved conclusion, premise list and subproof
/// list, returning the exact verdict of `spec_rule_verify`.
pub fn rule_verify(
    r: &Rule,
    conclusion: &Expr,
    premises: &Vec<Expr>,
    subproofs: &Vec<(Expr, Expr)>,
) -> (res: Result<(), RuleViolation>)
    ensures
        res == spec_rule_verify(*r, conclusion@, exprs_view(premises@), pairs_view(subproofs@)),
        res is Ok <==> shape_ok(*r, premises@.len() as int, subproofs@.len() as int) && match_ok(
            *r,
            conclusion@,
            exprs_view(premises@),
            pairs_view(subproofs@),
        ),
{
    let np: usize = premises.len();
    let ns: usize = subproofs.len();
    let shape = match r {
        Rule::Assumption => true,
        Rule::Reiteration => np == 1 && ns == 0,
        Rule::AndIntro => np == 2 && ns == 0,
        Rule::AndElim => np == 1 && ns == 0,
        Rule::OrIntro => np == 1 && ns == 0,
        Rule::ImpliesIntro => np == 0 && ns == 1,
        Rule::ImpliesElim => np == 2 && ns == 0,
    };
    if !shape {
        let expected_premises: usize = match r {
            Rule::Assumption => 0,
            Rule::Reiteration => 1,
            Rule::AndIntro => 2,
            Rule::AndElim => 1,
            Rule::OrIntro => 1,
            Rule::ImpliesIntro => 0,
            Rule::ImpliesElim => 2,
        };
        let expected_subproofs: usize = match r {
            Rule::ImpliesIntro => 1,
            _ => 0,
        };
        return Err(
            RuleViolation::Shape {
                expected_premises,
                expected_subproofs,
                got_premises: np,
                got_subproofs: ns,
            },
        );
    }
    let matched = match r {
        Rule::Assumption => true,
        Rule::Reiteration => expr_eq(conclusion, &premises[0]),
        Rule::AndIntro => match conclusion {
            Expr::And(a, b) => expr_eq(&**a, &premises[0]) && expr_eq(&**b, &premises[1]),
            _ => false,
        },
        Rule::AndElim => match &premises[0] {
            Expr::And(a, b) => expr_eq(conclusion, &**a) || expr_eq(conclusion, &**b),
            _ => false,
        },
        Rule::OrIntro => match conclusion {
            Expr::Or(a, b) => expr_eq(&premises[0], &**a) || expr_eq(&premises[0], &**b),
            _ => false,
        },
        Rule::ImpliesIntro => match conclusion {
            Expr::Implies(a, b) => expr_eq(&**a, &subproofs[0].0) && expr_eq(
                &**b,
                &subproofs[0].1,
            ),
            _ => false,
        },
        Rule::ImpliesElim => match &premises[1] {
            Expr::Implies(a, b) => expr_eq(&premises[0], &**a) && expr_eq(conclusion, &**b),
            _ => false,
        },
    };
    if matched {
        Ok(())
    } else {
        Err(RuleViolation::Mismatch)
    }
}

} // verus!
