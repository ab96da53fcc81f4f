//! The abstract syntax of propositional formulas, their canonical textual
//! rendering, and executable structural equality.

use vstd::prelude::*;

verus! {

/// Purely mathematical abstract syntax of a propositional formula.
pub enum SpecExpr {
    Var(Seq<char>),
    Not(Box<SpecExpr>),
    And(Box<SpecExpr>, Box<SpecExpr>),
    Or(Box<SpecExpr>, Box<SpecExpr>),
    Implies(Box<SpecExpr>, Box<SpecExpr>),
}

/// A parsed propositional formula.  Structural equality on `Expr` values is
/// equality of their views.
#[derive(Debug)]
pub enum Expr {
    Var(String),
    Not(Box<Expr>),
    And(Box<Expr>, Box<Expr>),
    Or(Box<Expr>, Box<Expr>),
    Implies(Box<Expr>, Box<Expr>),
}

pub open spec fn expr_view(e: Expr) -> SpecExpr
    decreases e,
{
    match e {
        Expr::Var(s) => SpecExpr::Var(s@),
        Expr::Not(a) => SpecExpr::Not(Box::new(expr_view(*a))),
        Expr::And(a, b) => SpecExpr::And(Box::new(expr_view(*a)), Box::new(expr_view(*b))),
        Expr::Or(a, b) => SpecExpr::Or(Box::new(expr_view(*a)), Box::new(expr_view(*b))),
        Expr::Implies(a, b) => SpecExpr::Implies(Box::new(expr_view(*a)), Box::new(expr_view(*b))),
    }
}

impl View for Expr {
    type V = SpecExpr;

    open spec fn view(&self) -> SpecExpr {
        expr_view(*self)
    }
}

/// Characters allowed in a variable name: ASCII letters and digits.
pub open spec fn is_ident_char(c: char) -> bool {
    (65 <= c as u32 && c as u32 <= 90) || (97 <= c as u32 && c as u32 <= 122) || (48 <= c as u32
        && c as u32 <= 57)
}

/// A well-formed formula has nonempty variable names made of identifier
/// characters only; the parser produces exactly these.
pub open spec fn wf_expr(e: SpecExpr) -> bool
    decreases e,
{
    match e {
        SpecExpr::Var(s) => s.len() > 0 && (forall|i: int|
            0 <= i < s.len() ==> is_ident_char(s[i])),
        SpecExpr::Not(a) => wf_expr(*a),
        SpecExpr::And(a, b) => wf_expr(*a) && wf_expr(*b),
        SpecExpr::Or(a, b) => wf_expr(*a) && wf_expr(*b),
        SpecExpr::Implies(a, b) => wf_expr(*a) && wf_expr(*b),
    }
}

/// Canonical textual form of a formula: variable names stand alone, negation
/// is a prefix `~`, and every binary connective is fully parenthesized.
pub open spec fn spec_render(e: SpecExpr) -> Seq<char>
    decreases e,
{
    match e {
        SpecExpr::Var(s) => s,
        SpecExpr::Not(a) => seq!['~'] + spec_render(*a),
        SpecExpr::And(a, b) => seq!['('] + spec_render(*a) + seq!['&'] + spec_render(*b)
            + seq![')'],
        SpecExpr::Or(a, b) => seq!['('] + spec_render(*a) + seq!['|'] + spec_render(*b)
            + seq![')'],
        SpecExpr::Implies(a, b) => seq!['('] + spec_render(*a) + seq!['-', '>'] + spec_render(*b)
            + seq![')'],
    }
}

/// Renders a formula to its canonical textual form.
pub fn render_expr(e: &Expr) -> (r: String)
    ensures
        r@ == spec_render(e@),
    decreases e,
{
    match e {
        Expr::Var(s) => s.clone(),
        Expr::Not(a) => {
            let mut r = String::from_str("~");
            let ra = render_expr(&**a);
            r.append(ra.as_str());
            proof {
                reveal_strlit("~");
                assert(r@ =~= spec_render(e@));
            }
            r
        },
        Expr::And(a, b) => {
            let mut r = String::from_str("(");
            let ra = render_expr(&**a);
            r.append(ra.as_str());
            r.append("&");
            let rb = render_expr(&**b);
            r.append(rb.as_str());
            r.append(")");
            proof {
                reveal_strlit("(");
                reveal_strlit("&");
                reveal_strlit(")");
                assert(r@ =~= spec_render(e@));
            }
            r
        },
        Expr::Or(a, b) => {
            let mut r = String::from_str("(");
            let ra = render_expr(&**a);
            r.append(ra.as_str());
            r.append("|");
            let rb = render_expr(&**b);
            r.append(rb.as_str());
            r.append(")");
            proof {
                reveal_strlit("(");
                reveal_strlit("|");
                reveal_strlit(")");
                assert(r@ =~= spec_render(e@));
            }
            r
        },
        Expr::Implies(a, b) => {
            let mut r = String::from_str("(");
            let ra = render_expr(&**a);
            r.append(ra.as_str());
            r.append("->");
            let rb = render_expr(&**b);
            r.append(rb.as_str());
            r.append(")");
            proof {
                reveal_strlit("(");
                reveal_strlit("->");
                reveal_strlit(")");
                assert(r@ =~= spec_render(e@));
            }
            r
        },
    }
}

/// Copies a formula; the copy is structurally equal to the original.
pub fn clone_expr(e: &Expr) -> (r: Expr)
    ensures
        r@ == e@,
    decreases e,
{
    match e {
        Expr::Var(s) => Expr::Var(s.clone()),
        Expr::Not(a) => Expr::Not(Box::new(clone_expr(&**a))),
        Expr::And(a, b) => Expr::And(Box::new(clone_expr(&**a)), Box::new(clone_expr(&**b))),
        Expr::Or(a, b) => Expr::Or(Box::new(clone_expr(&**a)), Box::new(clone_expr(&**b))),
        Expr::Implies(a, b) => Expr::Implies(
            Box::new(clone_expr(&**a)),
            Box::new(clone_expr(&**b)),
        ),
    }
}

/// Structural equality of two formulas, decided without re-walking any text.
pub fn expr_eq(a: &Expr, b: &Expr) -> (r: bool)
    ensures
        r == (a@ == b@),
    decreases a,
{
    match (a, b) {
        (Expr::Var(x), Expr::Var(y)) => *x == *y,
        (Expr::Not(x), Expr::Not(y)) => expr_eq(&**x, &**y),
        (Expr::And(x1, x2), Expr::And(y1, y2)) => expr_eq(&**x1, &**y1) && expr_eq(&**x2, &**y2),
        (Expr::Or(x1, x2), Expr::Or(y1, y2)) => expr_eq(&**x1, &**y1) && expr_eq(&**x2, &**y2),
        (Expr::Implies(x1, x2), Expr::Implies(y1, y2)) => expr_eq(&**x1, &**y1) && expr_eq(
            &**x2,
            &**y2,
        ),
        _ => false,
    }
}

} // verus!
