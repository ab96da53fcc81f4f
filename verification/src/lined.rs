//! The lined proof: an ordered, nested sequence of lines with a cursor,
//! edit operations, and on-demand verification of one line at a time.
//!
//! Nesting discipline: consecutive lines may deepen by at most one level,
//! and a deeper line must be an assumption (a subproof opens with exactly
//! one assumption); closing any number of subproofs at once is free.  An
//! edit that would break this discipline is rejected, never clamped.

use vstd::prelude::*;
use crate::expr::Expr;
use crate::expr::SpecExpr;
use crate::expr::wf_expr;
use crate::expr::spec_render;
use crate::expr::clone_expr;
use crate::pool::Pool;
use crate::rules::Rule;
use crate::rules::RuleViolation;
use crate::rules::spec_rule_verify;
use crate::rules::exprs_view;
use crate::rules::pairs_view;
use crate::rules::rule_verify;

verus! {

/// A citation: either a single earlier line, or a whole subproof denoted by
/// the ordinal of its opening assumption line.
#[derive(Clone, Copy, Debug, PartialEq, Eq, Structural)]
pub enum Citation {
    Line(usize),
    Subproof(usize),
}

/// One row of the proof.
#[derive(Debug)]
pub struct Line {
    /// Whether this line opens a subproof (or states a top-level premise).
    pub is_assumption: bool,
    /// Subproof nesting depth; top level is 0.
    pub level: usize,
    /// The source text as last set; kept verbatim even when it fails to parse.
    pub text: String,
    /// Handle of the parsed expression in the proof's pool, absent when the
    /// text does not parse.
    pub expr: Option<usize>,
    /// The stored justification; ignored by verification for assumptions.
    pub rule: Rule,
    /// The ordered citations of the justification.
    pub cites: Vec<Citation>,
}

/// An edit was rejected; the proof is unchanged.
#[derive(Debug)]
pub enum EditError {
    /// The index does not denote a line (or insert position) of the proof.
    OutOfBounds { index: usize },
    /// The requested nesting level cannot attach at this position.
    BadLevel { at: usize, level: usize },
}

/// Why verification of one line failed.
#[derive(Debug)]
pub enum VerificationError {
    /// The index denotes no line.
    NoSuchLine { index: usize },
    /// The named line has no parsed expression.
    Unparsed { line: usize },
    /// The named cited line or subproof is not visible from the citing line.
    NotVisible { cited: usize },
    /// The citations resolved, but the rule rejected them.
    Rule { violation: RuleViolation },
}

/// The nesting step discipline at index `i`.
pub open spec fn level_step_ok(lines: Seq<Line>, i: int) -> bool {
    if i == 0 {
        lines[0].level == 0
    } else {
        lines[i].level <= lines[i - 1].level + 1 && (lines[i].level == lines[i - 1].level + 1
            ==> lines[i].is_assumption)
    }
}

/// The whole sequence obeys the nesting discipline.
pub open spec fn levels_ok(lines: Seq<Line>) -> bool {
    forall|i: int| 0 <= i < lines.len() ==> #[trigger] level_step_ok(lines, i)
}

/// A line at the given position and level may be inserted without breaking
/// the nesting discipline on either side.
pub open spec fn can_insert(lines: Seq<Line>, at: int, is_assumption: bool, level: int) -> bool {
    &&& 0 <= at <= lines.len()
    &&& if at == 0 {
        level == 0
    } else {
        level <= lines[at - 1].level + 1 && (level == lines[at - 1].level + 1 ==> is_assumption)
    }
    &&& at < lines.len() ==> (lines[at].level <= level + 1 && (lines[at].level == level + 1
        ==> lines[at].is_assumption))
}

/// A Fitch-style lined proof: an expression pool, the line sequence, and
/// the cursor recording where the next insertion is intended to land.
pub struct LinedProof {
    pub pool: Pool,
    pub lines: Vec<Line>,
    pub cursor: usize,
}

impl LinedProof {
    /// Every present expression handle points into the pool, at the entry
    /// whose canonical rendering is the line's text.
    pub open spec fn lines_wf(self) -> bool {
        forall|i: int|
            #![trigger self.lines@[i]]
            0 <= i < self.lines@.len() ==> match self.lines@[i].expr {
                Some(h) => h < self.pool@.len() && spec_render(self.pool@[h as int])
                    == self.lines@[i].text@,
                None => true,
            }
    }

    /// The proof invariant: a well-formed pool, the nesting discipline,
    /// valid expression handles, and a cursor inside the proof.
    pub open spec fn wf(self) -> bool {
        &&& self.pool.wf()
        &&& levels_ok(self.lines@)
        &&& self.lines_wf()
        &&& self.cursor <= self.lines@.len()
    }

    /// Creates an empty proof with one implicit top-level scope.
    pub fn new() -> (p: LinedProof)
        ensures
            p.wf(),
            p.lines@.len() == 0,
            p.pool@.len() == 0,
            p.cursor == 0,
    {
        LinedProof { pool: Pool::new(), lines: Vec::new(), cursor: 0 }
    }

    /// The number of lines.
    pub fn len(&self) -> (n: usize)
        ensures
            n == self.lines@.len(),
    {
        self.lines.len()
    }

    /// Inserts a new empty-text line at `at` with the given role and level.
    ///
    /// A level that cannot attach at that position (more than one deeper
    /// than the preceding line, deepening without an assumption, or leaving
    /// the following line unattached) is rejected with an error; nothing is
    /// clamped.  On success the following lines' ordinals shift up by one
    /// and the cursor advances past the new line.
    pub fn insert_line(&mut self, at: usize, is_assumption: bool, level: usize) -> (r: Result<
        (),
        EditError,
    >)
        requires
            old(self).wf(),
        ensures
            final(self).wf(),
            match r {
                Ok(()) => {
                    &&& can_insert(old(self).lines@, at as int, is_assumption, level as int)
                    &&& final(self).lines@.len() == old(self).lines@.len() + 1
                    &&& forall|k: int|
                        0 <= k < at ==> final(self).lines@[k] == old(self).lines@[k]
                    &&& forall|k: int|
                        at < k < final(self).lines@.len() ==> final(self).lines@[k] == old(self).lines@[k - 1]
                    &&& final(self).lines@[at as int].is_assumption == is_assumption
                    &&& final(self).lines@[at as int].level == level
                    &&& final(self).lines@[at as int].text@ == Seq::<char>::empty()
                    &&& final(self).lines@[at as int].expr is None
                    &&& final(self).lines@[at as int].rule == (if is_assumption {
                        Rule::Assumption
                    } else {
                        Rule::Reiteration
                    })
                    &&& final(self).lines@[at as int].cites@ == Seq::<Citation>::empty()
                    &&& final(self).pool@ == old(self).pool@
                    &&& final(self).cursor == at + 1
                },
                Err(e) => {
                    &&& *final(self) == *old(self)
                    &&& !can_insert(old(self).lines@, at as int, is_assumption, level as int)
                    &&& e == (if at > old(self).lines@.len() {
                        EditError::OutOfBounds { index: at }
                    } else {
                        EditError::BadLevel { at, level }
                    })
                },
            },
    {
        let n: usize = self.lines.len();
        if at > n {
            return Err(EditError::OutOfBounds { index: at });
        }
        let ok_prev: bool = if at == 0 {
            level == 0
        } else {
            let pl: usize = self.lines[at - 1].level;
            level <= pl || (level > 0 && level - 1 == pl && is_assumption)
        };
        let ok_next: bool = if at < n {
            let nl: usize = self.lines[at].level;
            nl <= level || (nl > 0 && nl - 1 == level && self.lines[at].is_assumption)
        } else {
            true
        };
        if !ok_prev || !ok_next {
            return Err(EditError::BadLevel { at, level });
        }
        let rule: Rule = if is_assumption {
            Rule::Assumption
        } else {
            Rule::Reiteration
        };
        let line = Line {
            is_assumption,
            level,
            text: String::new(),
            expr: None,
            rule,
            cites: Vec::new(),
        };
        self.lines.insert(at, line);
        let m: usize = self.lines.len();
        proof {
            assert(at < m);
        }
        self.cursor = at + 1;
        proof {
            let nl2 = self.lines@;
            let ol = old(self).lines@;
            assert forall|i: int| 0 <= i < nl2.len() implies level_step_ok(nl2, i) by {
                if i < at {
                    assert(level_step_ok(ol, i));
                } else if i > at + 1 {
                    assert(level_step_ok(ol, i - 1));
                } else if i == at + 1 {
                    assert(nl2[i] == ol[at as int]);
                } else {
                    if at > 0 {
                        assert(nl2[i - 1] == ol[at - 1]);
                    }
                }
            }
        }
        Ok(())
    }

    /// Repositions the cursor to immediately follow the given line.
    pub fn move_cursor(&mut self, index: usize) -> (r: Result<(), EditError>)
        requires
            old(self).wf(),
        ensures
            final(self).wf(),
            match r {
                Ok(()) => {
                    &&& index < old(self).lines@.len()
                    &&& final(self).cursor == index + 1
                    &&& final(self).lines@ == old(self).lines@
                    &&& final(self).pool@ == old(self).pool@
                },
                Err(e) => {
                    &&& *final(self) == *old(self)
                    &&& index >= old(self).lines@.len()
                    &&& e == EditError::OutOfBounds { index }
                },
            },
    {
        if index >= self.lines.len() {
            return Err(EditError::OutOfBounds { index });
        }
        self.cursor = index + 1;
        Ok(())
    }
}

/// Copies a citation list.
pub fn copy_cites(v: &Vec<Citation>) -> (r: Vec<Citation>)
    ensures
        r@ == v@,
{
    let mut r: Vec<Citation> = Vec::new();
    let mut k: usize = 0;
    while k < v.len()
        invariant
            k <= v@.len(),
            r@ == v@.subrange(0, k as int),
        decreases v@.len() - k,
    {
        r.push(v[k]);
        proof {
            assert(r@ =~= v@.subrange(0, k + 1));
        }
        k = k + 1;
    }
    proof {
        assert(v@.subrange(0, v@.len() as int) =~= v@);
    }
    r
}

/// The line fields a text edit leaves untouched.
pub open spec fn same_but_text(a: Line, b: Line) -> bool {
    &&& a.is_assumption == b.is_assumption
    &&& a.level == b.level
    &&& a.rule == b.rule
    &&& a.cites@ == b.cites@
}

/// The line fields a justification edit leaves untouched.
pub open spec fn same_but_rule(a: Line, b: Line) -> bool {
    &&& a.is_assumption == b.is_assumption
    &&& a.level == b.level
    &&& a.text@ == b.text@
    &&& a.expr == b.expr
}

impl LinedProof {
    /// Replaces a line's source text and re-interns it.
    ///
    /// On parse failure the operation still succeeds: the line keeps the
    /// new text verbatim and its expression handle becomes absent, so later
    /// verification of this line (or of lines citing it) reports the
    /// dependency instead of crashing.
    pub fn set_line_text(&mut self, index: usize, text: &str) -> (r: Result<(), EditError>)
        requires
            old(self).wf(),
        ensures
            final(self).wf(),
            match r {
                Ok(()) => {
                    &&& index < old(self).lines@.len()
                    &&& final(self).lines@.len() == old(self).lines@.len()
                    &&& forall|k: int|
                        0 <= k < old(self).lines@.len() && k != index ==> final(self).lines@[k]
                            == old(self).lines@[k]
                    &&& same_but_text(final(self).lines@[index as int], old(self).lines@[index as int])
                    &&& final(self).lines@[index as int].text@ == text@
                    &&& old(self).pool@.len() <= final(self).pool@.len()
                    &&& forall|k: int|
                        0 <= k < old(self).pool@.len() ==> final(self).pool@[k] == old(self).pool@[k]
                    &&& match final(self).lines@[index as int].expr {
                        Some(h) => {
                            &&& h < final(self).pool@.len()
                            &&& spec_render(final(self).pool@[h as int]) == text@
                            &&& forall|k: int|
                                0 <= k < old(self).pool@.len() && old(self).pool@[k] == final(self).pool@[h as int] ==> h == k
                        },
                        None => forall|e2: SpecExpr| wf_expr(e2) ==> spec_render(e2) != text@,
                    }
                    &&& final(self).cursor == old(self).cursor
                },
                Err(e) => {
                    &&& *final(self) == *old(self)
                    &&& index >= old(self).lines@.len()
                    &&& e == EditError::OutOfBounds { index }
                },
            },
    {
        if index >= self.lines.len() {
            return Err(EditError::OutOfBounds { index });
        }
        let handle: Option<usize> = match self.pool.intern(text) {
            Ok(h) => Some(h),
            Err(_) => None,
        };
        let prior = &self.lines[index];
        let line = Line {
            is_assumption: prior.is_assumption,
            level: prior.level,
            text: text.to_owned(),
            expr: handle,
            rule: prior.rule,
            cites: copy_cites(&prior.cites),
        };
        self.lines.set(index, line);
        proof {
            let nl2 = self.lines@;
            let ol = old(self).lines@;
            assert forall|i: int| 0 <= i < nl2.len() implies level_step_ok(nl2, i) by {
                assert(level_step_ok(ol, i));
            }
        }
        Ok(())
    }

    /// Replaces a line's stored justification: its rule and its citations.
    pub fn set_line_rule(&mut self, index: usize, rule: Rule, cites: Vec<Citation>) -> (r: Result<
        (),
        EditError,
    >)
        requires
            old(self).wf(),
        ensures
            final(self).wf(),
            match r {
                Ok(()) => {
                    &&& index < old(self).lines@.len()
                    &&& final(self).lines@.len() == old(self).lines@.len()
                    &&& forall|k: int|
                        0 <= k < old(self).lines@.len() && k != index ==> final(self).lines@[k]
                            == old(self).lines@[k]
                    &&& same_but_rule(final(self).lines@[index as int], old(self).lines@[index as int])
                    &&& final(self).lines@[index as int].rule == rule
                    &&& final(self).lines@[index as int].cites@ == cites@
                    &&& final(self).pool@ == old(self).pool@
                    &&& final(self).cursor == old(self).cursor
                },
                Err(e) => {
                    &&& *final(self) == *old(self)
                    &&& index >= old(self).lines@.len()
                    &&& e == EditError::OutOfBounds { index }
                },
            },
    {
        if index >= self.lines.len() {
            return Err(EditError::OutOfBounds { index });
        }
        let prior = &self.lines[index];
        let line = Line {
            is_assumption: prior.is_assumption,
            level: prior.level,
            text: prior.text.clone(),
            expr: prior.expr,
            rule,
            cites,
        };
        self.lines.set(index, line);
        proof {
            let nl2 = self.lines@;
            let ol = old(self).lines@;
            assert forall|i: int| 0 <= i < nl2.len() implies level_step_ok(nl2, i) by {
                assert(level_step_ok(ol, i));
            }
        }
        Ok(())
    }
}


/// A cited line `j` is visible from a later line `i`: it stands no deeper
/// than `i`, and no subproof boundary strictly between them closes below
/// `j`'s depth.
pub open spec fn visible(lines: Seq<Line>, j: int, i: int) -> bool {
    &&& 0 <= j < i < lines.len()
    &&& lines[j].level <= lines[i].level
    &&& forall|k: int| j < k < i ==> lines[j].level <= #[trigger] lines[k].level
}

/// The last index of the run starting at `j` of lines no shallower than `d`.
pub open spec fn span_end(lines: Seq<Line>, j: int, d: int) -> int
    decreases lines.len() - j,
{
    if j + 1 < lines.len() && lines[j + 1].level >= d {
        span_end(lines, j + 1, d)
    } else {
        j
    }
}

/// The last line of the subproof opened by the assumption line `j`.
pub open spec fn subproof_end(lines: Seq<Line>, j: int) -> int {
    span_end(lines, j, lines[j].level as int)
}

/// The subproof opened at `j` is citable as a discharged assumption/result
/// pair from line `i`: it has closed before `i`, and the enclosing scope
/// (one level up) still reaches `i`.
pub open spec fn subproof_visible(lines: Seq<Line>, j: int, i: int) -> bool {
    &&& 0 <= j < i < lines.len()
    &&& lines[j].is_assumption
    &&& lines[j].level >= 1
    &&& subproof_end(lines, j) < i
    &&& lines[j].level - 1 <= lines[i].level
    &&& forall|k: int|
        subproof_end(lines, j) < k < i ==> lines[j].level - 1 <= #[trigger] lines[k].level
}

/// The verdict on one citation of line `i`: a visibility error, then a
/// parse-dependency error, then none.
pub open spec fn cite_error(pf: LinedProof, i: int, c: Citation) -> Option<VerificationError> {
    match c {
        Citation::Line(j) => if !visible(pf.lines@, j as int, i) {
            Some(VerificationError::NotVisible { cited: j })
        } else if pf.lines@[j as int].expr is None {
            Some(VerificationError::Unparsed { line: j })
        } else {
            None
        },
        Citation::Subproof(j) => if !subproof_visible(pf.lines@, j as int, i) {
            Some(VerificationError::NotVisible { cited: j })
        } else if pf.lines@[j as int].expr is None {
            Some(VerificationError::Unparsed { line: j })
        } else if pf.lines@[subproof_end(pf.lines@, j as int)].expr is None {
            Some(
                VerificationError::Unparsed { line: subproof_end(pf.lines@, j as int) as usize },
            )
        } else {
            None
        },
    }
}

/// The first citation error of line `i`, scanning the citations in order.
pub open spec fn first_cite_error(pf: LinedProof, i: int, cites: Seq<Citation>) -> Option<
    VerificationError,
>
    decreases cites.len(),
{
    if cites.len() == 0 {
        None
    } else if cite_error(pf, i, cites[0]) is Some {
        cite_error(pf, i, cites[0])
    } else {
        first_cite_error(pf, i, cites.subrange(1, cites.len() as int))
    }
}

/// If every citation before `t` is clean and `t` fails, the scan fails
/// exactly with `t`'s error.
pub proof fn lemma_first_cite_error_at(pf: LinedProof, i: int, cites: Seq<Citation>, t: int)
    requires
        0 <= t < cites.len(),
        forall|u: int| 0 <= u < t ==> cite_error(pf, i, #[trigger] cites[u]) is None,
        cite_error(pf, i, cites[t]) is Some,
    ensures
        first_cite_error(pf, i, cites) == cite_error(pf, i, cites[t]),
    decreases t,
{
    if t > 0 {
        let rest = cites.subrange(1, cites.len() as int);
        assert(cite_error(pf, i, cites[0]) is None);
        assert forall|u: int| 0 <= u < t - 1 implies cite_error(pf, i, #[trigger] rest[u])
            is None by {
            assert(rest[u] == cites[u + 1]);
        }
        assert(rest[t - 1] == cites[t]);
        lemma_first_cite_error_at(pf, i, rest, t - 1);
    }
}

/// If every citation is clean, the scan is clean.
pub proof fn lemma_no_cite_error(pf: LinedProof, i: int, cites: Seq<Citation>)
    requires
        forall|u: int| 0 <= u < cites.len() ==> cite_error(pf, i, #[trigger] cites[u]) is None,
    ensures
        first_cite_error(pf, i, cites) is None,
    decreases cites.len(),
{
    if cites.len() > 0 {
        let rest = cites.subrange(1, cites.len() as int);
        assert forall|u: int| 0 <= u < rest.len() implies cite_error(pf, i, #[trigger] rest[u])
            is None by {
            assert(rest[u] == cites[u + 1]);
        }
        lemma_no_cite_error(pf, i, rest);
    }
}

/// The expressions of the single-line citations, in citation order.
pub open spec fn resolved_premises(pf: LinedProof, cites: Seq<Citation>) -> Seq<SpecExpr>
    decreases cites.len(),
{
    if cites.len() == 0 {
        Seq::empty()
    } else {
        let rest = resolved_premises(pf, cites.drop_last());
        match cites.last() {
            Citation::Line(j) => rest.push(
                pf.pool@[pf.lines@[j as int].expr.unwrap() as int],
            ),
            Citation::Subproof(_) => rest,
        }
    }
}

/// The assumption/result pairs of the subproof citations, in citation order.
pub open spec fn resolved_subproofs(pf: LinedProof, cites: Seq<Citation>) -> Seq<
    (SpecExpr, SpecExpr),
>
    decreases cites.len(),
{
    if cites.len() == 0 {
        Seq::empty()
    } else {
        let rest = resolved_subproofs(pf, cites.drop_last());
        match cites.last() {
            Citation::Subproof(j) => rest.push(
                (
                    pf.pool@[pf.lines@[j as int].expr.unwrap() as int],
                    pf.pool@[pf.lines@[subproof_end(pf.lines@, j as int)].expr.unwrap() as int],
                ),
            ),
            Citation::Line(_) => rest,
        }
    }
}

/// The exact verdict of verifying line `index`: no such line, a trivially
/// justified assumption, an unparsed conclusion, the first citation error,
/// or the rule's own verdict on the resolved expressions.
pub open spec fn spec_verify_line(pf: LinedProof, index: usize) -> Result<(), VerificationError> {
    if index >= pf.lines@.len() {
        Err(VerificationError::NoSuchLine { index })
    } else if pf.lines@[index as int].is_assumption {
        Ok(())
    } else if pf.lines@[index as int].expr is None {
        Err(VerificationError::Unparsed { line: index })
    } else if first_cite_error(pf, index as int, pf.lines@[index as int].cites@) is Some {
        Err(first_cite_error(pf, index as int, pf.lines@[index as int].cites@).unwrap())
    } else {
        match spec_rule_verify(
            pf.lines@[index as int].rule,
            pf.pool@[pf.lines@[index as int].expr.unwrap() as int],
            resolved_premises(pf, pf.lines@[index as int].cites@),
            resolved_subproofs(pf, pf.lines@[index as int].cites@),
        ) {
            Ok(()) => Ok(()),
            Err(v) => Err(VerificationError::Rule { violation: v }),
        }
    }
}

impl LinedProof {
    /// Decides line-to-line visibility.
    #[verifier::loop_isolation(false)]
    fn is_visible(&self, j: usize, i: usize) -> (b: bool)
        requires
            self.wf(),
            i < self.lines@.len(),
        ensures
            b == visible(self.lines@, j as int, i as int),
    {
        if j >= i {
            return false;
        }
        let d: usize = self.lines[j].level;
        if d > self.lines[i].level {
            return false;
        }
        let mut k: usize = j + 1;
        while k < i
            invariant
                j < k <= i,
                forall|t: int| j < t < k ==> d <= #[trigger] self.lines@[t].level,
            decreases i - k,
        {
            if self.lines[k].level < d {
                return false;
            }
            k = k + 1;
        }
        true
    }

    /// Computes the last line of the subproof opened at `j`.
    #[verifier::loop_isolation(false)]
    fn subproof_end_ex(&self, j: usize) -> (e: usize)
        requires
            self.wf(),
            j < self.lines@.len(),
        ensures
            e as int == subproof_end(self.lines@, j as int),
            j <= e < self.lines@.len(),
    {
        let d: usize = self.lines[j].level;
        let n: usize = self.lines.len();
        let mut m: usize = j;
        while m + 1 < n && self.lines[m + 1].level >= d
            invariant
                j <= m < n,
                subproof_end(self.lines@, j as int) == span_end(self.lines@, m as int, d as int),
            decreases n - m,
        {
            m = m + 1;
        }
        m
    }

    /// Decides subproof-to-line visibility.
    #[verifier::loop_isolation(false)]
    fn is_subproof_visible(&self, j: usize, i: usize) -> (b: bool)
        requires
            self.wf(),
            i < self.lines@.len(),
        ensures
            b == subproof_visible(self.lines@, j as int, i as int),
    {
        if j >= i {
            return false;
        }
        if !self.lines[j].is_assumption {
            return false;
        }
        let dj: usize = self.lines[j].level;
        if dj == 0 {
            return false;
        }
        let e: usize = self.subproof_end_ex(j);
        if e >= i {
            return false;
        }
        let d: usize = dj - 1;
        if self.lines[i].level < d {
            return false;
        }
        let mut k: usize = e + 1;
        while k < i
            invariant
                e < k <= i,
                forall|t: int| e < t < k ==> d <= #[trigger] self.lines@[t].level,
            decreases i - k,
        {
            if self.lines[k].level < d {
                return false;
            }
            k = k + 1;
        }
        true
    }

    /// Verifies one line: resolves its citations against scope visibility,
    /// then dispatches the stored rule on the resolved expressions.  The
    /// proof itself is never changed; the verdict is exactly
    /// `spec_verify_line`.
    #[verifier::loop_isolation(false)]
    pub fn verify_line(&self, index: usize) -> (r: Result<(), VerificationError>)
        requires
            self.wf(),
        ensures
            r == spec_verify_line(*self, index),
    {
        let n: usize = self.lines.len();
        if index >= n {
            return Err(VerificationError::NoSuchLine { index });
        }
        if self.lines[index].is_assumption {
            return Ok(());
        }
        let h: usize = match self.lines[index].expr {
            None => {
                return Err(VerificationError::Unparsed { line: index });
            },
            Some(h) => h,
        };
        let conclusion: &Expr = self.pool.get(h);
        let cites: &Vec<Citation> = &self.lines[index].cites;
        let mut premises: Vec<Expr> = Vec::new();
        let mut subproofs: Vec<(Expr, Expr)> = Vec::new();
        let mut t: usize = 0;
        while t < cites.len()
            invariant
                t <= cites@.len(),
                forall|u: int|
                    0 <= u < t ==> cite_error(*self, index as int, #[trigger] cites@[u]) is None,
                exprs_view(premises@) == resolved_premises(*self, cites@.subrange(0, t as int)),
                pairs_view(subproofs@) == resolved_subproofs(*self, cites@.subrange(0, t as int)),
            decreases cites@.len() - t,
        {
            let ghost prefix = cites@.subrange(0, t as int);
            let ghost prefix1 = cites@.subrange(0, t + 1);
            proof {
                assert(prefix1.drop_last() =~= prefix);
                assert(prefix1.last() == cites@[t as int]);
            }
            let c: Citation = cites[t];
            match c {
                Citation::Line(j) => {
                    if !self.is_visible(j, index) {
                        proof {
                            lemma_first_cite_error_at(*self, index as int, cites@, t as int);
                        }
                        return Err(VerificationError::NotVisible { cited: j });
                    }
                    match self.lines[j].expr {
                        None => {
                            proof {
                                lemma_first_cite_error_at(*self, index as int, cites@, t as int);
                            }
                            return Err(VerificationError::Unparsed { line: j });
                        },
                        Some(hj) => {
                            premises.push(clone_expr(self.pool.get(hj)));
                            proof {
                                assert(exprs_view(premises@) =~= resolved_premises(
                                    *self,
                                    prefix1,
                                ));
                                assert(pairs_view(subproofs@) =~= resolved_subproofs(
                                    *self,
                                    prefix1,
                                ));
                            }
                        },
                    }
                },
                Citation::Subproof(j) => {
                    if !self.is_subproof_visible(j, index) {
                        proof {
                            lemma_first_cite_error_at(*self, index as int, cites@, t as int);
                        }
                        return Err(VerificationError::NotVisible { cited: j });
                    }
                    let e: usize = self.subproof_end_ex(j);
                    let ha: usize = match self.lines[j].expr {
                        None => {
                            proof {
                                lemma_first_cite_error_at(*self, index as int, cites@, t as int);
                            }
                            return Err(VerificationError::Unparsed { line: j });
                        },
                        Some(ha) => ha,
                    };
                    let hr: usize = match self.lines[e].expr {
                        None => {
                            proof {
                                lemma_first_cite_error_at(*self, index as int, cites@, t as int);
                            }
                            return Err(VerificationError::Unparsed { line: e });
                        },
                        Some(hr) => hr,
                    };
                    subproofs.push(
                        (clone_expr(self.pool.get(ha)), clone_expr(self.pool.get(hr))),
                    );
                    proof {
                        assert(exprs_view(premises@) =~= resolved_premises(*self, prefix1));
                        assert(pairs_view(subproofs@) =~= resolved_subproofs(*self, prefix1));
                    }
                },
            }
            t = t + 1;
        }
        proof {
            lemma_no_cite_error(*self, index as int, cites@);
            assert(cites@.subrange(0, cites@.len() as int) =~= cites@);
        }
        match rule_verify(&self.lines[index].rule, conclusion, &premises, &subproofs) {
            Ok(()) => Ok(()),
            Err(v) => Err(VerificationError::Rule { violation: v }),
        }
    }
}


/// The character of one decimal digit.
pub open spec fn digit_char(d: int) -> char {
    if d == 0 {
        '0'
    } else if d == 1 {
        '1'
    } else if d == 2 {
        '2'
    } else if d == 3 {
        '3'
    } else if d == 4 {
        '4'
    } else if d == 5 {
        '5'
    } else if d == 6 {
        '6'
    } else if d == 7 {
        '7'
    } else if d == 8 {
        '8'
    } else {
        '9'
    }
}

/// The decimal rendering of a nonnegative number.
pub open spec fn dec_digits(n: int) -> Seq<char>
    decreases n,
{
    if n < 10 {
        seq![digit_char(n)]
    } else {
        dec_digits(n / 10).push(digit_char(n % 10))
    }
}

/// One decimal digit as text.
fn digit_str(d: usize) -> (r: &'static str)
    requires
        d < 10,
    ensures
        r@ == seq![digit_char(d as int)],
{
    let r: &'static str = if d == 0 {
        "0"
    } else if d == 1 {
        "1"
    } else if d == 2 {
        "2"
    } else if d == 3 {
        "3"
    } else if d == 4 {
        "4"
    } else if d == 5 {
        "5"
    } else if d == 6 {
        "6"
    } else if d == 7 {
        "7"
    } else if d == 8 {
        "8"
    } else {
        "9"
    };
    proof {
        reveal_strlit("0");
        reveal_strlit("1");
        reveal_strlit("2");
        reveal_strlit("3");
        reveal_strlit("4");
        reveal_strlit("5");
        reveal_strlit("6");
        reveal_strlit("7");
        reveal_strlit("8");
        reveal_strlit("9");
        assert(r@ =~= seq![digit_char(d as int)]);
    }
    r
}

/// Renders a number in decimal.
pub fn render_number(n: usize) -> (r: String)
    ensures
        r@ == dec_digits(n as int),
    decreases n,
{
    if n < 10 {
        String::from_str(digit_str(n))
    } else {
        let mut r = render_number(n / 10);
        r.append(digit_str(n % 10));
        proof {
            assert(r@ =~= dec_digits(n as int));
        }
        r
    }
}

/// The display name of a rule.
pub open spec fn rule_name(r: Rule) -> Seq<char> {
    match r {
        Rule::Assumption => "assumption"@,
        Rule::Reiteration => "reiteration"@,
        Rule::AndIntro => "and_intro"@,
        Rule::AndElim => "and_elim"@,
        Rule::OrIntro => "or_intro"@,
        Rule::ImpliesIntro => "implies_intro"@,
        Rule::ImpliesElim => "implies_elim"@,
    }
}

/// The display name of a rule, as text.
pub fn rule_name_str(r: &Rule) -> (s: &'static str)
    ensures
        s@ == rule_name(*r),
{
    match r {
        Rule::Assumption => "assumption",
        Rule::Reiteration => "reiteration",
        Rule::AndIntro => "and_intro",
        Rule::AndElim => "and_elim",
        Rule::OrIntro => "or_intro",
        Rule::ImpliesIntro => "implies_intro",
        Rule::ImpliesElim => "implies_elim",
    }
}

/// The display form of one citation.
pub open spec fn cite_text(c: Citation) -> Seq<char> {
    match c {
        Citation::Line(j) => " "@ + dec_digits(j as int),
        Citation::Subproof(j) => " s"@ + dec_digits(j as int),
    }
}

/// The display form of a citation list.
pub open spec fn cites_text(cites: Seq<Citation>) -> Seq<char>
    decreases cites.len(),
{
    if cites.len() == 0 {
        Seq::empty()
    } else {
        cites_text(cites.drop_last()) + cite_text(cites.last())
    }
}

/// The leading nesting markers of a line at the given depth.
pub open spec fn indent_text(level: int) -> Seq<char>
    decreases level,
{
    if level <= 0 {
        Seq::empty()
    } else {
        indent_text(level - 1) + "| "@
    }
}

/// The expression a line displays: the canonical rendering of its parsed
/// expression, or the raw text while it does not parse.
pub open spec fn line_expr_text(line: Line, pool: Seq<SpecExpr>) -> Seq<char> {
    match line.expr {
        Some(h) => spec_render(pool[h as int]),
        None => line.text@,
    }
}

/// One display row: nesting markers, role, expression, and for derived
/// lines the rule name and citations.
pub open spec fn display_line(line: Line, pool: Seq<SpecExpr>) -> Seq<char> {
    indent_text(line.level as int) + (if line.is_assumption {
        "assume "@
    } else {
        "show "@
    }) + line_expr_text(line, pool) + (if line.is_assumption {
        Seq::<char>::empty()
    } else {
        " by "@ + rule_name(line.rule) + cites_text(line.cites@)
    }) + "\n"@
}

/// The deterministic multi-line rendering of a proof: one row per line.
pub open spec fn spec_display(lines: Seq<Line>, pool: Seq<SpecExpr>) -> Seq<char>
    decreases lines.len(),
{
    if lines.len() == 0 {
        Seq::empty()
    } else {
        spec_display(lines.drop_last(), pool) + display_line(lines.last(), pool)
    }
}

impl LinedProof {
    /// Renders one display row.
    #[verifier::loop_isolation(false)]
    #[verifier::rlimit(60)]
    fn display_row(&self, i: usize) -> (r: String)
        requires
            self.wf(),
            i < self.lines@.len(),
        ensures
            r@ == display_line(self.lines@[i as int], self.pool@),
    {
        let line = &self.lines[i];
        let mut r = String::new();
        let mut lv: usize = 0;
        while lv < line.level
            invariant
                lv <= line.level,
                r@ == indent_text(lv as int),
            decreases line.level - lv,
        {
            r.append("| ");
            lv = lv + 1;
        }
        let ghost p1 = indent_text(line.level as int);
        if line.is_assumption {
            r.append("assume ");
        } else {
            r.append("show ");
        }
        let ghost p2 = p1 + (if line.is_assumption {
            "assume "@
        } else {
            "show "@
        });
        match line.expr {
            Some(h) => {
                let rendered = self.pool.render(h);
                r.append(rendered.as_str());
            },
            None => {
                r.append(line.text.as_str());
            },
        }
        let ghost p3 = p2 + line_expr_text(self.lines@[i as int], self.pool@);
        assert(r@ == p3);
        if !line.is_assumption {
            r.append(" by ");
            r.append(rule_name_str(&line.rule));
            let ghost cite_base = r@;
            let mut t: usize = 0;
            while t < line.cites.len()
                invariant
                    t <= line.cites@.len(),
                    r@ == cite_base + cites_text(line.cites@.subrange(0, t as int)),
                decreases line.cites@.len() - t,
            {
                proof {
                    assert(line.cites@.subrange(0, t + 1).drop_last() =~= line.cites@.subrange(
                        0,
                        t as int,
                    ));
                    assert(line.cites@.subrange(0, t + 1).last() == line.cites@[t as int]);
                }
                match line.cites[t] {
                    Citation::Line(j) => {
                        r.append(" ");
                        let num = render_number(j);
                        r.append(num.as_str());
                    },
                    Citation::Subproof(j) => {
                        r.append(" s");
                        let num = render_number(j);
                        r.append(num.as_str());
                    },
                }
                proof {
                    assert(r@ =~= cite_base + cites_text(line.cites@.subrange(0, t + 1)));
                }
                t = t + 1;
            }
            proof {
                assert(line.cites@.subrange(0, line.cites@.len() as int) =~= line.cites@);
            }
        }
        let ghost p4 = p3 + (if line.is_assumption {
            Seq::<char>::empty()
        } else {
            " by "@ + rule_name(line.rule) + cites_text(line.cites@)
        });
        assert(r@ =~= p4);
        r.append("\n");
        proof {
            assert(r@ =~= display_line(self.lines@[i as int], self.pool@));
        }
        r
    }

    /// Renders the whole proof for diagnostics: deterministic, one row per
    /// line, nesting shown by leading markers, rule and citations inline.
    #[verifier::loop_isolation(false)]
    pub fn to_display_string(&self) -> (r: String)
        requires
            self.wf(),
        ensures
            r@ == spec_display(self.lines@, self.pool@),
    {
        let mut r = String::new();
        proof {
            assert(r@ =~= spec_display(self.lines@.subrange(0, 0), self.pool@));
        }
        let mut i: usize = 0;
        while i < self.lines.len()
            invariant
                i <= self.lines@.len(),
                r@ == spec_display(self.lines@.subrange(0, i as int), self.pool@),
            decreases self.lines@.len() - i,
        {
            let row = self.display_row(i);
            r.append(row.as_str());
            proof {
                assert(self.lines@.subrange(0, i + 1).drop_last() =~= self.lines@.subrange(
                    0,
                    i as int,
                ));
                assert(self.lines@.subrange(0, i + 1).last() == self.lines@[i as int]);
                assert(r@ =~= spec_display(self.lines@.subrange(0, i + 1), self.pool@));
            }
            i = i + 1;
        }
        proof {
            assert(self.lines@.subrange(0, self.lines@.len() as int) =~= self.lines@);
        }
        r
    }
}

} // verus!
