//! Parsing of formula text.
//!
//! The accepted grammar is exactly the canonical rendering of well-formed
//! formulas: an identifier, a `~`-prefixed negation, or a fully
//! parenthesized binary connective (`&`, `|`, `->`), with no whitespace.
//! A text therefore parses if and only if it is the canonical rendering of
//! some well-formed formula, and the parser is specified in those terms.

use vstd::prelude::*;
use crate::expr::Expr;
use crate::expr::SpecExpr;
use crate::expr::is_ident_char;
use crate::expr::wf_expr;
use crate::expr::spec_render;

verus! {

/// The text does not match the expression grammar; the offending text is
/// retained verbatim.
#[derive(Debug)]
pub struct ParseError {
    pub text: String,
}

/// Holds when `e` is a well-formed formula whose canonical rendering is
/// exactly the characters `i..j` of `s`.
pub open spec fn renders_at(e: SpecExpr, s: Seq<char>, i: int, j: int) -> bool {
    0 <= i <= j <= s.len() && wf_expr(e) && spec_render(e) == s.subrange(i, j)
}

/// A rendering ending at `j` is maximal if the next character cannot extend
/// an identifier.
pub open spec fn stops_at(s: Seq<char>, j: int) -> bool {
    j == s.len() || !is_ident_char(s[j])
}

/// The first character of a rendering identifies the shape of the formula.
pub proof fn lemma_render_head(e: SpecExpr)
    requires
        wf_expr(e),
    ensures
        spec_render(e).len() > 0,
        e is Var <==> is_ident_char(spec_render(e)[0]),
        e is Not <==> spec_render(e)[0] == '~',
        (e is And || e is Or || e is Implies) <==> spec_render(e)[0] == '(',
{
    match e {
        SpecExpr::Var(s) => {
            assert(is_ident_char(spec_render(e)[0]));
        },
        SpecExpr::Not(a) => {
            assert(spec_render(e)[0] == '~');
        },
        SpecExpr::And(a, b) => {
            assert(spec_render(e)[0] == '(');
        },
        SpecExpr::Or(a, b) => {
            assert(spec_render(e)[0] == '(');
        },
        SpecExpr::Implies(a, b) => {
            assert(spec_render(e)[0] == '(');
        },
    }
}

/// Decomposes the rendering of a negation.
pub proof fn lemma_not_parts(a: SpecExpr, s: Seq<char>, i: int, j: int)
    requires
        renders_at(SpecExpr::Not(Box::new(a)), s, i, j),
    ensures
        s[i] == '~',
        renders_at(a, s, i + 1, j),
{
    let ra = spec_render(a);
    assert(s.subrange(i, j) == seq!['~'] + ra);
    assert(s[i] == s.subrange(i, j)[0]);
    assert(ra =~= s.subrange(i + 1, j)) by {
        assert forall|k: int| 0 <= k < ra.len() implies ra[k] == s.subrange(i + 1, j)[k] by {
            assert(ra[k] == (seq!['~'] + ra)[k + 1]);
            assert(s.subrange(i, j)[k + 1] == s[i + 1 + k]);
        }
    }
}

/// Decomposes the rendering of a conjunction.
pub proof fn lemma_and_parts(a: SpecExpr, b: SpecExpr, s: Seq<char>, i: int, j: int)
    requires
        renders_at(SpecExpr::And(Box::new(a), Box::new(b)), s, i, j),
    ensures
        s[i] == '(',
        renders_at(a, s, i + 1, i + 1 + spec_render(a).len()),
        i + 1 + spec_render(a).len() < j,
        s[i + 1 + spec_render(a).len()] == '&',
        renders_at(b, s, i + 2 + spec_render(a).len(), j - 1),
        s[j - 1] == ')',
{
    let ra = spec_render(a);
    let rb = spec_render(b);
    let la = ra.len() as int;
    let lb = rb.len() as int;
    let whole = seq!['('] + ra + seq!['&'] + rb + seq![')'];
    assert(s.subrange(i, j) == whole);
    assert(j - i == 3 + la + lb);
    assert forall|k: int| 0 <= k < j - i implies s[i + k] == whole[k] by {
        assert(s.subrange(i, j)[k] == s[i + k]);
    }
    assert(s[i] == whole[0]);
    assert(ra =~= s.subrange(i + 1, i + 1 + la)) by {
        assert forall|k: int| 0 <= k < la implies ra[k] == s.subrange(i + 1, i + 1 + la)[k] by {
            assert(whole[1 + k] == ra[k]);
            assert(s[i + 1 + k] == whole[1 + k]);
        }
    }
    assert(s[i + 1 + la] == whole[1 + la]);
    assert(whole[1 + la] == '&');
    assert(rb =~= s.subrange(i + 2 + la, j - 1)) by {
        assert forall|k: int| 0 <= k < lb implies rb[k] == s.subrange(i + 2 + la, j - 1)[k] by {
            assert(whole[2 + la + k] == rb[k]);
            assert(s[i + 2 + la + k] == whole[2 + la + k]);
        }
    }
    assert(s[j - 1] == whole[2 + la + lb]);
    assert(whole[2 + la + lb] == ')');
}

/// Decomposes the rendering of a disjunction.
pub proof fn lemma_or_parts(a: SpecExpr, b: SpecExpr, s: Seq<char>, i: int, j: int)
    requires
        renders_at(SpecExpr::Or(Box::new(a), Box::new(b)), s, i, j),
    ensures
        s[i] == '(',
        renders_at(a, s, i + 1, i + 1 + spec_render(a).len()),
        i + 1 + spec_render(a).len() < j,
        s[i + 1 + spec_render(a).len()] == '|',
        renders_at(b, s, i + 2 + spec_render(a).len(), j - 1),
        s[j - 1] == ')',
{
    let ra = spec_render(a);
    let rb = spec_render(b);
    let la = ra.len() as int;
    let lb = rb.len() as int;
    let whole = seq!['('] + ra + seq!['|'] + rb + seq![')'];
    assert(s.subrange(i, j) == whole);
    assert(j - i == 3 + la + lb);
    assert forall|k: int| 0 <= k < j - i implies s[i + k] == whole[k] by {
        assert(s.subrange(i, j)[k] == s[i + k]);
    }
    assert(s[i] == whole[0]);
    assert(ra =~= s.subrange(i + 1, i + 1 + la)) by {
        assert forall|k: int| 0 <= k < la implies ra[k] == s.subrange(i + 1, i + 1 + la)[k] by {
            assert(whole[1 + k] == ra[k]);
            assert(s[i + 1 + k] == whole[1 + k]);
        }
    }
    assert(s[i + 1 + la] == whole[1 + la]);
    assert(whole[1 + la] == '|');
    assert(rb =~= s.subrange(i + 2 + la, j - 1)) by {
        assert forall|k: int| 0 <= k < lb implies rb[k] == s.subrange(i + 2 + la, j - 1)[k] by {
            assert(whole[2 + la + k] == rb[k]);
            assert(s[i + 2 + la + k] == whole[2 + la + k]);
        }
    }
    assert(s[j - 1] == whole[2 + la + lb]);
    assert(whole[2 + la + lb] == ')');
}

/// Decomposes the rendering of an implication.
pub proof fn lemma_implies_parts(a: SpecExpr, b: SpecExpr, s: Seq<char>, i: int, j: int)
    requires
        renders_at(SpecExpr::Implies(Box::new(a), Box::new(b)), s, i, j),
    ensures
        s[i] == '(',
        renders_at(a, s, i + 1, i + 1 + spec_render(a).len()),
        i + 2 + spec_render(a).len() < j,
        s[i + 1 + spec_render(a).len()] == '-',
        s[i + 2 + spec_render(a).len()] == '>',
        renders_at(b, s, i + 3 + spec_render(a).len(), j - 1),
        s[j - 1] == ')',
{
    let ra = spec_render(a);
    let rb = spec_render(b);
    let la = ra.len() as int;
    let lb = rb.len() as int;
    let whole = seq!['('] + ra + seq!['-', '>'] + rb + seq![')'];
    assert(s.subrange(i, j) == whole);
    assert(j - i == 4 + la + lb);
    assert forall|k: int| 0 <= k < j - i implies s[i + k] == whole[k] by {
        assert(s.subrange(i, j)[k] == s[i + k]);
    }
    assert(s[i] == whole[0]);
    assert(ra =~= s.subrange(i + 1, i + 1 + la)) by {
        assert forall|k: int| 0 <= k < la implies ra[k] == s.subrange(i + 1, i + 1 + la)[k] by {
            assert(whole[1 + k] == ra[k]);
            assert(s[i + 1 + k] == whole[1 + k]);
        }
    }
    assert(s[i + 1 + la] == whole[1 + la]);
    assert(whole[1 + la] == '-');
    assert(s[i + 2 + la] == whole[2 + la]);
    assert(whole[2 + la] == '>');
    assert(rb =~= s.subrange(i + 3 + la, j - 1)) by {
        assert forall|k: int| 0 <= k < lb implies rb[k] == s.subrange(i + 3 + la, j - 1)[k] by {
            assert(whole[3 + la + k] == rb[k]);
            assert(s[i + 3 + la + k] == whole[3 + la + k]);
        }
    }
    assert(s[j - 1] == whole[3 + la + lb]);
    assert(whole[3 + la + lb] == ')');
}

/// Decides `is_ident_char`.
fn ident_char(c: char) -> (b: bool)
    ensures
        b == is_ident_char(c),
{
    let u: u32 = c as u32;
    (65 <= u && u <= 90) || (97 <= u && u <= 122) || (48 <= u && u <= 57)
}

/// Parses one formula starting at character position `i` of `s`.
///
/// On success the result is the unique well-formed formula whose rendering
/// is a maximal prefix of `s` starting at `i`; the second ensures clause
/// states that any candidate rendering with a maximal end position is the
/// one returned, so failure means no such rendering exists.
fn parse_at(s: &str, i: usize) -> (r: Option<(Expr, usize)>)
    requires
        i <= s@.len(),
    ensures
        match r {
            Some((e, j)) => i < j <= s@.len() && renders_at(e@, s@, i as int, j as int),
            None => true,
        },
        forall|e2: SpecExpr, j2: int|
            #[trigger] renders_at(e2, s@, i as int, j2) && stops_at(s@, j2) ==> r is Some
                && r.unwrap().0@ == e2 && r.unwrap().1 == j2,
    decreases s@.len() - i, 1int,
{
    let n: usize = s.unicode_len();
    if i >= n {
        proof {
            assert forall|e2: SpecExpr, j2: int|
                renders_at(e2, s@, i as int, j2) && stops_at(s@, j2) implies false by {
                lemma_render_head(e2);
            }
        }
        return None;
    }
    let c0 = s.get_char(i);
    if ident_char(c0) {
        let mut j: usize = i + 1;
        while j < n && ident_char(s.get_char(j))
            invariant
                i < j <= n,
                n == s@.len(),
                forall|k: int| i <= k < j ==> is_ident_char(s@[k]),
            decreases n - j,
        {
            j = j + 1;
        }
        let name = s.substring_char(i, j).to_owned();
        let e = Expr::Var(name);
        proof {
            assert(e@ == SpecExpr::Var(s@.subrange(i as int, j as int)));
            assert(renders_at(e@, s@, i as int, j as int));
            assert forall|e2: SpecExpr, j2: int|
                renders_at(e2, s@, i as int, j2) && stops_at(s@, j2) implies e2 == e@ && j2 == j by {
                lemma_render_head(e2);
                assert(spec_render(e2)[0] == s@.subrange(i as int, j2)[0]);
                assert(is_ident_char(s@[i as int]));
                assert(e2 is Var);
                let name2 = spec_render(e2);
                assert(name2 == s@.subrange(i as int, j2));
                if j2 < j {
                    assert(is_ident_char(s@[j2]));
                    assert(false);
                }
                if j2 > j {
                    assert(name2[j - i] == s@[j as int]);
                    assert(is_ident_char(s@[j as int]));
                    assert(false);
                }
                assert(e2 == SpecExpr::Var(s@.subrange(i as int, j as int)));
            }
        }
        Some((e, j))
    } else if c0 == '~' {
        match parse_at(s, i + 1) {
            Some((inner, j)) => {
                let e = Expr::Not(Box::new(inner));
                proof {
                    assert(spec_render(e@) =~= s@.subrange(i as int, j as int)) by {
                        assert(spec_render(inner@) == s@.subrange(i + 1, j as int));
                        assert forall|k: int| 0 <= k < j - i implies spec_render(e@)[k] == s@.subrange(
                            i as int,
                            j as int,
                        )[k] by {
                            if k > 0 {
                                assert(spec_render(e@)[k] == spec_render(inner@)[k - 1]);
                                assert(s@.subrange(i + 1, j as int)[k - 1] == s@[i + k]);
                            }
                        }
                    }
                    assert(renders_at(e@, s@, i as int, j as int));
                    assert forall|e2: SpecExpr, j2: int|
                        renders_at(e2, s@, i as int, j2) && stops_at(s@, j2) implies e2 == e@ && j2
                        == j by {
                        lemma_render_head(e2);
                        assert(spec_render(e2)[0] == s@.subrange(i as int, j2)[0]);
                        assert(e2 is Not);
                        let a2 = *(e2->Not_0);
                        assert(e2 == SpecExpr::Not(Box::new(a2)));
                        lemma_not_parts(a2, s@, i as int, j2);
                        assert(renders_at(a2, s@, i + 1, j2));
                    }
                }
                Some((e, j))
            },
            None => {
                proof {
                    assert forall|e2: SpecExpr, j2: int|
                        renders_at(e2, s@, i as int, j2) && stops_at(s@, j2) implies false by {
                        lemma_render_head(e2);
                        assert(spec_render(e2)[0] == s@.subrange(i as int, j2)[0]);
                        assert(e2 is Not);
                        let a2 = *(e2->Not_0);
                        assert(e2 == SpecExpr::Not(Box::new(a2)));
                        lemma_not_parts(a2, s@, i as int, j2);
                    }
                }
                None
            },
        }
    } else if c0 == '(' {
        parse_binary(s, i, n)
    } else {
        proof {
            assert forall|e2: SpecExpr, j2: int|
                renders_at(e2, s@, i as int, j2) && stops_at(s@, j2) implies false by {
                lemma_render_head(e2);
                assert(spec_render(e2)[0] == s@[i as int]);
            }
        }
        None
    }
}

/// Parses a parenthesized binary connective whose `(` stands at position `i`.
fn parse_binary(s: &str, i: usize, n: usize) -> (r: Option<(Expr, usize)>)
    requires
        i < n,
        n == s@.len(),
        s@[i as int] == '(',
    ensures
        match r {
            Some((e, j)) => i < j <= s@.len() && renders_at(e@, s@, i as int, j as int),
            None => true,
        },
        forall|e2: SpecExpr, j2: int|
            #[trigger] renders_at(e2, s@, i as int, j2) && stops_at(s@, j2) ==> r is Some
                && r.unwrap().0@ == e2 && r.unwrap().1 == j2,
    decreases s@.len() - i, 0int,
{
    let left = parse_at(s, i + 1);
    proof {
        assert forall|e2: SpecExpr, j2: int|
            renders_at(e2, s@, i as int, j2) && stops_at(s@, j2) implies binary_candidate_parts(
            e2,
            s@,
            i as int,
            j2,
        ) by {
            lemma_binary_candidate(e2, s@, i as int, j2);
        }
    }
    match left {
        None => {
            proof {
                assert forall|e2: SpecExpr, j2: int|
                    renders_at(e2, s@, i as int, j2) && stops_at(s@, j2) implies false by {
                    assert(binary_candidate_parts(e2, s@, i as int, j2));
                }
            }
            None
        },
        Some((a, k)) => {
            if k >= n {
                proof {
                    assert forall|e2: SpecExpr, j2: int|
                        renders_at(e2, s@, i as int, j2) && stops_at(s@, j2) implies false by {
                        assert(binary_candidate_parts(e2, s@, i as int, j2));
                    }
                }
                None
            } else {
                let op = s.get_char(k);
                if op == '&' || op == '|' {
                    match parse_at(s, k + 1) {
                        None => {
                            proof {
                                assert forall|e2: SpecExpr, j2: int|
                                    renders_at(e2, s@, i as int, j2) && stops_at(
                                        s@,
                                        j2,
                                    ) implies false by {
                                    assert(binary_candidate_parts(e2, s@, i as int, j2));
                                }
                            }
                            None
                        },
                        Some((b, m)) => {
                            if m < n && s.get_char(m) == ')' {
                                let e = if op == '&' {
                                    Expr::And(Box::new(a), Box::new(b))
                                } else {
                                    Expr::Or(Box::new(a), Box::new(b))
                                };
                                proof {
                                    lemma_binary_compose(
                                        e@,
                                        a@,
                                        b@,
                                        s@,
                                        i as int,
                                        k as int,
                                        m as int,
                                    );
                                    assert forall|e2: SpecExpr, j2: int|
                                        renders_at(e2, s@, i as int, j2) && stops_at(
                                            s@,
                                            j2,
                                        ) implies e2 == e@ && j2 == m + 1 by {
                                        assert(binary_candidate_parts(e2, s@, i as int, j2));
                                    }
                                }
                                Some((e, m + 1))
                            } else {
                                proof {
                                    assert forall|e2: SpecExpr, j2: int|
                                        renders_at(e2, s@, i as int, j2) && stops_at(
                                            s@,
                                            j2,
                                        ) implies false by {
                                        assert(binary_candidate_parts(e2, s@, i as int, j2));
                                    }
                                }
                                None
                            }
                        },
                    }
                } else if op == '-' {
                    if k + 1 < n && s.get_char(k + 1) == '>' {
                        match parse_at(s, k + 2) {
                            None => {
                                proof {
                                    assert forall|e2: SpecExpr, j2: int|
                                        renders_at(e2, s@, i as int, j2) && stops_at(
                                            s@,
                                            j2,
                                        ) implies false by {
                                        assert(binary_candidate_parts(e2, s@, i as int, j2));
                                    }
                                }
                                None
                            },
                            Some((b, m)) => {
                                if m < n && s.get_char(m) == ')' {
                                    let e = Expr::Implies(Box::new(a), Box::new(b));
                                    proof {
                                        lemma_binary_compose(
                                            e@,
                                            a@,
                                            b@,
                                            s@,
                                            i as int,
                                            k as int,
                                            m as int,
                                        );
                                        assert forall|e2: SpecExpr, j2: int|
                                            renders_at(e2, s@, i as int, j2) && stops_at(
                                                s@,
                                                j2,
                                            ) implies e2 == e@ && j2 == m + 1 by {
                                            assert(binary_candidate_parts(e2, s@, i as int, j2));
                                        }
                                    }
                                    Some((e, m + 1))
                                } else {
                                    proof {
                                        assert forall|e2: SpecExpr, j2: int|
                                            renders_at(e2, s@, i as int, j2) && stops_at(
                                                s@,
                                                j2,
                                            ) implies false by {
                                            assert(binary_candidate_parts(e2, s@, i as int, j2));
                                        }
                                    }
                                    None
                                }
                            },
                        }
                    } else {
                        proof {
                            assert forall|e2: SpecExpr, j2: int|
                                renders_at(e2, s@, i as int, j2) && stops_at(
                                    s@,
                                    j2,
                                ) implies false by {
                                assert(binary_candidate_parts(e2, s@, i as int, j2));
                            }
                        }
                        None
                    }
                } else {
                    proof {
                        assert forall|e2: SpecExpr, j2: int|
                            renders_at(e2, s@, i as int, j2) && stops_at(s@, j2) implies false by {
                            assert(binary_candidate_parts(e2, s@, i as int, j2));
                        }
                    }
                    None
                }
            }
        },
    }
}

/// What a candidate rendering of a binary connective looks like, phrased
/// over the positions of its operand renderings.
pub open spec fn binary_candidate_parts(e: SpecExpr, s: Seq<char>, i: int, j: int) -> bool {
    exists|a: SpecExpr, k: int|
        {
            &&& i + 1 < k < j - 1
            &&& #[trigger] renders_at(a, s, i + 1, k)
            &&& stops_at(s, k)
            &&& s[j - 1] == ')'
            &&& stops_at(s, j - 1)
            &&& match e {
                SpecExpr::And(x, y) => *x == a && s[k] == '&' && renders_at(*y, s, k + 1, j - 1),
                SpecExpr::Or(x, y) => *x == a && s[k] == '|' && renders_at(*y, s, k + 1, j - 1),
                SpecExpr::Implies(x, y) => *x == a && s[k] == '-' && k + 1 < j - 1 && s[k + 1]
                    == '>' && renders_at(*y, s, k + 2, j - 1),
                _ => false,
            }
        }
}

/// A candidate rendering that begins with `(` decomposes into binary parts.
pub proof fn lemma_binary_candidate(e: SpecExpr, s: Seq<char>, i: int, j: int)
    requires
        renders_at(e, s, i, j),
        s[i] == '(',
    ensures
        binary_candidate_parts(e, s, i, j),
{
    lemma_render_head(e);
    assert(spec_render(e)[0] == s.subrange(i, j)[0]);
    match e {
        SpecExpr::And(x, y) => {
            lemma_and_parts(*x, *y, s, i, j);
            let k = i + 1 + spec_render(*x).len() as int;
            lemma_render_head(*y);
            assert(renders_at(*x, s, i + 1, k));
            assert(stops_at(s, k));
            assert(stops_at(s, j - 1));
            assert(binary_candidate_parts(e, s, i, j));
        },
        SpecExpr::Or(x, y) => {
            lemma_or_parts(*x, *y, s, i, j);
            let k = i + 1 + spec_render(*x).len() as int;
            lemma_render_head(*y);
            assert(renders_at(*x, s, i + 1, k));
            assert(stops_at(s, k));
            assert(stops_at(s, j - 1));
            assert(binary_candidate_parts(e, s, i, j));
        },
        SpecExpr::Implies(x, y) => {
            lemma_implies_parts(*x, *y, s, i, j);
            let k = i + 1 + spec_render(*x).len() as int;
            lemma_render_head(*y);
            assert(renders_at(*x, s, i + 1, k));
            assert(stops_at(s, k));
            assert(stops_at(s, j - 1));
            assert(binary_candidate_parts(e, s, i, j));
        },
        _ => {
            assert(false);
        },
    }
}

/// Composes the rendering of a binary connective from its parsed parts.
pub proof fn lemma_binary_compose(e: SpecExpr, a: SpecExpr, b: SpecExpr, s: Seq<char>, i: int, k: int, m: int)
    requires
        0 <= i < k < m < s.len(),
        s[i] == '(',
        renders_at(a, s, i + 1, k),
        renders_at(
            b,
            s,
            if e is Implies {
                k + 2
            } else {
                k + 1
            },
            m,
        ),
        s[m] == ')',
        match e {
            SpecExpr::And(x, y) => *x == a && *y == b && s[k] == '&',
            SpecExpr::Or(x, y) => *x == a && *y == b && s[k] == '|',
            SpecExpr::Implies(x, y) => *x == a && *y == b && s[k] == '-' && k + 1 < s.len() && s[k
                + 1] == '>',
            _ => false,
        },
    ensures
        renders_at(e, s, i, m + 1),
{
    let ra = spec_render(a);
    let rb = spec_render(b);
    assert(ra == s.subrange(i + 1, k));
    match e {
        SpecExpr::And(x, y) => {
            assert(rb == s.subrange(k + 1, m));
            assert(spec_render(e) =~= s.subrange(i, m + 1)) by {
                let op_char = '&';
                let whole = seq!['('] + ra + seq!['&'] + rb + seq![')'];
                assert(spec_render(e) == whole);
                assert(ra.len() == k - i - 1);
                assert(rb.len() == m - k - 1);
                assert(whole.len() == m + 1 - i);
                assert forall|t: int| 0 <= t < whole.len() implies whole[t] == s.subrange(
                    i,
                    m + 1,
                )[t] by {
                    assert(s.subrange(i, m + 1)[t] == s[i + t]);
                    if t == 0 {
                        assert(whole[t] == '(');
                    } else if 1 <= t < 1 + ra.len() {
                        assert(whole[t] == ra[t - 1]);
                        assert(s.subrange(i + 1, k)[t - 1] == s[i + t]);
                    } else if t == k - i {
                        assert(whole[t] == op_char);
                    } else if k - i + 1 <= t < m - i {
                        assert(whole[t] == rb[t - (k - i + 1)]);
                        assert(s.subrange(k + 1, m)[t - (k - i + 1)] == s[i + t]);
                    } else {
                        assert(t == m - i);
                        assert(whole[t] == ')');
                    }
                }
            }
        },
        SpecExpr::Or(x, y) => {
            assert(rb == s.subrange(k + 1, m));
            assert(spec_render(e) =~= s.subrange(i, m + 1)) by {
                let op_char = '|';
                let whole = seq!['('] + ra + seq!['|'] + rb + seq![')'];
                assert(spec_render(e) == whole);
                assert(ra.len() == k - i - 1);
                assert(rb.len() == m - k - 1);
                assert(whole.len() == m + 1 - i);
                assert forall|t: int| 0 <= t < whole.len() implies whole[t] == s.subrange(
                    i,
                    m + 1,
                )[t] by {
                    assert(s.subrange(i, m + 1)[t] == s[i + t]);
                    if t == 0 {
                        assert(whole[t] == '(');
                    } else if 1 <= t < 1 + ra.len() {
                        assert(whole[t] == ra[t - 1]);
                        assert(s.subrange(i + 1, k)[t - 1] == s[i + t]);
                    } else if t == k - i {
                        assert(whole[t] == op_char);
                    } else if k - i + 1 <= t < m - i {
                        assert(whole[t] == rb[t - (k - i + 1)]);
                        assert(s.subrange(k + 1, m)[t - (k - i + 1)] == s[i + t]);
                    } else {
                        assert(t == m - i);
                        assert(whole[t] == ')');
                    }
                }
            }
        },
        SpecExpr::Implies(x, y) => {
            assert(rb == s.subrange(k + 2, m));
            assert(spec_render(e) =~= s.subrange(i, m + 1)) by {
                let whole = seq!['('] + ra + seq!['-', '>'] + rb + seq![')'];
                assert(spec_render(e) == whole);
                assert(ra.len() == k - i - 1);
                assert(rb.len() == m - k - 2);
                assert(whole.len() == m + 1 - i);
                assert forall|t: int| 0 <= t < whole.len() implies whole[t] == s.subrange(
                    i,
                    m + 1,
                )[t] by {
                    assert(s.subrange(i, m + 1)[t] == s[i + t]);
                    if t == 0 {
                        assert(whole[t] == '(');
                    } else if 1 <= t < 1 + ra.len() {
                        assert(whole[t] == ra[t - 1]);
                        assert(s.subrange(i + 1, k)[t - 1] == s[i + t]);
                    } else if t == k - i {
                        assert(whole[t] == '-');
                    } else if t == k - i + 1 {
                        assert(whole[t] == '>');
                    } else if k - i + 2 <= t < m - i {
                        assert(whole[t] == rb[t - (k - i + 2)]);
                        assert(s.subrange(k + 2, m)[t - (k - i + 2)] == s[i + t]);
                    } else {
                        assert(t == m - i);
                        assert(whole[t] == ')');
                    }
                }
            }
        },
        _ => {
            assert(false);
        },
    }
}

/// Parses a whole text as one formula.
///
/// Success returns exactly the well-formed formula whose canonical rendering
/// is the whole text; failure means the text is no canonical rendering.
pub fn parse_expr(s: &str) -> (r: Result<Expr, ParseError>)
    ensures
        match r {
            Ok(e) => wf_expr(e@) && spec_render(e@) == s@,
            Err(pe) => pe.text@ == s@ && (forall|e2: SpecExpr|
                wf_expr(e2) ==> spec_render(e2) != s@),
        },
{
    let n: usize = s.unicode_len();
    proof {
        assert forall|e2: SpecExpr| wf_expr(e2) && spec_render(e2) == s@ implies renders_at(
            e2,
            s@,
            0,
            s@.len() as int,
        ) && stops_at(s@, s@.len() as int) by {
            assert(s@.subrange(0, s@.len() as int) =~= s@);
        }
    }
    match parse_at(s, 0) {
        Some((e, j)) => {
            if j == n {
                proof {
                    assert(s@.subrange(0, s@.len() as int) =~= s@);
                }
                Ok(e)
            } else {
                Err(ParseError { text: s.to_owned() })
            }
        },
        None => Err(ParseError { text: s.to_owned() }),
    }
}

} // verus!
