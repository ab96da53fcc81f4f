use fitch_core::document::from_document;
use fitch_core::lined::Citation;
use fitch_core::lined::EditError;
use fitch_core::lined::LinedProof;
use fitch_core::lined::VerificationError;
use fitch_core::rules::Rule;
use fitch_core::rules::RuleViolation;

/// Inserts a line at the end and sets its text, panicking on rejection.
fn push_line(p: &mut LinedProof, at: usize, is_assumption: bool, level: usize, text: &str) {
    p.insert_line(at, is_assumption, level).expect("insert must attach");
    p.set_line_text(at, text).expect("index exists");
}

#[test]
fn scenario_reiteration_then_conjunction_elimination() {
    // Insert assumption "P" at level 0 position 0; insert a derived line at
    // level 0 position 1 with rule reiteration citing line 0, text "P":
    // verification succeeds.
    let mut p = LinedProof::new();
    push_line(&mut p, 0, true, 0, "P");
    push_line(&mut p, 1, false, 0, "P");
    p.set_line_rule(1, Rule::Reiteration, vec![Citation::Line(0)])
        .expect("line 1 exists");
    assert!(p.verify_line(1).is_ok());

    // Changing line 1's rule to conjunction-elimination with the same
    // citation is rejected: the premise is no conjunction.
    p.set_line_rule(1, Rule::AndElim, vec![Citation::Line(0)])
        .expect("line 1 exists");
    let verdict = p.verify_line(1);
    assert!(matches!(
        verdict,
        Err(VerificationError::Rule { violation: RuleViolation::Mismatch })
    ));
}

#[test]
fn conjunction_elimination_shapes_and_verdicts() {
    let mut p = LinedProof::new();
    push_line(&mut p, 0, true, 0, "(P&Q)");
    push_line(&mut p, 1, false, 0, "P");

    // Zero premises: wrong shape.
    p.set_line_rule(1, Rule::AndElim, vec![]).expect("line 1 exists");
    assert!(matches!(
        p.verify_line(1),
        Err(VerificationError::Rule { violation: RuleViolation::Shape { .. } })
    ));

    // One premise that is a conjunction, conclusion its left conjunct.
    p.set_line_rule(1, Rule::AndElim, vec![Citation::Line(0)]).expect("line 1 exists");
    assert!(p.verify_line(1).is_ok());

    // Right conjunct succeeds too.
    p.set_line_text(1, "Q").expect("line 1 exists");
    assert!(p.verify_line(1).is_ok());

    // A conclusion that is no conjunct of the premise is rejected.
    p.set_line_text(1, "R").expect("line 1 exists");
    assert!(matches!(
        p.verify_line(1),
        Err(VerificationError::Rule { violation: RuleViolation::Mismatch })
    ));
}

#[test]
fn assumption_verifies_regardless_of_content() {
    let mut p = LinedProof::new();
    push_line(&mut p, 0, true, 0, "((P|Q)->~R)");
    push_line(&mut p, 1, true, 0, "this does not parse ((");
    push_line(&mut p, 2, true, 0, "P");
    assert!(p.verify_line(0).is_ok());
    assert!(p.verify_line(1).is_ok());
    assert!(p.verify_line(2).is_ok());
}

#[test]
fn closed_subproof_is_not_visible() {
    // assume P; open a subproof (assume Q, reiterate Q); then a top-level
    // line citing the subproof's inner line directly must fail with a
    // visibility error.
    let mut p = LinedProof::new();
    push_line(&mut p, 0, true, 0, "P");
    push_line(&mut p, 1, true, 1, "Q");
    push_line(&mut p, 2, false, 1, "Q");
    p.set_line_rule(2, Rule::Reiteration, vec![Citation::Line(1)])
        .expect("line 2 exists");
    assert!(p.verify_line(2).is_ok());

    push_line(&mut p, 3, false, 0, "Q");
    p.set_line_rule(3, Rule::Reiteration, vec![Citation::Line(2)])
        .expect("line 3 exists");
    assert!(matches!(
        p.verify_line(3),
        Err(VerificationError::NotVisible { cited: 2 })
    ));
}

#[test]
fn implication_introduction_cites_a_subproof() {
    let mut p = LinedProof::new();
    push_line(&mut p, 0, true, 0, "P");
    push_line(&mut p, 1, true, 1, "Q");
    push_line(&mut p, 2, false, 1, "Q");
    p.set_line_rule(2, Rule::Reiteration, vec![Citation::Line(1)])
        .expect("line 2 exists");
    push_line(&mut p, 3, false, 0, "(Q->Q)");
    p.set_line_rule(3, Rule::ImpliesIntro, vec![Citation::Subproof(1)])
        .expect("line 3 exists");
    assert!(p.verify_line(3).is_ok());

    // The subproof is only citable as a subproof once it has closed: the
    // inner line cannot cite its own subproof.
    p.set_line_rule(2, Rule::ImpliesIntro, vec![Citation::Subproof(1)])
        .expect("line 2 exists");
    assert!(matches!(
        p.verify_line(2),
        Err(VerificationError::NotVisible { cited: 1 })
    ));
}

#[test]
fn implication_elimination_takes_premises_in_order() {
    let mut p = LinedProof::new();
    push_line(&mut p, 0, true, 0, "P");
    push_line(&mut p, 1, true, 0, "(P->Q)");
    push_line(&mut p, 2, false, 0, "Q");
    p.set_line_rule(2, Rule::ImpliesElim, vec![Citation::Line(0), Citation::Line(1)])
        .expect("line 2 exists");
    assert!(p.verify_line(2).is_ok());

    // Swapped citation order does not fit the rule's stated premise order.
    p.set_line_rule(2, Rule::ImpliesElim, vec![Citation::Line(1), Citation::Line(0)])
        .expect("line 2 exists");
    assert!(matches!(
        p.verify_line(2),
        Err(VerificationError::Rule { violation: RuleViolation::Mismatch })
    ));
}

#[test]
fn conjunction_and_disjunction_introduction() {
    let mut p = LinedProof::new();
    push_line(&mut p, 0, true, 0, "P");
    push_line(&mut p, 1, true, 0, "Q");
    push_line(&mut p, 2, false, 0, "(P&Q)");
    p.set_line_rule(2, Rule::AndIntro, vec![Citation::Line(0), Citation::Line(1)])
        .expect("line 2 exists");
    assert!(p.verify_line(2).is_ok());

    push_line(&mut p, 3, false, 0, "(R|P)");
    p.set_line_rule(3, Rule::OrIntro, vec![Citation::Line(0)]).expect("line 3 exists");
    assert!(p.verify_line(3).is_ok());

    // The disjunction must actually contain the premise.
    p.set_line_text(3, "(R|S)").expect("line 3 exists");
    assert!(matches!(
        p.verify_line(3),
        Err(VerificationError::Rule { violation: RuleViolation::Mismatch })
    ));
}

#[test]
fn unparsed_lines_surface_as_dependency_errors() {
    let mut p = LinedProof::new();
    push_line(&mut p, 0, true, 0, "P &");
    push_line(&mut p, 1, false, 0, "P");
    p.set_line_rule(1, Rule::Reiteration, vec![Citation::Line(0)])
        .expect("line 1 exists");
    // The cited line kept its text but has no expression.
    assert!(matches!(
        p.verify_line(1),
        Err(VerificationError::Unparsed { line: 0 })
    ));

    // A derived line whose own text does not parse reports itself.
    p.set_line_text(1, "P)").expect("line 1 exists");
    assert!(matches!(
        p.verify_line(1),
        Err(VerificationError::Unparsed { line: 1 })
    ));

    // An index past the end names no line.
    assert!(matches!(
        p.verify_line(9),
        Err(VerificationError::NoSuchLine { index: 9 })
    ));
}

#[test]
fn edits_that_break_nesting_are_rejected() {
    let mut p = LinedProof::new();
    push_line(&mut p, 0, true, 0, "P");

    // Jumping two levels deep is rejected, not clamped.
    assert!(matches!(
        p.insert_line(1, true, 2),
        Err(EditError::BadLevel { at: 1, level: 2 })
    ));
    // Deepening without an assumption is rejected.
    assert!(matches!(
        p.insert_line(1, false, 1),
        Err(EditError::BadLevel { at: 1, level: 1 })
    ));
    // Inserting past the end is rejected.
    assert!(matches!(
        p.insert_line(5, true, 0),
        Err(EditError::OutOfBounds { index: 5 })
    ));
    // The first line of a proof stands at the top level.
    let mut q = LinedProof::new();
    assert!(matches!(
        q.insert_line(0, true, 1),
        Err(EditError::BadLevel { at: 0, level: 1 })
    ));
    // A rejected edit leaves the proof unchanged.
    assert_eq!(p.len(), 1);

    // Inserting a shallower line inside a subproof is rejected when the
    // following derived line could no longer attach: it would sit one level
    // deeper without an assumption opening it.
    let mut r = LinedProof::new();
    push_line(&mut r, 0, true, 0, "P");
    push_line(&mut r, 1, true, 1, "Q");
    push_line(&mut r, 2, false, 1, "Q");
    r.set_line_rule(2, Rule::Reiteration, vec![Citation::Line(1)])
        .expect("line 2 exists");
    assert!(matches!(
        r.insert_line(2, false, 0),
        Err(EditError::BadLevel { at: 2, level: 0 })
    ));
}

#[test]
fn cursor_follows_inserts_and_moves() {
    let mut p = LinedProof::new();
    push_line(&mut p, 0, true, 0, "P");
    assert_eq!(p.cursor, 1);
    push_line(&mut p, 1, false, 0, "P");
    assert_eq!(p.cursor, 2);
    p.move_cursor(0).expect("line 0 exists");
    assert_eq!(p.cursor, 1);
    assert!(matches!(
        p.move_cursor(7),
        Err(EditError::OutOfBounds { index: 7 })
    ));
}

#[test]
fn display_is_deterministic_and_shows_structure() {
    let mut p = LinedProof::new();
    push_line(&mut p, 0, true, 0, "P");
    push_line(&mut p, 1, true, 1, "Q");
    push_line(&mut p, 2, false, 1, "Q");
    p.set_line_rule(2, Rule::Reiteration, vec![Citation::Line(1)])
        .expect("line 2 exists");
    push_line(&mut p, 3, false, 0, "(Q->Q)");
    p.set_line_rule(3, Rule::ImpliesIntro, vec![Citation::Subproof(1)])
        .expect("line 3 exists");
    let shown = p.to_display_string();
    assert_eq!(
        shown,
        "assume P\n| assume Q\n| show Q by reiteration 1\nshow (Q->Q) by implies_intro s1\n"
    );
    // Identical content renders identically.
    assert_eq!(shown, p.to_display_string());
}

#[test]
fn document_round_trip_preserves_display() {
    let mut p = LinedProof::new();
    push_line(&mut p, 0, true, 0, "P");
    push_line(&mut p, 1, true, 1, "Q");
    push_line(&mut p, 2, false, 1, "Q");
    p.set_line_rule(2, Rule::Reiteration, vec![Citation::Line(1)])
        .expect("line 2 exists");
    push_line(&mut p, 3, false, 0, "(Q->Q)");
    p.set_line_rule(3, Rule::ImpliesIntro, vec![Citation::Subproof(1)])
        .expect("line 3 exists");
    // A line that does not parse survives the trip verbatim.
    push_line(&mut p, 4, false, 0, "broken ((");

    let d = p.to_document();
    let q = from_document(&d).expect("a saved document loads");
    assert_eq!(q.to_display_string(), p.to_display_string());

    // Verdicts carry over as well.
    assert!(q.verify_line(2).is_ok());
    assert!(q.verify_line(3).is_ok());
}

#[test]
fn malformed_documents_fail_closed() {
    let mut p = LinedProof::new();
    push_line(&mut p, 0, true, 0, "P");
    push_line(&mut p, 1, true, 1, "Q");
    let mut d = p.to_document();
    // Corrupt the nesting: a two-level jump.
    d.records[1].level = 2;
    let loaded = from_document(&d);
    assert!(loaded.is_err());
    assert_eq!(loaded.err().map(|fe| fe.at), Some(1));
}

#[test]
fn empty_proof_round_trips_and_displays_nothing() {
    let p = LinedProof::new();
    assert_eq!(p.to_display_string(), "");
    let d = p.to_document();
    let q = from_document(&d).expect("an empty document loads");
    assert_eq!(q.to_display_string(), "");
    assert_eq!(q.len(), 0);
}

#[test]
fn assumptions_ignore_their_stored_justification() {
    let mut p = LinedProof::new();
    push_line(&mut p, 0, true, 0, "P");
    // Even a nonsensical stored rule and citations leave an assumption
    // trivially justified.
    p.set_line_rule(0, Rule::ImpliesElim, vec![Citation::Line(7), Citation::Subproof(9)])
        .expect("line 0 exists");
    assert!(p.verify_line(0).is_ok());
}

#[test]
fn text_edits_out_of_bounds_are_rejected() {
    let mut p = LinedProof::new();
    push_line(&mut p, 0, true, 0, "P");
    assert!(matches!(
        p.set_line_text(3, "Q"),
        Err(EditError::OutOfBounds { index: 3 })
    ));
    assert!(matches!(
        p.set_line_rule(3, Rule::Reiteration, vec![]),
        Err(EditError::OutOfBounds { index: 3 })
    ));
}

#[test]
fn implication_introduction_needs_exactly_one_subproof() {
    let mut p = LinedProof::new();
    push_line(&mut p, 0, true, 0, "P");
    push_line(&mut p, 1, false, 0, "(P->P)");
    p.set_line_rule(1, Rule::ImpliesIntro, vec![]).expect("line 1 exists");
    assert!(matches!(
        p.verify_line(1),
        Err(VerificationError::Rule { violation: RuleViolation::Shape { .. } })
    ));
    // A single-line citation is not a subproof citation.
    p.set_line_rule(1, Rule::ImpliesIntro, vec![Citation::Line(0)])
        .expect("line 1 exists");
    assert!(matches!(
        p.verify_line(1),
        Err(VerificationError::Rule { violation: RuleViolation::Shape { .. } })
    ));
}

#[test]
fn loaded_documents_keep_unparsed_texts_verbatim() {
    let mut p = LinedProof::new();
    push_line(&mut p, 0, true, 0, "q(");
    let d = p.to_document();
    assert_eq!(d.records[0].text, "q(");
    let q = from_document(&d).expect("valid nesting loads");
    // The text survived; the line still has no expression, so a derived
    // line citing it would fail, but the assumption itself verifies.
    assert!(q.verify_line(0).is_ok());
    assert_eq!(q.to_display_string(), "assume q(\n");
}
