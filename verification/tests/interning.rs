use fitch_core::pool::Pool;

#[test]
fn interning_is_deterministic_within_one_pool() {
    let mut pool = Pool::new();
    let h1 = pool.intern("P").expect("parses");
    let h2 = pool.intern("P").expect("parses");
    assert_eq!(h1, h2);
    let h3 = pool.intern("(P&(Q|~R))").expect("parses");
    let h4 = pool.intern("(P&(Q|~R))").expect("parses");
    assert_eq!(h3, h4);
    assert_ne!(h1, h3);
    // Re-interning grew nothing.
    assert_eq!(pool.len(), 2);
}

#[test]
fn render_of_intern_is_a_fixed_point() {
    let mut pool = Pool::new();
    let h = pool.intern("((P->Q)&~R)").expect("parses");
    let s = pool.render(h);
    let h2 = pool.intern(s.as_str()).expect("a canonical form re-parses");
    let s2 = pool.render(h2);
    assert_eq!(s2, s);
    assert_eq!(h2, h);
}

#[test]
fn rendering_is_canonical() {
    let mut pool = Pool::new();
    let h = pool.intern("(P17&~~Q)").expect("parses");
    assert_eq!(pool.render(h), "(P17&~~Q)");
    let h2 = pool.intern("~(P|Q)").expect("parses");
    assert_eq!(pool.render(h2), "~(P|Q)");
}

#[test]
fn texts_outside_the_grammar_are_rejected_verbatim() {
    let mut pool = Pool::new();
    // The grammar is exactly the canonical form: fully parenthesized binary
    // connectives and no whitespace.
    for bad in ["", "P & Q", "P&Q", "(P&Q", "()", "~", "(P=Q)", "P)"] {
        let err = pool.intern(bad).expect_err("outside the grammar");
        assert_eq!(err.text, bad);
    }
    // Failures grew nothing.
    assert_eq!(pool.len(), 0);
}
