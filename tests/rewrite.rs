use playground::rewrite::{functors_are_symbols, pattern_match, substitute_bindings, Bindings, Expr, Rule};

fn sym(n: &str) -> Expr {
    Expr::Sym(n.to_string())
}

fn fun(n: &str, args: Vec<Expr>) -> Expr {
    Expr::Fun(n.to_string(), args)
}

#[test]
fn terms_print() {
    assert_eq!(sym("a").to_text(), "a");
    assert_eq!(fun("f", vec![]).to_text(), "f()");
    assert_eq!(fun("pair", vec![sym("a"), fun("g", vec![sym("b")])]).to_text(), "pair(a, g(b))");
    let rule = Rule { head: fun("swap", vec![sym("x")]), body: sym("x") };
    assert_eq!(rule.to_text(), "swap(x) = x");
}

#[test]
fn matching_binds_symbols() {
    let pattern = fun("foo", vec![sym("x"), sym("y")]);
    let value = fun("foo", vec![sym("a"), fun("g", vec![sym("b")])]);
    let b = pattern_match(&pattern, &value).unwrap();
    assert_eq!(b.len(), 2);
    assert_eq!(b.get(&"x".to_string()).unwrap().to_text(), "a");
    assert_eq!(b.get(&"y".to_string()).unwrap().to_text(), "g(b)");
    assert!(b.get(&"z".to_string()).is_none());
}

#[test]
fn matching_needs_consistent_bindings() {
    let pattern = fun("foo", vec![sym("x"), sym("x")]);
    let b = pattern_match(&pattern, &fun("foo", vec![sym("a"), sym("a")])).unwrap();
    assert_eq!(b.len(), 1);
    assert_eq!(b.get(&"x".to_string()).unwrap().to_text(), "a");
    assert!(pattern_match(&pattern, &fun("foo", vec![sym("a"), sym("b")])).is_none());
}

#[test]
fn matching_needs_same_functor_and_arity() {
    let pattern = fun("foo", vec![sym("x")]);
    assert!(pattern_match(&pattern, &fun("bar", vec![sym("a")])).is_none());
    assert!(pattern_match(&pattern, &fun("foo", vec![sym("a"), sym("b")])).is_none());
    assert!(pattern_match(&pattern, &sym("a")).is_none());
}

#[test]
fn substitution_replaces_bound_names() {
    let mut b = Bindings::new();
    b.insert("a".to_string(), fun("f", vec![sym("c")]));
    b.insert("g".to_string(), sym("h"));
    let expr = fun("g", vec![sym("a"), sym("b")]);
    assert_eq!(substitute_bindings(&b, &expr).to_text(), "h(f(c), b)");
}

#[test]
fn rule_applies_when_head_matches_body() {
    // swap(pair(a, b)) = pair(b, a): the head does not match the body, so
    // the expression is rebuilt unchanged.
    let swap = Rule {
        head: fun("swap", vec![fun("pair", vec![sym("a"), sym("b")])]),
        body: fun("pair", vec![sym("b"), sym("a")]),
    };
    let expr = fun(
        "foo",
        vec![fun("swap", vec![fun("pair", vec![fun("f", vec![sym("a")]), fun("g", vec![sym("b")])])])],
    );
    assert_eq!(swap.apply_all(&expr).to_text(), "foo(swap(pair(f(a), g(b))))");
    // x = c: the head matches the body with x bound to c.
    let rule = Rule { head: sym("x"), body: sym("c") };
    assert_eq!(rule.apply_all(&fun("f", vec![sym("x"), sym("y")])).to_text(), "f(c, y)");
}

#[test]
fn same_and_duplicate() {
    let e = fun("f", vec![sym("a"), fun("g", vec![])]);
    assert!(e.same(&e.duplicate()));
    assert!(!e.same(&fun("f", vec![sym("a")])));
    assert!(!sym("a").same(&sym("b")));
}

#[test]
fn functor_bound_to_application_is_detected() {
    let mut b = Bindings::new();
    b.insert("g".to_string(), fun("k", vec![]));
    b.insert("s".to_string(), sym("t"));
    assert!(!functors_are_symbols(&b, &fun("f", vec![fun("g", vec![sym("a")])])));
    assert!(functors_are_symbols(&b, &fun("s", vec![sym("g")])));
    assert!(functors_are_symbols(&b, &sym("g")));
}
