use lambda_engine::error::LambdaError;
use lambda_engine::hygiene::NameTable;
use lambda_engine::term::Lambda;

#[test]
fn parse_variable() {
    let t = Lambda::new("x", vec![]).unwrap();
    assert!(t.eq_term(&Lambda::var("x")));
    assert_eq!(t.display(), "x");
}

#[test]
fn parse_abstraction() {
    let t = Lambda::new("%x.x", vec![]).unwrap();
    assert_eq!(t.display(), "(%x.x)");
}

#[test]
fn parse_multi_parameter_shorthand() {
    let t = Lambda::new("%x|y.x", vec![]).unwrap();
    assert!(t.eq_term(&Lambda::func("x", Lambda::func("y", Lambda::var("x")))));
    assert_eq!(t.display(), "(%x|y.x)");
}

#[test]
fn application_is_left_associative() {
    let t = Lambda::new("x y z", vec![]).unwrap();
    assert_eq!(t.display(), "((x y) z)");
}

#[test]
fn multiple_spaces_separate_one_application() {
    let t = Lambda::new("x   y", vec![]).unwrap();
    assert_eq!(t.display(), "(x y)");
}

#[test]
fn groups_unwrap_and_tolerate_padding() {
    let t = Lambda::new("((x))", vec![]).unwrap();
    assert!(t.eq_term(&Lambda::var("x")));
    let u = Lambda::new("( x )", vec![]).unwrap();
    assert!(u.eq_term(&Lambda::var("x")));
}

#[test]
fn unclosed_bracket_is_reported() {
    assert!(matches!(
        Lambda::new("(%x.x", vec![]),
        Err(LambdaError::UnclosedBracket)
    ));
}

#[test]
fn stray_closing_bracket_is_reported() {
    assert!(matches!(
        Lambda::new(")x", vec![]),
        Err(LambdaError::UnclosedBracket)
    ));
}

#[test]
fn missing_splice_argument_is_reported() {
    assert!(matches!(
        Lambda::new("{}", vec![]),
        Err(LambdaError::MissingSpliceArgument)
    ));
}

#[test]
fn leftover_splice_arguments_are_reported() {
    assert!(matches!(
        Lambda::new("x", vec![Lambda::var("y")]),
        Err(LambdaError::MissingSpliceArgument)
    ));
}

#[test]
fn invalid_symbol_is_reported() {
    assert!(matches!(
        Lambda::new("x ?", vec![]),
        Err(LambdaError::InvalidSymbol)
    ));
}

#[test]
fn adjacent_terms_without_space_are_invalid() {
    assert!(matches!(
        Lambda::new("x(y)", vec![]),
        Err(LambdaError::InvalidSymbol)
    ));
}

#[test]
fn header_without_terminator_is_malformed() {
    assert!(matches!(
        Lambda::new("%x", vec![]),
        Err(LambdaError::MalformedHeader)
    ));
    assert!(matches!(
        Lambda::new("%.x", vec![]),
        Err(LambdaError::MalformedHeader)
    ));
}

#[test]
fn splice_slots_fill_in_order() {
    let a = Lambda::new("%x.x", vec![]).unwrap();
    let b = Lambda::new("y", vec![]).unwrap();
    let t = Lambda::new("{} {}", vec![a.clone(), b.clone()]).unwrap();
    assert!(t.eq_term(&a.attach(b)));
}

#[test]
fn constructors_build_the_expected_terms() {
    assert_eq!(Lambda::func("x", Lambda::var("y")).display(), "(%x.y)");
    assert_eq!(Lambda::var("x").attach(Lambda::var("y")).display(), "(x y)");
    assert_eq!(Lambda::var("x").alpha().display(), "&x");
}

#[test]
fn reduce_performs_one_step() {
    let t = Lambda::new("((%x.x) y)", vec![]).unwrap();
    let r = t.reduce().unwrap();
    assert_eq!(r.display(), "y");
}

#[test]
fn reduce_without_redex_is_reported() {
    assert!(matches!(
        Lambda::var("x").reduce(),
        Err(LambdaError::NoRedex)
    ));
    let stuck = Lambda::new("(x y)", vec![]).unwrap();
    assert!(matches!(stuck.reduce(), Err(LambdaError::NoRedex)));
}

#[test]
fn alpha_reduce_canonicalizes_names() {
    let t = Lambda::new("%a.a", vec![]).unwrap();
    assert_eq!(t.alpha_reduce().unwrap().display(), "(%x.x)");
}

#[test]
fn alpha_reduce_gives_scopes_fresh_names() {
    let t = Lambda::new("&(x) x", vec![]).unwrap();
    assert_eq!(t.alpha_reduce().unwrap().display(), "(x y)");
}

#[test]
fn alpha_reduce_is_idempotent_on_a_scoped_term() {
    let t = Lambda::new("&(x) x", vec![]).unwrap();
    let once = t.alpha_reduce().unwrap();
    let twice = once.clone().alpha_reduce().unwrap();
    assert!(once.eq_term(&twice));
}

#[test]
fn evaluate_keeps_a_canonical_normal_form() {
    let t = Lambda::new("%x.x", vec![]).unwrap();
    let r = t.clone().evaluate(100).unwrap();
    assert!(r.eq_term(&t));
}

#[test]
fn evaluate_halts_on_a_stuck_application() {
    let t = Lambda::new("(x y)", vec![]).unwrap();
    let r = t.evaluate(100).unwrap();
    assert_eq!(r.display(), "(x y)");
}

#[test]
fn capture_is_avoided_in_nested_reduction() {
    let t = Lambda::new("((%x.(%y.x) y) z)", vec![]).unwrap();
    let r = t.evaluate(100).unwrap();
    assert_eq!(r.display(), "x");
    assert!(r.eq_term(&Lambda::var("x")));
}

#[test]
fn and_of_true_and_true_is_true() {
    let t = Lambda::new("%x|y.x", vec![]).unwrap();
    let f = Lambda::new("%x|y.y", vec![]).unwrap();
    let and = Lambda::new("%x|y.(x y) &{}", vec![f]).unwrap();
    let res = Lambda::new("({} &{}) &{}", vec![and, t.clone(), t.clone()])
        .unwrap()
        .evaluate(1000)
        .unwrap();
    assert!(res.eq_term(&t));
    assert_eq!(res.display(), "(%x|y.x)");
}

#[test]
fn and_of_true_and_false_is_false() {
    let t = Lambda::new("%x|y.x", vec![]).unwrap();
    let f = Lambda::new("%x|y.y", vec![]).unwrap();
    let and = Lambda::new("%x|y.(x y) &{}", vec![f.clone()]).unwrap();
    let res = Lambda::new("({} &{}) &{}", vec![and, t, f.clone()])
        .unwrap()
        .evaluate(1000)
        .unwrap();
    assert!(res.eq_term(&f));
    assert_eq!(res.display(), "(%x|y.y)");
}

#[test]
fn evaluate_is_idempotent_on_its_result() {
    let t = Lambda::new("%x|y.x", vec![]).unwrap();
    let f = Lambda::new("%x|y.y", vec![]).unwrap();
    let and = Lambda::new("%x|y.(x y) &{}", vec![f]).unwrap();
    let res = Lambda::new("({} &{}) &{}", vec![and, t.clone(), t])
        .unwrap()
        .evaluate(1000)
        .unwrap();
    let again = res.clone().evaluate(1000).unwrap();
    assert!(again.eq_term(&res));
}

#[test]
fn newf_splices_through_rendered_text() {
    let t = Lambda::new("%x|y.x", vec![]).unwrap();
    let f = Lambda::new("%x|y.y", vec![]).unwrap();
    let and = Lambda::newf("%x|y.(x y) &{}", vec![f]).unwrap();
    let res = Lambda::newf("({} &{}) &{}", vec![and, t.clone(), t])
        .unwrap()
        .evaluate(1000)
        .unwrap();
    assert_eq!(res.display(), "(%x|y.x)");
}

#[test]
fn divergent_terms_hit_the_step_limit() {
    let omega = Lambda::new("((%x.(x x)) (%x.(x x)))", vec![]).unwrap();
    assert!(matches!(
        omega.evaluate(5),
        Err(LambdaError::StepLimitReached)
    ));
}

#[test]
fn get_name_spells_bijective_base_26() {
    assert_eq!(Lambda::get_name(0), "x");
    assert_eq!(Lambda::get_name(1), "y");
    assert_eq!(Lambda::get_name(25), "v");
    assert_eq!(Lambda::get_name(26), "xx");
    assert_eq!(Lambda::get_name(27), "xy");
}

#[test]
fn set_map_assigns_indices_in_order() {
    let term = Lambda::var("q").attach(Lambda::var("r"));
    let tables = vec![NameTable::new()];
    let (tables, next, scopes) = Lambda::set_map(term, tables, 0, 0, 0);
    assert_eq!(next, 2);
    assert_eq!(scopes, 0);
    assert_eq!(tables[0].lookup(&"q".to_string()), Some(0));
    assert_eq!(tables[0].lookup(&"r".to_string()), Some(1));
    assert_eq!(tables[0].lookup(&"s".to_string()), None);
}
