use anita::jit::frontend::parser::expression;
use anita::jit::locals;

fn names(list: &[&str]) -> Vec<String> {
    list.iter().map(|name| name.to_string()).collect()
}

#[test]
fn reads_writes_and_undefined_names() {
    let expr = expression("y = x + 2; z = y * w; y + z + q").unwrap();
    let vars = expr.variables();
    assert_eq!(vars.read, names(&["x", "y", "w", "y", "z", "q"]));
    assert_eq!(vars.write, names(&["y", "z"]));
    assert_eq!(vars.uninitialized, names(&["x", "w", "q"]));
}

#[test]
fn an_assignment_anywhere_defines_the_name() {
    let expr = expression("y + 1; y = 2; y").unwrap();
    let vars = expr.variables();
    assert!(vars.uninitialized.is_empty());
}

#[test]
fn the_name_of_a_function_is_no_variable() {
    let expr = expression("f(a, g(b))").unwrap();
    assert_eq!(expr.variables_all(), names(&["a", "b"]));
    assert_eq!(expr.variables_read(), names(&["a", "b"]));
    assert!(expr.variables_write().is_empty());
}

#[test]
fn the_target_comes_before_the_targets_in_its_value() {
    let expr = expression("a = b = c").unwrap();
    assert_eq!(expr.variables_write(), names(&["a", "b"]));
    assert_eq!(expr.variables_all(), names(&["a", "b", "c"]));
    assert_eq!(expr.variables_read(), names(&["c"]));
}

#[test]
fn set_defined_removes_every_occurrence() {
    let expr = expression("x + y + x").unwrap();
    let mut vars = expr.variables();
    vars.set_defined(&"x".to_string());
    assert_eq!(vars.uninitialized, names(&["y"]));
    vars.set_defined(&"z".to_string());
    assert_eq!(vars.uninitialized, names(&["y"]));
}

#[test]
fn initialized_identifiers_are_distinct_and_in_order_of_first_use() {
    let expr = expression("y = x; x + y + x").unwrap();
    let mut vars = expr.variables();
    vars.set_defined(&"x".to_string());
    let identifiers = vars.initialized_identifiers().ok().unwrap();
    assert_eq!(identifiers, names(&["x", "y"]));
}

#[test]
fn initialized_identifiers_fail_with_the_undefined_names() {
    let expr = expression("a + b + a").unwrap();
    let vars = expr.variables();
    let undefined = vars.initialized_identifiers().err().unwrap();
    assert_eq!(undefined.into_names(), names(&["a", "b", "a"]));
}

#[test]
fn locals_of_an_expression() {
    let expr = expression("y = 2; x + y").unwrap();
    assert_eq!(locals(&expr, &["x"]).ok().unwrap(), names(&["x", "y"]));
    let undefined = locals(&expr, &[]).err().unwrap();
    assert_eq!(undefined.into_names(), names(&["x"]));
}

#[test]
fn literals_of_an_expression() {
    let expr = expression("2 * x + f(2, 0.5)").unwrap();
    assert_eq!(expr.literals(), names(&["2", "2", "0.5"]));
}

#[test]
fn a_copy_is_equal() {
    let expr = expression("y = f(x, 1) ; !y && -x").unwrap();
    assert_eq!(expr.clone(), expr);
}
