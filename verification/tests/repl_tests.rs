use matheval::repl::CalcHelper;

fn strings(names: &[&str]) -> Vec<String> {
    names.iter().map(|name| name.to_string()).collect()
}

#[test]
fn a_new_helper_completes_functions_and_commands() {
    let helper = CalcHelper::new();
    assert_eq!(helper.complete("s", 1), (0, strings(&["sin", "sqrt"])));
    assert_eq!(helper.complete("m", 1), (0, strings(&["max", "min", "mode"])));
    assert_eq!(helper.complete("2 + m", 5), (4, strings(&["max", "min"])));
    assert_eq!(helper.complete("exi", 3), (0, strings(&["exit"])));
    assert_eq!(helper.complete("1+exi", 5), (2, strings(&[])));
    assert_eq!(
        helper.complete("a", 1),
        (0, strings(&["asin", "acos", "atan", "abs"]))
    );
}

#[test]
fn every_function_and_command_is_offered() {
    let helper = CalcHelper::new();
    for name in [
        "sin", "cos", "tan", "asin", "acos", "atan", "sqrt", "abs", "ln", "log", "exp", "floor",
        "ceil", "round", "pow", "max", "min", "help", "exit", "quit", "vars", "deg", "rad",
        "grad", "mode",
    ] {
        let (start, found) = helper.complete(name, name.chars().count());
        assert_eq!(start, 0);
        assert!(found.contains(&name.to_string()), "{}", name);
    }
}

#[test]
fn no_word_has_no_completions() {
    let helper = CalcHelper::new();
    assert_eq!(helper.complete("", 0), (0, strings(&[])));
    assert_eq!(helper.complete("2 + ", 4), (4, strings(&[])));
    assert_eq!(helper.complete("sin", 0), (0, strings(&[])));
    assert_eq!(helper.hint("", 0), None);
    assert_eq!(helper.hint("2 + ", 4), None);
}

#[test]
fn the_word_ends_at_the_cursor() {
    let helper = CalcHelper::new();
    assert_eq!(helper.complete("sqrt", 1), (0, strings(&["sin", "sqrt"])));
    assert_eq!(helper.complete("sqrt", 2), (0, strings(&["sqrt"])));
    assert_eq!(helper.complete("co + si", 2), (0, strings(&["cos"])));
    // a cursor beyond the line stands at its end
    assert_eq!(helper.complete("co", 9), (0, strings(&["cos"])));
}

#[test]
fn positions_count_characters() {
    let mut helper = CalcHelper::new();
    helper.update_variables(strings(&["größe"]));
    assert_eq!(helper.complete("é + gr", 6), (4, strings(&["größe"])));
    assert_eq!(helper.hint("é + grö", 7), Some("ße".to_string()));
}

#[test]
fn variables_are_completed_after_functions() {
    let mut helper = CalcHelper::new();
    helper.update_variables(strings(&["speed", "size", "x_1"]));
    assert_eq!(helper.complete("s", 1), (0, strings(&["sin", "sqrt", "speed", "size"])));
    assert_eq!(helper.complete("1 + x_", 6), (4, strings(&["x_1"])));
    helper.update_variables(strings(&["mass"]));
    assert_eq!(helper.complete("s", 1), (0, strings(&["sin", "sqrt"])));
    assert_eq!(helper.complete("m", 1), (0, strings(&["max", "min", "mass", "mode"])));
}

#[test]
fn add_variable_adds_a_name_once() {
    let mut helper = CalcHelper::new();
    helper.add_variable("total".to_string());
    helper.add_variable("tax".to_string());
    helper.add_variable("total".to_string());
    assert_eq!(helper.complete("t", 1), (0, strings(&["tan", "total", "tax"])));
}

#[test]
fn hints() {
    let mut helper = CalcHelper::new();
    helper.update_variables(strings(&["radius", "sin2"]));
    assert_eq!(helper.hint("sq", 2), Some("rt".to_string()));
    assert_eq!(helper.hint("s", 1), Some("in".to_string()));
    assert_eq!(helper.hint("2 * ra", 6), Some("dius".to_string()));
    // a command is hinted at the start of the line only
    assert_eq!(helper.hint("he", 2), Some("lp".to_string()));
    assert_eq!(helper.hint("1 + he", 6), None);
    assert_eq!(helper.hint("ra", 2), Some("dius".to_string()));
    assert_eq!(helper.hint("rad", 3), Some("ius".to_string()));
    assert_eq!(helper.hint("radius", 6), None);
    // a name that is written out gives way to a longer one
    assert_eq!(helper.hint("sin", 3), Some("2".to_string()));
    assert_eq!(helper.hint("cos", 3), None);
    // no hint unless the cursor is at the end of the line
    assert_eq!(helper.hint("sq + 1", 2), None);
    assert_eq!(helper.hint("zz", 2), None);
}
