use html_extractor::formatter;
use html_extractor::{
    FunctionIdentity, InputConstraint, Requirements, Span, builtin_function, builtin_functions,
    compile,
};

#[test]
fn requiring_an_input_twice_keeps_one_entry_in_place() {
    let mut requirements = Requirements::new();
    let first = requirements.require_input("html", Span::new(0, 4));
    let other = requirements.require_input("page", Span::new(5, 9));
    let again = requirements.require_input("html", Span::new(10, 14));
    assert_eq!(first, 0);
    assert_eq!(other, 1);
    assert_eq!(again, 0);
    assert_eq!(requirements.inputs().len(), 2);
    assert_eq!(requirements.inputs()[0].name(), "html");
    assert_eq!(requirements.inputs()[1].name(), "page");
    assert_eq!(
        requirements.inputs()[0].uses(),
        &[Span::new(0, 4), Span::new(10, 14)]
    );
    assert_eq!(requirements.input_position("page"), Some(1));
    assert_eq!(requirements.input_position("missing"), None);
}

#[test]
fn constraints_combine_with_any_and_refuse_conflicts() {
    let mut requirements = Requirements::new();
    let index = requirements.require_input("value", Span::new(0, 5));
    assert_eq!(requirements.constrain_input(index, InputConstraint::Any), Ok(()));
    assert_eq!(requirements.inputs()[0].constraint(), InputConstraint::Any);
    assert_eq!(
        requirements.constrain_input(index, InputConstraint::NumberLike),
        Ok(())
    );
    assert_eq!(
        requirements.constrain_input(index, InputConstraint::NumberLike),
        Ok(())
    );
    assert_eq!(requirements.constrain_input(index, InputConstraint::Any), Ok(()));
    assert_eq!(
        requirements.constrain_input(index, InputConstraint::HtmlLike),
        Err(InputConstraint::HtmlLike)
    );
    assert_eq!(
        requirements.inputs()[0].constraint(),
        InputConstraint::NumberLike
    );
}

#[test]
fn function_arities_stay_sorted_and_distinct() {
    let mut requirements = Requirements::new();
    let identity = FunctionIdentity::Unqualified("parse".to_owned());
    requirements.require_function(identity.clone(), 3, Span::new(0, 1));
    requirements.require_function(identity.clone(), 1, Span::new(1, 2));
    requirements.require_function(identity.clone(), 3, Span::new(2, 3));
    requirements.require_function(identity.clone(), 2, Span::new(3, 4));
    assert_eq!(requirements.functions().len(), 1);
    assert_eq!(requirements.functions()[0].arities(), &[1, 2, 3]);
    assert_eq!(requirements.functions()[0].uses().len(), 4);
}

#[test]
fn incompatible_constraints_are_reported_at_the_second_use() {
    let error = compile("title = html.css(\"h1\")\ntotal = html + 1").unwrap_err();
    assert_eq!(
        error.diagnostics()[0].message(),
        "input `html` has incompatible inferred constraints"
    );
    assert_eq!(error.diagnostics()[0].primary_span(), Span::new(31, 35));
}

#[test]
fn declaration_errors_name_the_function_and_parameter() {
    let error = compile("fun fetch(a, a) { a }").unwrap_err();
    let messages: Vec<_> = error
        .diagnostics()
        .iter()
        .map(|diagnostic| diagnostic.message())
        .collect();
    assert_eq!(
        messages,
        ["function name `fetch` is reserved", "duplicate parameter `a`"]
    );

    let error = compile("fun twice() { 1 }\nfun twice() { 2 }").unwrap_err();
    assert_eq!(error.diagnostics()[0].message(), "duplicate function `twice`");
}

#[test]
fn every_check_failure_is_reported_in_order() {
    let error = compile("return 1\nbreak\nvalue = it").unwrap_err();
    let messages: Vec<_> = error
        .diagnostics()
        .iter()
        .map(|diagnostic| diagnostic.message())
        .collect();
    assert_eq!(
        messages,
        [
            "`return` is only valid inside a function",
            "`break` is only valid inside a loop",
            "`it` is only available inside functional blocks",
        ]
    );
}

#[test]
fn builtin_calls_and_script_functions_are_never_host_requirements() {
    let program = compile("fun helper(x) { x }\na = helper(1)\nb = map(items, it)\nc = lookup(a)").unwrap();
    let functions = program.requirements().functions();
    assert_eq!(functions.len(), 1);
    assert_eq!(
        functions[0].identity(),
        &FunctionIdentity::Unqualified("lookup".to_owned())
    );
}

#[test]
fn builtin_lookup_agrees_with_the_table() {
    let table = builtin_functions();
    for entry in &table {
        let found = builtin_function(entry.name()).unwrap();
        assert_eq!(found.name(), entry.name());
    }
    assert!(table.iter().any(|entry| entry.name() == "css@"));
    assert!(builtin_function("not_a_builtin").is_none());
}

#[test]
fn formatted_text_ends_with_a_newline() {
    assert_eq!(formatter::format("").unwrap(), "\n");
    assert_eq!(formatter::format("x = 1").unwrap(), "x = 1\n");
    assert_eq!(
        formatter::format("fun f() { 1 }").unwrap(),
        "fun f() {\n    1\n}\n"
    );
}

#[test]
fn formatting_separates_functions_statements_and_tests() {
    assert_eq!(
        formatter::format("fun f(a, b) { a }\nfun g() {}\nx = f(1, 2)\ntest { assertEq(x, 1, \"x\") }\ntest {}")
            .unwrap(),
        "fun f(a, b) {\n    a\n}\n\nfun g() {}\n\nx = f(1, 2)\n\ntest {\n    assertEq(x, 1, \"x\")\n}\n\ntest {}\n"
    );
}

#[test]
fn formatting_escapes_strings_and_prints_switches() {
    assert_eq!(
        formatter::format("v = switch(k) { 1 => \"a\\\"b\", n => f\"{n}\\t\" }").unwrap(),
        "v = switch(k) {\n    1 => \"a\\\"b\",\n    n => f\"{n}\\t\"\n}\n"
    );
}

#[test]
fn formatting_keeps_needed_parentheses_only() {
    assert_eq!(
        formatter::format("a = (x - (y - z)) * -(w + 1)\nb = (x * y) + z").unwrap(),
        "a = (x - (y - z)) * -(w + 1)\nb = x * y + z\n"
    );
}

#[test]
fn formatting_a_broken_program_returns_its_diagnostics() {
    let error = formatter::format("value = it").unwrap_err();
    assert_eq!(
        error.diagnostics()[0].message(),
        "`it` is only available inside functional blocks"
    );
}
