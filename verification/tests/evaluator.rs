use html_extractor::compile;
use html_extractor::evaluator::{eval_step, start_run, RunStep, INITIAL_FUEL};
use html_extractor::operators::Evaluated;
use html_extractor::runtime::{ExecutionError, HttpPolicy};
use html_extractor::scope::Inputs;
use html_extractor::value::{ExecutionResult, Object, Value};
use html_extractor::{BinaryOperator, Visibility};

type Host = (&'static str, fn(Vec<Value>) -> Result<Value, ExecutionError>);

fn number(n: i64) -> Value {
    Value::Number(serde_json::Number::from(n))
}

fn text(s: &str) -> Value {
    Value::String(s.to_owned())
}

fn object(fields: Vec<(&str, Value)>) -> Value {
    let mut o = Object::new();
    for (name, value) in fields {
        o.insert(name, value);
    }
    Value::Object(o)
}

fn finish_float(x: Evaluated) -> Result<Value, ExecutionError> {
    let f = |n: &serde_json::Number| n.as_f64().unwrap();
    let number = |x: f64| match serde_json::Number::from_f64(x) {
        Some(n) => Ok(Value::Number(n)),
        None => Err(ExecutionError::new("non-finite numeric result", None)),
    };
    match x {
        Evaluated::Value(v) => Ok(v),
        Evaluated::FloatNegate(n) => number(-f(&n)),
        Evaluated::Float(op, a, b) => {
            let (a, b) = (f(&a), f(&b));
            match op {
                BinaryOperator::Less => Ok(Value::Boolean(a < b)),
                BinaryOperator::LessEqual => Ok(Value::Boolean(a <= b)),
                BinaryOperator::Greater => Ok(Value::Boolean(a > b)),
                BinaryOperator::GreaterEqual => Ok(Value::Boolean(a >= b)),
                BinaryOperator::Add => number(a + b),
                BinaryOperator::Subtract => number(a - b),
                BinaryOperator::Multiply => number(a * b),
                BinaryOperator::Divide => number(a / b),
                _ => number(a % b),
            }
        }
    }
}

fn execute_with(source: &str, inputs: Inputs, hosts: Vec<Host>) -> Result<ExecutionResult, ExecutionError> {
    let program = compile(source).unwrap();
    let names = hosts.iter().map(|(n, _)| n.to_string()).collect();
    let mut run = start_run(&program, inputs, names, HttpPolicy::default());
    let mut reply = None;
    loop {
        match eval_step(&mut run, reply.take()) {
            RunStep::Done(result) => return result,
            RunStep::CallHost(name, args) => {
                let host = hosts.iter().find(|(n, _)| *n == name.as_str());
                reply = Some(match host {
                    Some((_, f)) => f(args),
                    None => Err(ExecutionError::new("unlinked builtin", None)),
                });
            }
            RunStep::Float(x) => reply = Some(finish_float(x)),
            RunStep::Fetch(_) => reply = Some(Err(ExecutionError::new("offline", None))),
            RunStep::Again => {}
        }
    }
}

fn execute(source: &str, inputs: Inputs) -> Result<ExecutionResult, ExecutionError> {
    execute_with(source, inputs, Vec::new())
}

fn output(source: &str) -> Object {
    let result = execute(source, Inputs::new()).unwrap();
    let mut o = Object::new();
    for (name, value) in result.output().iter() {
        o.insert(name, value.duplicate());
    }
    o
}

#[test]
fn script_functions_return_values_and_mutate_existing_globals() {
    let out = output(
        r#"
        counter = 0
        fun add(left, right) {
            counter = counter + 1
            temporary = left + right
            temporary
        }
        fun describe(value) {
            if value < 0 { return "negative" }
            "non-negative"
        }
        fun empty() {}
        fun non_negative(value) {
            return null if value < 0 else value
        }
        sum = add(1, 2)
        label = describe(-1)
        nothing = empty()
        rejected = non_negative(-1)
        "#,
    );
    assert_eq!(out.get("counter"), Some(&number(1)));
    assert_eq!(out.get("sum"), Some(&number(3)));
    assert_eq!(out.get("label"), Some(&text("negative")));
    assert_eq!(out.get("nothing"), Some(&Value::Null));
    assert_eq!(out.get("rejected"), Some(&Value::Null));
    assert!(out.get("temporary").is_none());
}

#[test]
fn script_functions_support_recursion_and_exact_arity() {
    let out = output(
        r#"
        result = factorial(5)
        fun factorial(value) {
            if value == 0 { 1 } else { value * factorial(value - 1) }
        }
        "#,
    );
    assert_eq!(out.get("result"), Some(&number(120)));
    let error = execute("fun identity(value) { value } result = identity() ", Inputs::new()).unwrap_err();
    assert!(error.message().contains("expects 1 argument"));
    assert_eq!(error.message(), "function `identity` expects 1 argument, got 0");
}

#[test]
fn block_if_while_loop_break_and_return_compose() {
    let out = output(
        r#"
        count = 0
        while count < 2 { count = count + 1 }
        while (count < 4) { count = count + 1 }
        loop {
            count = count + 1
            if count == 6 { break }
        }
        fun locate() {
            loop {
                while true { return "found" }
            }
        }
        label = if count == 6 { locate() } else { "missing" }
        "#,
    );
    assert_eq!(out.get("count"), Some(&number(6)));
    assert_eq!(out.get("label"), Some(&text("found")));
}

#[test]
fn loop_expression_statement_extend_mutates_receiver_binding() {
    let out = output(
        r#"
        items = []
        page = 1
        loop {
            items.extend([page])
            page += 1
            if page > 3 { break }
        }
        "#,
    );
    assert_eq!(out.get("items"), Some(&Value::Array(vec![number(1), number(2), number(3)])));
    assert_eq!(out.get("page"), Some(&number(4)));
}

#[test]
fn augmented_assignment_adds_and_subtracts_existing_values() {
    let out = output("count = 10\ncount += 5\ncount -= 3\n");
    assert_eq!(out.get("count"), Some(&number(12)));
}

#[test]
fn block_if_and_while_require_boolean_conditions() {
    for source in ["if 1 { value = true }", "while 1 { break }"] {
        let error = execute(source, Inputs::new()).unwrap_err();
        assert!(error.message().contains("expected boolean"));
    }
}

#[test]
fn evaluates_dollar_free_private_it_and_python_interpolation() {
    let out = output(
        r#"
        _hidden = 4
        objects = [1, 2].map {
            value = it
            _copy = it
        }
        message = f"count={objects[1]["value"]} dollar=$ braces={{ok}}"
        "#,
    );
    assert!(out.get("_hidden").is_none());
    assert_eq!(out.get("message"), Some(&text("count=2 dollar=$ braces={ok}")));
    let objects = out.get("objects").unwrap().expect_array().unwrap();
    let second = objects[1].expect_object().unwrap();
    assert_eq!(second.get("value"), Some(&number(2)));
    assert!(second.get("_copy").is_none());
    assert!(second.get("it").is_none());
}

#[test]
fn computed_assignment_uses_generated_name_and_visibility() {
    let inputs = Inputs::new().insert(
        "items",
        Value::Array(vec![
            object(vec![("key", text("title")), ("value", text("Example"))]),
            object(vec![("key", text("_hidden")), ("value", number(1))]),
        ]),
        Visibility::Private,
    );
    let result = execute(
        r#"
        objects = items.map {
            _key = it.key
            _value = it.value
            [_key] = _value
        }
        "#,
        inputs,
    )
    .unwrap();
    let objects = result.output().get("objects").unwrap().expect_array().unwrap();
    assert_eq!(objects[0].expect_object().unwrap().get("title"), Some(&text("Example")));
    assert!(objects[1].expect_object().unwrap().get("_hidden").is_none());
}

#[test]
fn collection_predicates_support_both_call_forms_and_short_circuit() {
    let out = output(
        r#"
        any_method = [1, 2, 3].any(x => x > 2)
        any_function = any([1, 2, 3], x => x > 2)
        all_method = [1, 2, 3].all(x => x > 0)
        all_function = all([1, 2, 3], x => x > 0)
        found_method = [1, 2, 3].find(x => x > 1)
        found_function = find([1, 2, 3], x => x > 1)
        not_found = [1].find(x => x > 2)
        empty_any = [].any(x => true)
        empty_all = [].all(x => false)
        short_any = [1, 0].any(x => x == 1 || 1 / x > 0)
        short_all = [0].all(x => false && 1 / x > 0)
        "#,
    );
    assert_eq!(out.get("any_method"), Some(&Value::Boolean(true)));
    assert_eq!(out.get("any_function"), Some(&Value::Boolean(true)));
    assert_eq!(out.get("all_method"), Some(&Value::Boolean(true)));
    assert_eq!(out.get("all_function"), Some(&Value::Boolean(true)));
    assert_eq!(out.get("found_method"), Some(&number(2)));
    assert_eq!(out.get("found_function"), Some(&number(2)));
    assert_eq!(out.get("not_found"), Some(&Value::Null));
    assert_eq!(out.get("empty_any"), Some(&Value::Boolean(false)));
    assert_eq!(out.get("empty_all"), Some(&Value::Boolean(true)));
    assert_eq!(out.get("short_any"), Some(&Value::Boolean(true)));
    assert_eq!(out.get("short_all"), Some(&Value::Boolean(false)));
}

#[test]
fn collection_predicates_and_computed_assignments_validate_results() {
    let error = execute("value = [1].any(x => x)", Inputs::new()).unwrap_err();
    assert!(error.message().contains("expected boolean"));
    let error = execute("_key = 1 [_key] = true", Inputs::new()).unwrap_err();
    assert!(error.message().contains("computed assignment name must be a string"));
}

#[test]
fn switch_matches_first_equal_arm_and_requires_exhaustive_fallback() {
    let source = r#"
        selected = switch(status) {
            200 => "ok",
            404 => "missing",
            code => f"unexpected {code}",
        }
        "#;
    let result = execute(source, Inputs::new().insert("status", number(500), Visibility::Private)).unwrap();
    assert_eq!(result.output().get("selected"), Some(&text("unexpected 500")));
    let result = execute(source, Inputs::new().insert("status", number(404), Visibility::Private)).unwrap();
    assert_eq!(result.output().get("selected"), Some(&text("missing")));
}

#[test]
fn evaluates_arithmetic_comparisons_equality_and_unary_operators() {
    let out = output(
        r#"
        precedence = 2 + 3 * 4
        remainder = 17 % 5
        negative = -3
        not = !false
        less = 2 < 3
        equal = [1, 2] == [1, 2]
        different = "a" != "b"
        "#,
    );
    assert_eq!(out.get("precedence"), Some(&number(14)));
    assert_eq!(out.get("remainder"), Some(&number(2)));
    assert_eq!(out.get("negative"), Some(&number(-3)));
    assert_eq!(out.get("not"), Some(&Value::Boolean(true)));
    assert_eq!(out.get("less"), Some(&Value::Boolean(true)));
    assert_eq!(out.get("equal"), Some(&Value::Boolean(true)));
    assert_eq!(out.get("different"), Some(&Value::Boolean(true)));
}

#[test]
fn interpolates_scalar_values_in_source_order() {
    let inputs = Inputs::new()
        .insert("text", text("ok"), Visibility::Private)
        .insert("decimal", Value::Number(serde_json::Number::from_f64(12.5).unwrap()), Visibility::Private)
        .insert("enabled", Value::Boolean(true), Visibility::Private);
    let result = execute(
        r#"value = f"text={text} integer={40 + 2} decimal={decimal} boolean={enabled} null={null} dollar=$""#,
        inputs,
    )
    .unwrap();
    assert_eq!(
        result.output().get("value"),
        Some(&text("text=ok integer=42 decimal=12.5 boolean=true null=null dollar=$"))
    );
}

#[test]
fn interpolates_asurascans_search_url() {
    let inputs = Inputs::new()
        .insert("query", text("hero & mage"), Visibility::Private)
        .insert("page", number(2), Visibility::Private);
    let result = execute(
        r#"
        limit = 50
        order = "desc"
        offset = (page - 1) * limit
        url = f"https://api.asurascans.com/api/series?search={query.urlencode()}&sort=latest&order={order}&limit={limit}&offset={offset}"
        "#,
        inputs,
    )
    .unwrap();
    assert_eq!(
        result.output().get("url"),
        Some(&text("https://api.asurascans.com/api/series?search=hero+%26+mage&sort=latest&order=desc&limit=50&offset=50"))
    );
}

#[test]
fn rejects_structured_values_in_interpolated_strings() {
    let error = execute(r#"value = f"items={[1, 2]}""#, Inputs::new()).unwrap_err();
    assert!(error.message().contains("cannot interpolate array"));
    assert!(error.span().is_some());
}

#[test]
fn logical_operators_require_boolean_operands() {
    let error = execute("value = true && 1", Inputs::new()).unwrap_err();
    assert!(error.message().contains("expected boolean"));
}

#[test]
fn logical_operators_short_circuit_unselected_operands() {
    let out = output("and = false && 1 / 0 == 0\nor = true || 1 / 0 == 0\n");
    assert_eq!(out.get("and"), Some(&Value::Boolean(false)));
    assert_eq!(out.get("or"), Some(&Value::Boolean(true)));
}

#[test]
fn conditional_expressions_evaluate_only_the_selected_branch() {
    let out = output("truthy = \"yes\" if true else 1 / 0\nfalsey = \"no\" if false else \"fallback\"\n");
    assert_eq!(out.get("truthy"), Some(&text("yes")));
    assert_eq!(out.get("falsey"), Some(&text("fallback")));
}

#[test]
fn conditional_expressions_require_boolean_conditions() {
    let error = execute(r#"value = "yes" if "truthy" else "no""#, Inputs::new()).unwrap_err();
    assert!(error.message().contains("expected boolean condition"));
}

#[test]
fn rejects_invalid_dynamic_operand_types_with_a_source_span() {
    let inputs = Inputs::new().insert("dynamic", text("x"), Visibility::Private);
    let error = execute("value = dynamic + 1", inputs).unwrap_err();
    assert!(error.message().contains("requires a number-like value"));
    assert!(error.span().is_some());
}

#[test]
fn rejects_integer_division_by_zero() {
    let error = execute("value = 10 / 0", Inputs::new()).unwrap_err();
    assert!(error.message().contains("invalid integer arithmetic"));
}

#[test]
fn public_inputs_are_exported_and_private_inputs_are_hidden() {
    let inputs = Inputs::new()
        .insert("public", number(1), Visibility::Public)
        .insert("private", number(2), Visibility::Private);
    let result = execute("copy = private", inputs).unwrap();
    assert_eq!(result.output().get("public"), Some(&number(1)));
    assert_eq!(result.output().get("private"), None);
    assert_eq!(result.output().get("copy"), Some(&number(2)));
}

#[test]
fn extend_merges_object_fields_into_exported_context() {
    let out = output("before = 1\nextend({added: 2, before: 3})\nafter = added + before\n");
    assert_eq!(out.get("before"), Some(&number(3)));
    assert_eq!(out.get("added"), Some(&number(2)));
    assert_eq!(out.get("after"), Some(&number(5)));
}

#[test]
fn extend_exports_fields_from_child_scopes() {
    let out = output("_items = [1, 2].map { extend({last: it}) }\nafter = last + 1\n");
    assert_eq!(out.get("items"), None);
    assert_eq!(out.get("last"), Some(&number(2)));
    assert_eq!(out.get("after"), Some(&number(3)));
}

#[test]
fn extend_requires_exactly_one_object_argument() {
    let error = execute("extend(1)", Inputs::new()).unwrap_err();
    assert!(error.message().contains("expects an object"));
    let error = execute("extend({}, {})", Inputs::new()).unwrap_err();
    assert!(error.message().contains("exactly one object argument"));
}

#[test]
fn missing_inputs_fail_before_execution() {
    let error = execute("value = missing", Inputs::new()).unwrap_err();
    assert!(error.message().contains("missing required input `missing`"));
}

#[test]
fn filter_requires_a_boolean_predicate() {
    let error = execute("values = [1].filter(x => x)", Inputs::new()).unwrap_err();
    assert!(error.message().contains("expected boolean"));
}

#[test]
fn nullcheck_only_rejects_null() {
    execute("false = false.nullcheck(\"bad\")\nempty = \"\".nullcheck(\"bad\")\narray = [].nullcheck(\"bad\")", Inputs::new())
        .unwrap();
    let error = execute("value = null.nullcheck(\"missing\")", Inputs::new()).unwrap_err();
    assert_eq!(error.message(), "missing");
}

#[test]
fn child_scope_assignments_do_not_mutate_outer_bindings() {
    let out = output("value = 10\nitems = [1].map { value = it }\nafter = value");
    assert_eq!(out.get("value"), Some(&number(10)));
    assert_eq!(out.get("after"), Some(&number(10)));
    let items = out.get("items").unwrap().expect_array().unwrap();
    assert_eq!(items[0].expect_object().unwrap().get("value"), Some(&number(1)));
}

#[test]
fn evaluates_subscript_indexing_on_arrays_and_objects() {
    let inputs = Inputs::new()
        .insert("arr", Value::Array(vec![number(10), number(20), number(30)]), Visibility::Private)
        .insert("obj", object(vec![("name", text("Antigravity"))]), Visibility::Private)
        .insert("nested", object(vec![("items", Value::Array(vec![text("first"), text("second")]))]), Visibility::Private);
    let result = execute(
        r#"
        array_val = arr[1]
        array_out_of_bounds = arr[5]
        object_val = obj["name"]
        object_missing = obj["missing"]
        chained_val = nested["items"][0]
        "#,
        inputs,
    )
    .unwrap();
    let out = result.output();
    assert_eq!(out.get("array_val"), Some(&number(20)));
    assert_eq!(out.get("array_out_of_bounds"), Some(&Value::Null));
    assert_eq!(out.get("object_val"), Some(&text("Antigravity")));
    assert_eq!(out.get("object_missing"), Some(&Value::Null));
    assert_eq!(out.get("chained_val"), Some(&text("first")));
}

#[test]
fn host_functions_are_asked_and_their_errors_get_the_call_span() {
    fn double(args: Vec<Value>) -> Result<Value, ExecutionError> {
        match args.as_slice() {
            [Value::Number(n)] => Ok(number(n.as_i64().unwrap() * 2)),
            _ => Err(ExecutionError::new("bad arguments", None)),
        }
    }
    let result = execute_with("value = double(21)", Inputs::new(), vec![("double", double)]).unwrap();
    assert_eq!(result.output().get("value"), Some(&number(42)));
    let error = execute_with("value = double(\"x\")", Inputs::new(), vec![("double", double)]).unwrap_err();
    assert_eq!(error.message(), "bad arguments");
    assert!(error.span().is_some());
}

#[test]
fn required_values_name_the_empty_item() {
    fn css(_: Vec<Value>) -> Result<Value, ExecutionError> {
        Ok(Value::Array(vec![Value::Array(vec![number(1)]), Value::Array(Vec::new())]))
    }
    let inputs = Inputs::new().insert(
        "doc",
        Value::HtmlDocument(html_extractor::runtime::HtmlDocument::parse("<p>a</p>")),
        Visibility::Private,
    );
    let error = execute_with("value = doc.css(\"p\")!", inputs, vec![("css", css)]).unwrap_err();
    assert_eq!(error.message(), "required `css` operation `p` produced no result at item index 1");
}

#[test]
fn floating_point_work_is_handed_to_the_host() {
    let program = compile("value = 1.5 + 1").unwrap();
    let mut run = start_run(&program, Inputs::new(), Vec::new(), HttpPolicy::default());
    match eval_step(&mut run, None) {
        RunStep::Float(Evaluated::Float(BinaryOperator::Add, a, b)) => {
            assert_eq!(a.as_f64(), Some(1.5));
            assert_eq!(b.as_i64(), Some(1));
        }
        _ => panic!("expected the float addition to be asked"),
    }
    let answer = Value::Number(serde_json::Number::from_f64(2.5).unwrap());
    match eval_step(&mut run, Some(Ok(answer.duplicate()))) {
        RunStep::Done(Ok(result)) => assert_eq!(result.output().get("value"), Some(&answer)),
        _ => panic!("expected the run to finish"),
    }
}

#[test]
fn fetches_are_asked_after_the_policy_accepts_the_url() {
    let program = compile("page = fetch(\"https://example.com/a\")").unwrap();
    let mut run = start_run(&program, Inputs::new(), Vec::new(), HttpPolicy::default());
    match eval_step(&mut run, None) {
        RunStep::Fetch(request) => assert_eq!(request.url(), "https://example.com/a"),
        _ => panic!("expected a fetch"),
    }
    let program = compile("page = fetch(\"ftp://example.com/a\")").unwrap();
    let mut run = start_run(&program, Inputs::new(), Vec::new(), HttpPolicy::default());
    match eval_step(&mut run, None) {
        RunStep::Done(Err(error)) => assert!(error.message().contains("is not allowed")),
        _ => panic!("expected the policy to refuse the URL"),
    }
}

#[test]
fn loops_run_within_the_initial_fuel() {
    assert!(INITIAL_FUEL > 5);
    let out = output("count = 0\nwhile count < 5 { count = count + 1 }");
    assert_eq!(out.get("count"), Some(&number(5)));
}

#[test]
fn guards_preserve_payloads_and_collect_warnings() {
    let inputs = Inputs::new().insert("input", number(2), Visibility::Private);
    let result = execute(
        r#"
        value = input.nullcheck("missing")
            .assert(x => x > 0, "must be positive")
            .warn(x => x > 10, "small value")
        "#,
        inputs,
    )
    .unwrap();
    assert_eq!(result.output().get("value"), Some(&number(2)));
    assert_eq!(result.warnings()[0].message(), "small value");
}

#[test]
fn assert_accepts_direct_boolean_conditions() {
    let result = execute(r#"value = assert([1, 2, 3, 4].len() > 3, "too few images")"#, Inputs::new()).unwrap();
    assert_eq!(result.output().get("value"), Some(&Value::Boolean(true)));
    let error = execute(r#"value = assert([1].len() > 3, "too few images")"#, Inputs::new()).unwrap_err();
    assert_eq!(error.message(), "too few images");
}

#[test]
fn failed_assertions_stop_execution_without_output() {
    let error = execute("value = 1.assert(x => x > 2, \"too small\")", Inputs::new()).unwrap_err();
    assert_eq!(error.message(), "too small");
}

#[test]
fn warnings_accumulate_in_execution_order() {
    let result = execute("1.warn(x => false, \"first\")\n2.warn(x => false, \"second\")", Inputs::new()).unwrap();
    let messages: Vec<&str> = result.warnings().iter().map(|w| w.message()).collect();
    assert_eq!(messages, ["first", "second"]);
}

fn run_test_block(program: &html_extractor::CompiledProgram, k: usize) -> Result<ExecutionResult, ExecutionError> {
    let mut run = html_extractor::evaluator::start_test(program, k, Vec::new(), HttpPolicy::default());
    let mut reply = None;
    loop {
        match eval_step(&mut run, reply.take()) {
            RunStep::Done(result) => return result,
            RunStep::Float(x) => reply = Some(finish_float(x)),
            _ => reply = Some(Err(ExecutionError::new("unavailable", None))),
        }
    }
}

#[test]
fn test_blocks_with_inputs_run_script_and_bare_test_blocks_do_not() {
    let program = compile(
        r#"
        value = url
        fun double(value) { value * 2 }

        test(url = "https://example.test", _search = "") {
            assertEq(url, it.value, "script variables are visible")
            assertEq("https://example.test", it.value, "script output is bound to it")
        }

        test {
            assertEq(double(2), 4, "bare tests can exercise functions")
        }
        "#,
    )
    .unwrap();
    let total = html_extractor::evaluator::test_count(&program);
    assert_eq!(total, 2);
    let mut passed = 0;
    for k in 0..total {
        run_test_block(&program, k).unwrap();
        passed += 1;
    }
    assert_eq!(passed, 2);
}

#[test]
fn failing_assert_eq_names_both_values() {
    let program = compile("test { assertEq(1, 2, \"numbers\") }").unwrap();
    let error = run_test_block(&program, 0).unwrap_err();
    assert!(error.message().starts_with("numbers: assertEq expected "));
}

#[test]
fn sort_by_orders_with_a_two_parameter_comparator() {
    let out = output("by_comparator = [3, 1, 2].sort_by((a, b) => b - a)");
    assert_eq!(out.get("by_comparator"), Some(&Value::Array(vec![number(3), number(2), number(1)])));
    let error = execute("value = [1, 2].sort_by((a, b) => a < b)", Inputs::new()).unwrap_err();
    assert!(error.message().contains("comparator must return a number"));
}
