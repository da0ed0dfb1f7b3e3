use html_extractor::scope::{Inputs, Scope};
use html_extractor::value::{Object, Value};
use html_extractor::Visibility;

fn number(n: i64) -> Value {
    Value::Number(serde_json::Number::from(n))
}

fn keys(object: &Object) -> Vec<&str> {
    object.keys()
}

#[test]
fn the_root_binds_globals_and_outputs_the_public_ones() {
    let inputs = Inputs::new().insert("secret", number(1), Visibility::Private);
    let (mut root, mut shared) = Scope::root(inputs);
    root.assign(&mut shared, "title", number(2), Visibility::Public);
    root.assign(&mut shared, "hidden", number(3), Visibility::Private);

    assert_eq!(root.get(&shared, "secret"), Some(number(1)));
    assert_eq!(root.get(&shared, "title"), Some(number(2)));
    assert_eq!(root.get(&shared, "missing"), None);
    let output = root.output(&shared);
    assert_eq!(keys(&output), ["title"]);
}

#[test]
fn blocks_see_outer_bindings_and_output_only_their_own() {
    let (root, mut shared) = Scope::root(Inputs::new());
    let mut outer = root.child();
    outer.assign(&mut shared, "a", number(1), Visibility::Public);
    let mut inner = outer.child();
    assert_eq!(inner.get(&shared, "a"), Some(number(1)));
    inner.assign(&mut shared, "b", number(2), Visibility::Public);
    inner.assign(&mut shared, "a", number(5), Visibility::Public);

    assert_eq!(outer.get(&shared, "b"), None);
    assert_eq!(outer.get(&shared, "a"), Some(number(1)));
    assert_eq!(keys(&inner.output(&shared)), ["a", "b"]);
    assert_eq!(keys(&outer.output(&shared)), ["a"]);
}

#[test]
fn function_calls_rebind_globals_they_do_not_shadow() {
    let inputs = Inputs::new().insert("count", number(1), Visibility::Private);
    let (mut root, mut shared) = Scope::root(inputs);
    root.assign(&mut shared, "shown", number(1), Visibility::Public);
    let mut call = root.function();
    call.assign(&mut shared, "count", number(2), Visibility::Public);
    call.assign(&mut shared, "shown", number(9), Visibility::Private);
    call.assign(&mut shared, "local", number(3), Visibility::Public);

    assert_eq!(root.get(&shared, "count"), Some(number(2)));
    assert_eq!(root.get(&shared, "local"), None);
    assert_eq!(call.get(&shared, "local"), Some(number(3)));
    let output = root.output(&shared);
    assert_eq!(keys(&output), ["shown"]);
    assert_eq!(output.get("shown"), Some(&number(9)));
    assert_eq!(keys(&call.output(&shared)), ["local"]);
}

#[test]
fn extensions_are_bound_publicly_and_always_output() {
    let (root, mut shared) = Scope::root(Inputs::new());
    let mut block = root.child();
    let mut object = Object::new();
    object.insert("x", number(1));
    object.insert("y", number(2));
    block.extend(&mut shared, &object);

    assert_eq!(block.get(&shared, "y"), Some(number(2)));
    assert_eq!(keys(&block.output(&shared)), ["x", "y"]);
    let other = root.child();
    assert_eq!(other.get(&shared, "x"), Some(number(1)));
    assert_eq!(keys(&other.output(&shared)), ["x", "y"]);
}

#[test]
fn the_root_reads_its_own_extension_before_an_assigned_global() {
    let (mut root, mut shared) = Scope::root(Inputs::new());
    let mut object = Object::new();
    object.insert("x", number(1));
    root.extend(&mut shared, &object);
    root.assign(&mut shared, "x", number(2), Visibility::Public);
    assert_eq!(root.get(&shared, "x"), Some(number(1)));
}
