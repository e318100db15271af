use event_parser::env::Env;
use event_parser::values::Value;

#[test]
fn stored_binding_is_found() {
    let mut env = Env::default();
    env.store_binding("x".to_string(), Value::Number(7));
    assert_eq!(env.get_binding_value("x"), Ok(Value::Number(7)));
    assert_eq!(env.get_binding_value_without_error_msg("x"), Some(Value::Number(7)));
}

#[test]
fn storing_again_replaces_the_binding() {
    let mut env = Env::default();
    env.store_binding("x".to_string(), Value::Number(7));
    env.store_binding("x".to_string(), Value::Unit);
    assert_eq!(env.get_binding_value("x"), Ok(Value::Unit));
}

#[test]
fn missing_binding_is_reported_by_name() {
    let env = Env::default();
    assert_eq!(
        env.get_binding_value("speed"),
        Err("binding with name ‘speed’ does not exist".to_string())
    );
    assert_eq!(env.get_binding_value_without_error_msg("speed"), None);
    assert_eq!(
        env.get_binding_value(""),
        Err("binding with name ‘’ does not exist".to_string())
    );
}

#[test]
fn child_sees_the_bindings_of_its_parent() {
    let mut parent = Env::default();
    parent.store_binding("x".to_string(), Value::Number(1));
    let child = parent.create_child();
    assert_eq!(child.get_binding_value("x"), Ok(Value::Number(1)));
    let grandchild = child.create_child();
    assert_eq!(grandchild.get_binding_value("x"), Ok(Value::Number(1)));
    assert_eq!(
        grandchild.get_binding_value("y"),
        Err("binding with name ‘y’ does not exist".to_string())
    );
}

#[test]
fn child_binding_shadows_the_parent() {
    let mut parent = Env::default();
    parent.store_binding("x".to_string(), Value::Number(1));
    parent.store_binding("y".to_string(), Value::Number(2));
    let mut child = parent.create_child();
    child.store_binding("x".to_string(), Value::Number(10));
    assert_eq!(child.get_binding_value("x"), Ok(Value::Number(10)));
    assert_eq!(child.get_binding_value("y"), Ok(Value::Number(2)));
    assert_eq!(parent.get_binding_value("x"), Ok(Value::Number(1)));
}

#[test]
fn child_starts_empty() {
    let parent = Env::default();
    let child = parent.create_child();
    assert_eq!(child.get_binding_value_without_error_msg("x"), None);
}
