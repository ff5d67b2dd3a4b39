use monkey::object::{Environment, Object};

#[test]
fn a_new_environment_binds_nothing() {
    let env = Environment::new();
    assert_eq!(env.len(), 1);
    assert_eq!(env.get("a"), None);
    assert_eq!(env.get(""), None);
}

#[test]
fn a_bound_name_is_found() {
    let mut env = Environment::new();
    env.set("a".to_string(), Object::Integer(5));
    env.set("b".to_string(), Object::Boolean(true));
    assert_eq!(env.get("a"), Some(&Object::Integer(5)));
    assert_eq!(env.get("b"), Some(&Object::Boolean(true)));
    assert_eq!(env.get("c"), None);
}

#[test]
fn the_last_binding_of_a_name_counts() {
    let mut env = Environment::new();
    env.set("a".to_string(), Object::Integer(5));
    let copy = env.get("a").unwrap().clone();
    env.set("b".to_string(), copy);
    env.set("a".to_string(), Object::Integer(10));
    assert_eq!(env.get("b"), Some(&Object::Integer(5)));
    assert_eq!(env.get("a"), Some(&Object::Integer(10)));
}

#[test]
fn an_inner_scope_reads_the_scopes_around_it() {
    let mut env = Environment::new();
    env.set("a".to_string(), Object::Integer(1));
    let child = env.extend(0);
    assert_eq!(child, 1);
    assert_eq!(env.len(), 2);
    let grandchild = env.extend(child);
    assert_eq!(grandchild, 2);
    env.bind(child, "b".to_string(), Object::Integer(2));
    assert_eq!(env.lookup(grandchild, "a"), Some(&Object::Integer(1)));
    assert_eq!(env.lookup(grandchild, "b"), Some(&Object::Integer(2)));
    assert_eq!(env.lookup(child, "a"), Some(&Object::Integer(1)));
    assert_eq!(env.lookup(0, "b"), None);
}

#[test]
fn an_inner_scope_shadows_and_does_not_write_outwards() {
    let mut env = Environment::new();
    env.set("a".to_string(), Object::Integer(1));
    let child = env.extend(0);
    env.bind(child, "a".to_string(), Object::Integer(2));
    assert_eq!(env.lookup(child, "a"), Some(&Object::Integer(2)));
    assert_eq!(env.get("a"), Some(&Object::Integer(1)));
    let sibling = env.extend(0);
    assert_eq!(env.lookup(sibling, "a"), Some(&Object::Integer(1)));
}

#[test]
fn what_is_bound_later_in_an_outer_scope_is_seen() {
    let mut env = Environment::new();
    let child = env.extend(0);
    assert_eq!(env.lookup(child, "late"), None);
    env.set("late".to_string(), Object::Null);
    assert_eq!(env.lookup(child, "late"), Some(&Object::Null));
}

#[test]
fn places_that_are_no_scopes() {
    let mut env = Environment::new();
    env.bind(7, "a".to_string(), Object::Integer(1));
    assert_eq!(env.len(), 1);
    assert_eq!(env.get("a"), None);
    assert_eq!(env.lookup(7, "a"), None);
    let dangling = env.extend(9);
    env.bind(dangling, "b".to_string(), Object::Integer(2));
    assert_eq!(env.lookup(dangling, "b"), Some(&Object::Integer(2)));
    assert_eq!(env.lookup(dangling, "a"), None);
}
