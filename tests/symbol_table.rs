use markup_compiler::ir::symbol_table::{Module, Type};
use std::rc::Rc;

#[test]
fn name_in_parent_scope_is_found_from_child() {
    let mut root = Module::new();
    root.add_type("int", Type::new());
    root.add_variable("x", Type::new());
    root.add_module("m", Module::new());
    let child = Module::new_child(root);
    assert!(child.solve_type("int").is_some());
    assert!(child.solve_variable("x").is_some());
    assert!(child.solve_module("m").is_some());
}

#[test]
fn unknown_name_is_not_found() {
    let mut root = Module::new();
    root.add_type("int", Type::new());
    let child = Module::new_child(Module::new_child(root));
    assert!(child.solve_type("float").is_none());
    assert!(child.solve_variable("int").is_none());
    assert!(child.solve_module("int").is_none());
    assert!(Module::new().solve_type("int").is_none());
}

#[test]
fn child_entry_hides_parent_entry() {
    let mut root = Module::new();
    root.add_variable("v", Type::new());
    let root_v = root.solve_variable("v").unwrap();
    let mut child = Module::new_child(root);
    child.add_variable("v", Type::new());
    let child_v = child.solve_variable("v").unwrap();
    assert!(!Rc::ptr_eq(&root_v, &child_v));
    assert!(Rc::ptr_eq(&child_v, &child.solve_variable("v").unwrap()));
}

#[test]
fn adding_again_replaces_the_entry() {
    let mut m = Module::new();
    m.add_type("t", Type::new());
    let first = m.solve_type("t").unwrap();
    m.add_type("t", Type::new());
    let second = m.solve_type("t").unwrap();
    assert!(!Rc::ptr_eq(&first, &second));
    assert!(Rc::ptr_eq(&second, &m.solve_type("t").unwrap()));
}

#[test]
fn nested_module_is_returned() {
    let mut inner = Module::new();
    inner.add_type("k", Type::new());
    let mut root = Module::new();
    root.add_module("inner", inner);
    let found = root.solve_module("inner").unwrap();
    assert!(found.solve_type("k").is_some());
}
