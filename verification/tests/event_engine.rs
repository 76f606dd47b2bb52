use wsaas::event_engine::EventEngine;

#[test]
fn basic_use() {
    let mut x1 = EventEngine::new();
    let t = true;
    let cb = move |s: String| {
        println!("{}", t);
        assert_eq!(s, "test");
    };

    x1.on_raw("test", cb);
    x1.emit("test".to_string());
}

#[test]
fn unon() {
    let mut x1 = EventEngine::new();
    let cb = move |s: String| {
        assert_eq!(s, "test");
    };

    x1.on_raw("test", cb);
    assert!(x1.is_set_raw("test") == true);
    x1.unon_raw("test");
    assert!(x1.is_set_raw("test") == false);
}

use std::cell::RefCell;
use std::rc::Rc;

#[test]
fn emit_calls_handler_with_its_name() {
    let seen: Rc<RefCell<Vec<String>>> = Rc::new(RefCell::new(Vec::new()));
    let log = seen.clone();
    let mut engine = EventEngine::new();
    engine.on("open".to_string(), move |s: String| log.borrow_mut().push(s));
    assert!(engine.emit("open".to_string()));
    assert!(engine.emit("open".to_string()));
    assert_eq!(*seen.borrow(), vec!["open".to_string(), "open".to_string()]);
}

#[test]
fn emit_without_handler_reports_not_set() {
    let mut engine: EventEngine<fn(String)> = EventEngine::new();
    assert!(!engine.emit("missing".to_string()));
    assert!(!engine.is_set("missing".to_string()));
}

#[test]
fn on_replaces_previous_handler() {
    let calls: Rc<RefCell<Vec<u32>>> = Rc::new(RefCell::new(Vec::new()));
    let mut engine: EventEngine<Box<dyn FnMut(String)>> = EventEngine::new();
    let first = calls.clone();
    engine.on_raw("e", Box::new(move |_s: String| first.borrow_mut().push(1)));
    let second = calls.clone();
    engine.on_raw("e", Box::new(move |_s: String| second.borrow_mut().push(2)));
    assert!(engine.emit("e".to_string()));
    assert_eq!(*calls.borrow(), vec![2]);
}

#[test]
fn other_names_keep_their_handlers() {
    let calls: Rc<RefCell<Vec<String>>> = Rc::new(RefCell::new(Vec::new()));
    let mut engine: EventEngine<Box<dyn FnMut(String)>> = EventEngine::new();
    let a = calls.clone();
    engine.on_raw("a", Box::new(move |s: String| a.borrow_mut().push(s)));
    let b = calls.clone();
    engine.on_raw("b", Box::new(move |s: String| b.borrow_mut().push(s)));
    engine.unon("a".to_string());
    assert!(!engine.is_set_raw("a"));
    assert!(engine.is_set_raw("b"));
    assert!(!engine.emit("a".to_string()));
    assert!(engine.emit("b".to_string()));
    assert_eq!(*calls.borrow(), vec!["b".to_string()]);
}

#[test]
fn unon_of_unknown_name_changes_nothing() {
    let mut engine = EventEngine::new();
    engine.on_raw("kept", |_s: String| {});
    engine.unon_raw("never-set");
    assert!(engine.is_set_raw("kept"));
    assert!(!engine.is_set_raw("never-set"));
}

#[test]
fn on_then_unon_restores_unset() {
    let mut engine: EventEngine<Box<dyn FnMut(String)>> = EventEngine::new();
    assert!(!engine.is_set_raw("x"));
    engine.on_raw("x", Box::new(|_s: String| {}));
    engine.unon_raw("x");
    assert!(!engine.is_set_raw("x"));
    engine.on("x".to_string(), Box::new(|_s: String| {}));
    assert!(engine.is_set("x".to_string()));
}
