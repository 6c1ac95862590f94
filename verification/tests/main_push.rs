use itools_plugin::main_push::{
    is_asked, new_round_id, push_script, unregister, PushItem, Ready, Round, Rounds, MAX_ITEMS_PER_PLUGIN,
};
use itools_plugin::session::ActiveSession;

fn item(title: &str) -> PushItem {
    PushItem {
        title: title.to_string(),
        subtitle: "s".to_string(),
        payload: "p".to_string(),
        code: "main".to_string(),
        icon: None,
    }
}

fn session(id: &str, dev: bool) -> ActiveSession {
    ActiveSession { id: id.to_string(), dev }
}

#[test]
fn pushed_items_name_their_plugin() {
    let s = item("t").into_search_item("demo");
    assert_eq!(s.title, "t");
    assert!(s.target.contains("demo"));
    assert!(s.id.contains("demo"));
}

#[test]
fn only_declared_plugins_push() {
    let mut r = Ready::new();
    assert!(r.register(&session("demo", false), false).is_err());
    assert!(r.register(&session("demo", false), true).is_ok());
    assert!(r.register(&session("demo", false), true).is_ok());
    assert_eq!(r.ids, vec!["demo".to_string()]);
    assert!(is_asked("q", &r));
    assert!(!is_asked("  ", &r));
    unregister(&mut r, "demo");
    assert!(!is_asked("q", &r));
}

#[test]
fn rounds_collect_what_came_in_time() {
    let mut r = Round::new(2);
    assert!(r.waits(10));
    r.answer("a", vec![item("1"), item("2")]);
    assert!(r.waits(10));
    assert!(!r.waits(0));
    let many: Vec<PushItem> = (0..20).map(|i| item(&i.to_string())).collect();
    r.answer("b", many);
    assert!(!r.waits(10));
    assert_eq!(r.collect().len(), 2 + MAX_ITEMS_PER_PLUGIN);
}

#[test]
fn late_answers_are_dropped() {
    let mut rounds = Rounds::new();
    rounds.begin("r1", 1);
    rounds.answer("other", "a", vec![item("x")]);
    assert!(rounds.waits("r1", 10));
    rounds.answer("r1", "a", vec![item("x")]);
    assert!(!rounds.waits("r1", 10));
    assert_eq!(rounds.finish("r1").len(), 1);
    rounds.answer("r1", "a", vec![item("x")]);
    assert!(rounds.finish("r1").is_empty());
}

#[test]
fn questions_are_quoted() {
    let js = push_script("r\"1", "a'b\"c");
    assert!(js.contains("\\\""), "{js}");
    assert_ne!(new_round_id(1, 2), new_round_id(1, 3));
}
