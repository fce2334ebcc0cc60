use karte::env::Env;

#[test]
fn env_init_defaults() {
    let mut e = Env::new();
    e.init();
    assert_eq!(e.get("PATH"), Some("/".to_string()));
    assert_eq!(e.get("USER"), Some("root".to_string()));
    assert_eq!(e.get("HOME"), Some("/".to_string()));
    assert_eq!(e.get("TERM"), Some("xterm-256color".to_string()));
    assert_eq!(e.list_all().len(), 4);
}

#[test]
fn env_set_then_get() {
    let mut e = Env::new();
    e.set("A", "1");
    assert_eq!(e.get("A"), Some("1".to_string()));
    e.set("A", "2");
    assert_eq!(e.get("A"), Some("2".to_string()));
    assert_eq!(e.list_all(), vec![("A".to_string(), "2".to_string())]);
}

#[test]
fn env_unset_then_get() {
    let mut e = Env::new();
    e.set("A", "1");
    e.set("B", "2");
    e.unset("A");
    assert_eq!(e.get("A"), None);
    assert_eq!(e.get("B"), Some("2".to_string()));
    e.unset("missing");
    assert_eq!(e.list_all(), vec![("B".to_string(), "2".to_string())]);
}

#[test]
fn env_list_keeps_order() {
    let mut e = Env::new();
    e.set("X", "x");
    e.set("Y", "y");
    e.set("X", "z");
    assert_eq!(
        e.list_all(),
        vec![("X".to_string(), "z".to_string()), ("Y".to_string(), "y".to_string())]
    );
}
