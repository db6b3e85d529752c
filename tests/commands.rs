use spacerun::bindings::Shortcut;
use spacerun::commands::{Command, CommandDisplay, ConfigError};

fn sc(s: &str) -> Shortcut {
    match Shortcut::from_str(s) {
        Ok(sc) => sc,
        Err(_) => panic!("{} should be a valid shortcut", s),
    }
}

fn leaf(shortcut: &str, name: &str, cmd: &str) -> Command {
    Command::from_entry(shortcut, name.to_string(), Some(cmd), None).unwrap()
}

fn node(shortcut: &str, name: &str, children: Vec<Command>) -> Command {
    Command::from_entry(shortcut, name.to_string(), None, Some(children)).unwrap()
}

#[test]
fn child_is_found_by_its_shortcut() {
    let n = node("r", "Root", vec![leaf("C-a", "A", "echo a"), leaf("b", "B", "echo b")]);
    let found = n.find_child_for_shortcut(&sc("C-a")).unwrap();
    assert_eq!(found.name(), "A");
    assert_eq!(*found.shortcut(), sc("C-a"));
    assert_eq!(n.find_child_for_shortcut(&sc("b")).unwrap().name(), "B");
    assert!(n.find_child_for_shortcut(&sc("x")).is_none());
    assert!(n.find_child_for_shortcut(&sc("a")).is_none());
}

#[test]
fn first_child_wins_on_equal_shortcuts() {
    let n = node("r", "Root", vec![leaf("a", "First", "1"), leaf("a", "Second", "2")]);
    assert_eq!(n.find_child_for_shortcut(&sc("a")).unwrap().name(), "First");
}

#[test]
fn leaf_has_no_children() {
    let l = leaf("a", "A", "echo a");
    assert!(l.find_child_for_shortcut(&sc("a")).is_none());
}

#[test]
fn node_lists_its_children_only() {
    let n = node(
        "r",
        "Root",
        vec![node("s", "Sub", vec![leaf("x", "Deep", "true")]), leaf("C-b", "B", "echo b")],
    );
    assert_eq!(
        n.displayable_children(),
        vec![
            CommandDisplay { shortcut: sc("s"), name: "Sub".to_string() },
            CommandDisplay { shortcut: sc("C-b"), name: "B".to_string() },
        ]
    );
    assert!(node("r", "Empty", vec![]).displayable_children().is_empty());
}

#[test]
fn leaf_lists_itself() {
    let l = leaf("M-q", "Quit", "exit");
    assert_eq!(
        l.displayable_children(),
        vec![CommandDisplay { shortcut: sc("M-q"), name: "Quit".to_string() }]
    );
    assert_eq!(CommandDisplay::from(&l), CommandDisplay { shortcut: sc("M-q"), name: "Quit".to_string() });
}

#[test]
fn entry_shape_decides_node_or_leaf() {
    match leaf("a", "A", "echo {{x}}") {
        Command::Leaf(l) => {
            assert_eq!(l.cmd.base, "echo {{x}}");
            assert_eq!(l.cmd.variables.len(), 1);
            assert_eq!(l.cmd.variables[0].name, "x");
        }
        Command::Node(_) => panic!("an entry with a command is a leaf"),
    }
    match node("a", "A", vec![]) {
        Command::Node(n) => assert!(n.children.is_empty()),
        Command::Leaf(_) => panic!("an entry with children is a node"),
    }
}

#[test]
fn malformed_entries_are_refused() {
    assert_eq!(
        Command::from_entry("a", "A".to_string(), Some("x"), Some(vec![])).unwrap_err(),
        ConfigError::AmbiguousEntry
    );
    assert_eq!(
        Command::from_entry("a", "A".to_string(), None, None).unwrap_err(),
        ConfigError::IncompleteEntry
    );
    assert_eq!(
        Command::from_entry("Z-a", "A".to_string(), Some("x"), None).unwrap_err(),
        ConfigError::InvalidShortcut
    );
    assert_eq!(
        Command::from_entry("", "A".to_string(), None, Some(vec![])).unwrap_err(),
        ConfigError::InvalidShortcut
    );
}
