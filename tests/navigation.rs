use spacerun::bindings::Shortcut;
use spacerun::commands::{Command, CommandDisplay};
use spacerun::config::{Options, SpacerunConfig};
use spacerun::state::{init_variables_form_input, NavigationAction, NavigationEvent, State};
use spacerun::template::CommandTaskVariable;
use spacerun::variables::VariableValues;
use spacerun::view::{render_app, AppContent, AppView};
use spacerun::window_position::WindowPosition;

fn sc(s: &str) -> Shortcut {
    Shortcut::from_str(s).unwrap()
}

fn leaf(shortcut: &str, name: &str, cmd: &str) -> Command {
    Command::from_entry(shortcut, name.to_string(), Some(cmd), None).unwrap()
}

fn node(shortcut: &str, name: &str, children: Vec<Command>) -> Command {
    Command::from_entry(shortcut, name.to_string(), None, Some(children)).unwrap()
}

fn state(root: Command, initial: Option<&str>) -> State {
    let config = SpacerunConfig { commands: root, font_size: None, position: None };
    State::new(config, Options { initial_shortcut: initial.map(sc) })
}

fn press(s: &mut State, key: &str) -> NavigationAction {
    s.handle_event(NavigationEvent::Press(sc(key)))
}

fn tree() -> Command {
    node(
        "a",
        "Root",
        vec![
            node(
                "s",
                "System",
                vec![
                    node("p", "Power", vec![leaf("o", "Off", "poweroff")]),
                    leaf("e", "Echo", "echo {{msg}} {{who}}"),
                ],
            ),
            leaf("b", "Hello", "echo hi"),
        ],
    )
}

fn display(s: &State) -> AppView {
    render_app(s)
}

fn choices(pairs: &[(&str, &str)]) -> AppContent {
    AppContent::Choices(
        pairs
            .iter()
            .map(|(k, n)| CommandDisplay { shortcut: sc(k), name: n.to_string() })
            .collect(),
    )
}

fn json_command(v: &serde_json::Value) -> Command {
    let shortcut = v["shortcut"].as_str().unwrap();
    let name = v["name"].as_str().unwrap().to_string();
    let cmd = v.get("cmd").map(|c| c.as_str().unwrap());
    let children = v
        .get("children")
        .map(|c| c.as_array().unwrap().iter().map(json_command).collect());
    Command::from_entry(shortcut, name, cmd, children).unwrap()
}

#[test]
fn startup_shows_root_listing() {
    let s = state(tree(), None);
    assert_eq!(
        display(&s),
        AppView {
            breadcrumb: "Root".to_string(),
            content: choices(&[("s", "System"), ("b", "Hello")]),
        }
    );
}

#[test]
fn leaf_without_variables_executes_at_once() {
    let mut s = state(tree(), None);
    let before = display(&s);
    assert_eq!(press(&mut s, "b"), NavigationAction::Execute("echo hi".to_string()));
    assert_eq!(display(&s), before);
    assert!(s.selection_path.is_empty());
}

#[test]
fn node_is_entered_with_breadcrumb() {
    let mut s = state(tree(), None);
    assert_eq!(press(&mut s, "s"), NavigationAction::Descend);
    assert_eq!(
        display(&s),
        AppView {
            breadcrumb: "Root > System".to_string(),
            content: choices(&[("p", "Power"), ("e", "Echo")]),
        }
    );
    assert_eq!(press(&mut s, "p"), NavigationAction::Descend);
    assert_eq!(display(&s).breadcrumb, "Root > System > Power");
    assert_eq!(press(&mut s, "o"), NavigationAction::Execute("poweroff".to_string()));
}

#[test]
fn back_twice_from_depth_two_restores_root_display() {
    let mut s = state(tree(), None);
    let at_root = display(&s);
    assert_eq!(press(&mut s, "s"), NavigationAction::Descend);
    assert_eq!(press(&mut s, "p"), NavigationAction::Descend);
    assert_eq!(s.handle_event(NavigationEvent::Back), NavigationAction::Backtrack);
    assert_eq!(display(&s).breadcrumb, "Root > System");
    assert_eq!(s.handle_event(NavigationEvent::Back), NavigationAction::Backtrack);
    assert_eq!(display(&s), at_root);
}

#[test]
fn back_at_root_closes() {
    let mut s = state(tree(), None);
    assert_eq!(s.handle_event(NavigationEvent::Back), NavigationAction::CloseApplication);
    assert_eq!(display(&s).breadcrumb, "Root");
}

#[test]
fn unmapped_key_changes_nothing() {
    let mut s = state(tree(), None);
    let before = display(&s);
    assert_eq!(press(&mut s, "z"), NavigationAction::Nothing);
    assert_eq!(press(&mut s, "C-b"), NavigationAction::Nothing);
    assert_eq!(display(&s), before);
}

#[test]
fn json_config_scenario() {
    let text = r#"{"commands":{"shortcut":"a","name":"Root","children":[{"shortcut":"b","name":"Hello","cmd":"echo hi"}]}}"#;
    let value: serde_json::Value = serde_json::from_str(text).unwrap();
    let mut s = state(json_command(&value["commands"]), None);
    let before = display(&s);
    assert_eq!(before.content, choices(&[("b", "Hello")]));
    assert_eq!(press(&mut s, "z"), NavigationAction::Nothing);
    assert_eq!(display(&s), before);
    assert_eq!(press(&mut s, "b"), NavigationAction::Execute("echo hi".to_string()));
}

#[test]
fn leaf_with_variables_opens_a_form() {
    let mut s = state(tree(), None);
    press(&mut s, "s");
    assert_eq!(press(&mut s, "e"), NavigationAction::Descend);
    let empty = String::new();
    assert_eq!(
        display(&s),
        AppView {
            breadcrumb: "Root > System > Echo".to_string(),
            content: AppContent::Form(vec![
                ("msg".to_string(), empty.clone()),
                ("who".to_string(), empty.clone()),
            ]),
        }
    );
    assert_eq!(press(&mut s, "p"), NavigationAction::Nothing);
    assert_eq!(
        s.handle_event(NavigationEvent::SetVariable("msg".to_string(), "hi".to_string())),
        NavigationAction::FormUpdated
    );
    assert_eq!(
        s.handle_event(NavigationEvent::SetVariable("other".to_string(), "x".to_string())),
        NavigationAction::Nothing
    );
    assert_eq!(
        s.handle_event(NavigationEvent::SetVariable("who".to_string(), "you".to_string())),
        NavigationAction::FormUpdated
    );
    assert_eq!(
        display(&s).content,
        AppContent::Form(vec![
            ("msg".to_string(), "hi".to_string()),
            ("who".to_string(), "you".to_string()),
        ])
    );
    assert_eq!(
        s.handle_event(NavigationEvent::Confirm),
        NavigationAction::Execute("echo hi you".to_string())
    );
    assert_eq!(s.handle_event(NavigationEvent::Back), NavigationAction::Backtrack);
    assert_eq!(display(&s).breadcrumb, "Root > System");
}

#[test]
fn confirm_at_a_node_does_nothing() {
    let mut s = state(tree(), None);
    assert_eq!(s.handle_event(NavigationEvent::Confirm), NavigationAction::Nothing);
    assert_eq!(
        s.handle_event(NavigationEvent::SetVariable("msg".to_string(), "x".to_string())),
        NavigationAction::Nothing
    );
}

#[test]
fn quit_and_focus_events() {
    let mut s = state(tree(), None);
    press(&mut s, "s");
    assert_eq!(s.handle_event(NavigationEvent::FocusLost), NavigationAction::KeepFocus);
    assert_eq!(s.handle_event(NavigationEvent::Quit), NavigationAction::CloseApplication);
    assert_eq!(display(&s).breadcrumb, "Root > System");
}

#[test]
fn initial_shortcut_selects_a_child() {
    let s = state(tree(), Some("s"));
    assert_eq!(display(&s).breadcrumb, "Root > System");
    let s = state(tree(), Some("b"));
    assert_eq!(display(&s).breadcrumb, "Root > Hello");
    assert_eq!(display(&s).content, AppContent::Form(vec![]));
    let s = state(tree(), Some("q"));
    assert_eq!(display(&s).breadcrumb, "Root");
}

#[test]
fn initial_shortcut_to_a_leaf_waits_for_confirm() {
    let mut s = state(tree(), Some("b"));
    assert_eq!(
        s.handle_event(NavigationEvent::Confirm),
        NavigationAction::Execute("echo hi".to_string())
    );
    assert_eq!(s.handle_event(NavigationEvent::Back), NavigationAction::Backtrack);
    assert_eq!(display(&s).breadcrumb, "Root");
}

#[test]
fn form_starts_from_defaults() {
    let vars = vec![
        CommandTaskVariable { name: "a".to_string(), default_value: Some("1".to_string()) },
        CommandTaskVariable { name: "b".to_string(), default_value: None },
        CommandTaskVariable { name: "a".to_string(), default_value: Some("2".to_string()) },
    ];
    let mut form = VariableValues::new();
    form.insert("old".to_string(), "x".to_string());
    init_variables_form_input(&mut form, &vars);
    assert_eq!(
        form.entries().clone(),
        vec![("a".to_string(), "2".to_string()), ("b".to_string(), String::new())]
    );
}

#[test]
fn root_leaf_with_variables_starts_with_its_form() {
    let mut s = state(leaf("a", "Greet", "echo {{greeting}} {{name}}"), None);
    assert_eq!(
        display(&s),
        AppView {
            breadcrumb: "Root".to_string(),
            content: AppContent::Form(vec![
                ("greeting".to_string(), String::new()),
                ("name".to_string(), String::new()),
            ]),
        }
    );
    assert_eq!(
        s.handle_event(NavigationEvent::SetVariable("name".to_string(), "you".to_string())),
        NavigationAction::FormUpdated
    );
    assert_eq!(
        s.handle_event(NavigationEvent::Confirm),
        NavigationAction::Execute("echo  you".to_string())
    );
    assert_eq!(s.handle_event(NavigationEvent::Back), NavigationAction::CloseApplication);
}

#[test]
fn config_hints_pass_through() {
    let config = SpacerunConfig {
        commands: tree(),
        font_size: Some(20),
        position: Some(WindowPosition::Bottom),
    };
    assert_eq!(config.font_size_or(14), 20);
    let config = SpacerunConfig { commands: tree(), font_size: None, position: None };
    assert_eq!(config.font_size_or(14), 14);
}
