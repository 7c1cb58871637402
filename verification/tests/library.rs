use i3_wsnames::functions::{
    default_config, do_window, do_workspace, go_to_workspace_command, handle_command_reply,
    names_number, rename_workspace_command, set_current_layout_command,
};
use i3_wsnames::lexical::{str_eq, str_lt};
use i3_wsnames::model::{
    CommandOutcome, CommandReply, Config, ConfigRename, ConfigWorkspace, I3WSNamesError, Node,
    NodeLayout, NodeType, RequestError, WindowDigest, Workspace, WorkspaceChange,
};
use i3_wsnames::tree::{
    classes_from_captures, parse, parse_outputs, parse_windows, parse_workspaces, window_classes,
};
use i3_wsnames::workspace_tree::WorkspaceTree;

fn node(id: i64, name: Option<&str>, nodetype: NodeType, window: Option<i32>, nodes: Vec<Node>) -> Node {
    Node {
        id,
        name: name.map(|n| n.to_string()),
        nodetype,
        layout: NodeLayout::SplitH,
        urgent: false,
        focused: false,
        window,
        nodes,
    }
}

fn workspace(id: i64) -> Workspace {
    Workspace { id, layout: NodeLayout::Tabbed, urgent: false, focused: true }
}

#[test]
fn lexical_order_follows_string_order() {
    assert!(str_lt("a", "b"));
    assert!(!str_lt("b", "a"));
    assert!(str_lt("ab", "abc"));
    assert!(!str_lt("abc", "ab"));
    assert!(!str_lt("same", "same"));
    assert!(str_lt("", "x"));
    assert!(str_lt("Z", "a"));
    assert_eq!(str_lt("é", "z"), "é" < "z");
    assert!(str_eq("workspace", "workspace"));
    assert!(!str_eq("workspace", "workspaces"));
}

#[test]
fn workspace_tree_lookup_after_insert() {
    let mut tree = WorkspaceTree::new();
    assert!(tree.get("1").is_none());
    tree.insert("2".to_string(), workspace(20));
    tree.insert("1".to_string(), workspace(10));
    tree.insert("3".to_string(), workspace(30));
    assert_eq!(tree.get("1").unwrap().id, 10);
    assert_eq!(tree.get("2").unwrap().id, 20);
    assert_eq!(tree.get("3").unwrap().id, 30);
    assert!(tree.get("4").is_none());
    tree.insert("2".to_string(), workspace(21));
    assert_eq!(tree.get("2").unwrap().id, 21);
    assert_eq!(tree.get("1").unwrap().id, 10);
    let copy = tree.clone();
    assert_eq!(copy.get("3").unwrap().id, 30);
}

#[test]
fn workspace_tree_keeps_names_in_order() {
    let mut tree = WorkspaceTree::new();
    tree.insert("b".to_string(), workspace(2));
    tree.insert("c".to_string(), workspace(3));
    tree.insert("a".to_string(), workspace(1));
    let shown = format!("{:?}", tree);
    let a = shown.find("\"a\"").unwrap();
    let b = shown.find("\"b\"").unwrap();
    let c = shown.find("\"c\"").unwrap();
    assert!(a < b && b < c);
}

#[test]
fn parse_workspaces_collects_workspaces_and_windows() {
    let ws1 = node(
        1,
        Some("1"),
        NodeType::Workspace,
        None,
        vec![
            node(11, Some("term"), NodeType::Con, Some(1100), vec![]),
            node(
                12,
                None,
                NodeType::Con,
                None,
                vec![
                    node(121, Some("a"), NodeType::Con, Some(1210), vec![]),
                    node(122, Some("b"), NodeType::Con, Some(1220), vec![]),
                ],
            ),
        ],
    );
    let unnamed = node(2, None, NodeType::Workspace, None, vec![node(21, Some("c"), NodeType::Con, Some(2100), vec![])]);
    let ws3 = node(3, Some("3"), NodeType::Workspace, None, vec![]);
    let digest = parse_workspaces(vec![ws1, unnamed, ws3]);
    assert_eq!(digest.workspaces.get("1").unwrap().id, 1);
    assert_eq!(digest.workspaces.get("3").unwrap().id, 3);
    assert!(digest.workspaces.get("2").is_none());
    let ids: Vec<(i64, i64)> = digest.windows.iter().map(|d| (d.window_data.id, d.workspace_id)).collect();
    assert_eq!(ids, vec![(11, 1), (121, 1), (122, 1), (21, 2)]);
}

#[test]
fn parse_workspaces_later_name_wins() {
    let first = node(1, Some("x"), NodeType::Workspace, None, vec![]);
    let second = node(2, Some("x"), NodeType::Workspace, None, vec![]);
    let digest = parse_workspaces(vec![first, second]);
    assert_eq!(digest.workspaces.get("x").unwrap().id, 2);
}

#[test]
fn window_classes_reads_quoted_names() {
    let classes = window_classes("WM_CLASS(STRING) = \"navigator\", \"Firefox\"\n").unwrap();
    assert_eq!(classes, vec!["navigator".to_string(), "Firefox".to_string()]);
    let none = window_classes("WM_CLASS:  not found.\n").unwrap();
    assert!(none.is_empty());
    let skips_empty = window_classes("\"\"x\"y\"").unwrap();
    assert_eq!(skips_empty, vec!["x".to_string()]);
}

#[test]
fn classes_from_captures_fails_on_missing_group() {
    assert_eq!(classes_from_captures(None), None);
    assert_eq!(
        classes_from_captures(Some(vec![Some("a".to_string()), Some("b".to_string())])),
        Some(vec!["a".to_string(), "b".to_string()])
    );
    assert_eq!(classes_from_captures(Some(vec![Some("a".to_string()), None])), None);
    assert_eq!(classes_from_captures(Some(vec![])), Some(vec![]));
}

#[test]
fn parse_windows_keeps_last_window_per_id() {
    let digests = vec![
        WindowDigest { window_data: node(5, Some("first"), NodeType::Con, Some(50), vec![]), workspace_id: 1 },
        WindowDigest { window_data: node(6, Some("other"), NodeType::Con, Some(60), vec![]), workspace_id: 1 },
        WindowDigest { window_data: node(5, Some("second"), NodeType::Con, Some(51), vec![]), workspace_id: 2 },
    ];
    let classes = vec![vec!["A".to_string()], vec![], vec!["B".to_string(), "b".to_string()]];
    let windows = parse_windows(digests, classes);
    assert_eq!(windows.len(), 2);
    let five = windows.get(&5).unwrap();
    assert_eq!(five.name, "second");
    assert_eq!(five.x11_id, 51);
    assert_eq!(five.in_workspace, 2);
    assert_eq!(five.class, vec!["B".to_string(), "b".to_string()]);
    assert_eq!(five.display_name, "gotta load this from the config, doug");
    let six = windows.get(&6).unwrap();
    assert_eq!(six.name, "other");
    assert!(six.class.is_empty());
}

fn sample_tree() -> Node {
    let content = node(
        100,
        Some("content"),
        NodeType::Con,
        None,
        vec![node(1, Some("1"), NodeType::Workspace, None, vec![node(11, Some("term"), NodeType::Con, Some(1100), vec![])])],
    );
    let dock = node(101, Some("topdock"), NodeType::DockArea, None, vec![]);
    let output = node(10, Some("HDMI-1"), NodeType::Output, None, vec![dock, content]);
    let internal = node(
        20,
        Some("__i3"),
        NodeType::Output,
        None,
        vec![node(200, Some("content"), NodeType::Con, None, vec![node(2, Some("__i3_scratch"), NodeType::Workspace, None, vec![])])],
    );
    let unnamed = node(30, None, NodeType::Output, None, vec![node(300, Some("content"), NodeType::Con, None, vec![])]);
    node(0, Some("root"), NodeType::Root, None, vec![internal, output, unnamed])
}

#[test]
fn parse_outputs_skips_internal_output() {
    let areas = parse_outputs(sample_tree());
    assert_eq!(areas.len(), 1);
    assert_eq!(areas[0].0, "HDMI-1");
    assert_eq!(areas[0].1.workspaces.get("1").unwrap().id, 1);
    assert!(areas[0].1.workspaces.get("__i3_scratch").is_none());
    assert_eq!(areas[0].1.windows.len(), 1);
}

#[test]
fn parse_builds_one_tree_per_content_area() {
    let trees = parse(sample_tree(), vec![vec![vec!["URxvt".to_string()]]]);
    assert_eq!(trees.len(), 1);
    assert_eq!(trees[0].output, "HDMI-1");
    assert_eq!(trees[0].workspaces.get("1").unwrap().id, 1);
    let window = trees[0].windows.get(&11).unwrap();
    assert_eq!(window.x11_id, 1100);
    assert_eq!(window.name, "term");
    assert_eq!(window.class, vec!["URxvt".to_string()]);
}

#[test]
fn names_number_matches_decimal() {
    assert!(names_number("0", 0));
    assert!(names_number("7", 7));
    assert!(names_number("42", 42));
    assert!(names_number("255", 255));
    assert!(names_number("100", 100));
    assert!(!names_number("042", 42));
    assert!(!names_number("4", 42));
    assert!(!names_number("web", 1));
    assert!(!names_number("", 0));
}

fn config_with(rules: Vec<(u8, &str)>) -> Config {
    Config {
        rename: ConfigRename {
            windows: vec![],
            workspaces: rules
                .into_iter()
                .map(|(number, name)| ConfigWorkspace { number, name: name.to_string(), layout: None })
                .collect(),
        },
        cross_boundary: false,
    }
}

#[test]
fn do_workspace_renames_to_configured_name() {
    let config = config_with(vec![(1, "web"), (3, "mail"), (3, "chat")]);
    assert_eq!(
        do_workspace(WorkspaceChange::Empty, Some("3".to_string()), &config),
        Some("rename workspace to \"mail\"".to_string())
    );
    assert_eq!(
        do_workspace(WorkspaceChange::Empty, Some("1".to_string()), &config),
        Some("rename workspace to \"web\"".to_string())
    );
    assert_eq!(do_workspace(WorkspaceChange::Empty, Some("2".to_string()), &config), None);
    assert_eq!(do_workspace(WorkspaceChange::Empty, Some("mail".to_string()), &config), None);
    assert_eq!(do_workspace(WorkspaceChange::Focus, Some("3".to_string()), &config), None);
    assert_eq!(do_workspace(WorkspaceChange::Init, None, &config), None);
}

#[test]
fn command_lines() {
    assert_eq!(go_to_workspace_command("mail"), "workspace \"mail\"");
    assert_eq!(rename_workspace_command("3: mail"), "rename workspace to \"3: mail\"");
    assert_eq!(set_current_layout_command("tabbed"), "layout \"tabbed\"");
}

#[test]
fn handle_command_reply_outcomes() {
    let ok = CommandReply { outcomes: vec![CommandOutcome { success: true, error: None }] };
    assert!(handle_command_reply(Ok(ok)).is_ok());
    let failed = CommandReply {
        outcomes: vec![CommandOutcome { success: false, error: Some("No such workspace".to_string()) }],
    };
    match handle_command_reply(Ok(failed)) {
        Err(I3WSNamesError::Request(RequestError::I3Command(message))) => assert_eq!(message, "No such workspace"),
        other => panic!("unexpected {:?}", other),
    }
    let error = i3ipc::MessageError::Send(std::io::Error::new(std::io::ErrorKind::Other, "gone"));
    match handle_command_reply(Err(error)) {
        Err(I3WSNamesError::Request(RequestError::I3Message(i3ipc::MessageError::Send(e)))) => {
            assert_eq!(e.to_string(), "gone")
        }
        other => panic!("unexpected {:?}", other),
    }
}

#[test]
fn default_config_is_empty() {
    let config = default_config();
    assert!(config.rename.workspaces.is_empty());
    assert!(config.rename.windows.is_empty());
    assert!(!config.cross_boundary);
}

#[test]
fn do_window_keeps_trees() {
    let trees = parse(sample_tree(), vec![vec![vec![]]]);
    let kept = do_window(trees).unwrap();
    assert_eq!(kept.len(), 1);
    assert_eq!(kept[0].output, "HDMI-1");
}
