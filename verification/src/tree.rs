//! The walk over an i3 tree: from outputs to content areas to workspaces to
//! windows, building for each output its workspace and window tables.

use std::collections::BTreeMap;
use vstd::prelude::*;

use crate::model::{Node, Window, WindowDigest, WorkspaceDigest, Workspace, WindowTree, NodeType, Tree};
use crate::lexical::str_eq;
use crate::outside::{capture_group, captures_view, regex_capture_group};
use crate::workspace_tree::WorkspaceTree;

verus! {

/// What is kept of a workspace node.
pub open spec fn workspace_of(n: Node) -> Workspace {
    Workspace { id: n.id, layout: n.layout, urgent: n.urgent, focused: n.focused }
}

/// The workspaces of a list of workspace nodes: each node that has a name,
/// under that name; of two nodes with one name, the later one.
pub open spec fn named_workspaces(nodes: Seq<Node>) -> Map<Seq<char>, Workspace>
    decreases nodes.len(),
{
    if nodes.len() == 0 {
        Map::empty()
    } else {
        let rest = named_workspaces(nodes.drop_last());
        match nodes.last().name {
            Some(name) => rest.insert(name@, workspace_of(nodes.last())),
            None => rest,
        }
    }
}

/// The window nodes that one container of workspace `workspace_id` stands
/// for: its children when it has any, the container itself otherwise.
pub open spec fn container_windows(c: Node, workspace_id: i64) -> Seq<WindowDigest> {
    if c.nodes@.len() > 0 {
        c.nodes@.map_values(|w: Node| WindowDigest { window_data: w, workspace_id })
    } else {
        seq![WindowDigest { window_data: c, workspace_id }]
    }
}

/// The window nodes of a list of containers, container by container.
pub open spec fn containers_windows(cs: Seq<Node>, workspace_id: i64) -> Seq<WindowDigest>
    decreases cs.len(),
{
    if cs.len() == 0 {
        seq![]
    } else {
        containers_windows(cs.drop_last(), workspace_id) + container_windows(cs.last(), workspace_id)
    }
}

/// The window nodes of a list of workspace nodes, workspace by workspace.
pub open spec fn workspaces_windows(nodes: Seq<Node>) -> Seq<WindowDigest>
    decreases nodes.len(),
{
    if nodes.len() == 0 {
        seq![]
    } else {
        workspaces_windows(nodes.drop_last()) + containers_windows(nodes.last().nodes@, nodes.last().id)
    }
}

/// Collects, from the workspace nodes of one content area, the table of
/// named workspaces and the window nodes with their workspace's id.
pub fn parse_workspaces(workspace_nodes: Vec<Node>) -> (digest: WorkspaceDigest)
    ensures
        digest.workspaces@ == named_workspaces(workspace_nodes@),
        digest.windows@ == workspaces_windows(workspace_nodes@),
{
    let ghost all = workspace_nodes@;
    let mut tree_workspaces = WorkspaceTree::new();
    let mut window_digest: Vec<WindowDigest> = Vec::new();
    for workspace in it: workspace_nodes
        invariant
            it.seq() == all,
            tree_workspaces@ == named_workspaces(all.take(it.index() as int)),
            window_digest@ == workspaces_windows(all.take(it.index() as int)),
    {
        proof {
            assert(all.take(it.index() + 1).drop_last() =~= all.take(it.index() as int));
        }
        let Node { nodes: containers, name: workspace_name, id: workspace_id, layout, urgent, focused, .. } = workspace;
        match workspace_name {
            Some(name) => {
                tree_workspaces.insert(name, Workspace { id: workspace_id, layout, urgent, focused });
            },
            None => {},
        }
        let ghost before = window_digest@;
        let ghost cs = containers@;
        for container in cit: containers
            invariant
                cit.seq() == cs,
                window_digest@ == before + containers_windows(cs.take(cit.index() as int), workspace_id),
        {
            proof {
                assert(cs.take(cit.index() + 1).drop_last() =~= cs.take(cit.index() as int));
            }
            if container.nodes.len() > 0 {
                let ghost children = container.nodes@;
                let ghost mid = window_digest@;
                let Node { nodes: windows, .. } = container;
                for window in wit: windows
                    invariant
                        wit.seq() == children,
                        window_digest@ == mid + children.take(wit.index() as int).map_values(|w: Node| WindowDigest { window_data: w, workspace_id }),
                {
                    window_digest.push(WindowDigest { window_data: window, workspace_id });
                    proof {
                        assert(children.take(wit.index() + 1) =~= children.take(wit.index() as int).push(window));
                    }
                }
                proof {
                    assert(children.take(children.len() as int) =~= children);
                }
            } else {
                window_digest.push(WindowDigest { window_data: container, workspace_id });
            }
            assert(window_digest@ =~= before + containers_windows(cs.take(cit.index() + 1), workspace_id));
        }
        proof {
            assert(cs.take(cs.len() as int) =~= cs);
        }
    }
    proof {
        assert(all.take(all.len() as int) =~= all);
    }
    WorkspaceDigest { workspaces: tree_workspaces, windows: window_digest }
}

/// The expression that picks the class names out of `xprop`'s `WM_CLASS`
/// line: every quoted, non-empty run of characters.
pub open spec fn wm_class_pattern() -> Seq<char> {
    "\"([^\"]+)\""@
}

/// The class-name expression, character by character: a quote, then a
/// capture group (group 1) of one or more characters from the class of every
/// character but a quote, then a quote. So whatever a class name holds other
/// than a quote (letters, digits, `-`, `.`, spaces), its quoted run is
/// searched for; the expression is not narrowed to some kinds of character.
pub proof fn law_wm_class_pattern_is_quoted_run()
    ensures
        wm_class_pattern() =~= seq!['"', '(', '[', '^', '"', ']', '+', ')', '"'],
        wm_class_pattern().len() == 9,
{
    reveal_strlit("\"([^\"]+)\"");
}

/// Every capture took part in its match.
pub open spec fn all_present(captures: Seq<Option<String>>) -> bool {
    forall|i: int| 0 <= i < captures.len() ==> (#[trigger] captures[i]) is Some
}

/// The class names in a list of captures: `None` when the expression did
/// not compile or a capture is missing, the captured texts otherwise.
pub fn classes_from_captures(captures: Option<Vec<Option<String>>>) -> (classes: Option<Vec<String>>)
    ensures
        match captures {
            None => classes is None,
            Some(c) => if all_present(c@) {
                &&& classes is Some
                &&& classes->0@.len() == c@.len()
                &&& forall|i: int| 0 <= i < c@.len() ==> Some(#[trigger] classes->0@[i]) == c@[i]
            } else {
                classes is None
            },
        },
{
    let ghost given = captures;
    match captures {
        None => None,
        Some(c) => {
            let ghost cs = c@;
            let mut classes: Vec<String> = Vec::new();
            for capture in it: c
                invariant
                    it.seq() == cs,
                    given == captures,
                    given is Some && given->0@ == cs,
                    classes@.len() == it.index(),
                    forall|i: int| 0 <= i < it.index() ==> Some(#[trigger] classes@[i]) == cs[i],
            {
                match capture {
                    Some(class) => classes.push(class),
                    None => {
                        assert(cs[it.index() as int] is None);
                        assert(!all_present(cs));
                        return None;
                    },
                }
            }
            assert(classes@.len() == cs.len());
            assert forall|i: int| 0 <= i < cs.len() implies (#[trigger] cs[i]) is Some by {
                assert(Some(classes@[i]) == cs[i]);
            }
            Some(classes)
        },
    }
}

/// The class names in the output of `xprop -id <window> WM_CLASS`: the
/// text of each quoted run, in order. `None` where the matching fails.
pub fn window_classes(xprop_output: &str) -> (classes: Option<Vec<String>>)
    ensures
        match regex_capture_group(wm_class_pattern(), xprop_output@, 1) {
            None => classes is None,
            Some(c) => if forall|i: int| 0 <= i < c.len() ==> (#[trigger] c[i]) is Some {
                &&& classes is Some
                &&& classes->0@.len() == c.len()
                &&& forall|i: int| 0 <= i < c.len() ==> Some(#[trigger] classes->0@[i]@) == c[i]
            } else {
                classes is None
            },
        },
{
    let captures = capture_group("\"([^\"]+)\"", xprop_output, 1);
    let ghost gcaptures = captures;
    let classes = classes_from_captures(captures);
    let ghost gclasses = classes;
    proof {
        if let Some(c) = gcaptures {
            let cv = captures_view(c@);
            assert(all_present(c@) <==> forall|i: int| 0 <= i < cv.len() ==> (#[trigger] cv[i]) is Some) by {
                if all_present(c@) {
                    assert forall|i: int| 0 <= i < cv.len() implies (#[trigger] cv[i]) is Some by {
                        assert(c@[i] is Some);
                    }
                } else {
                    let i = choose|i: int| 0 <= i < c@.len() && !(c@[i] is Some);
                    assert(!(cv[i] is Some));
                }
            }
            if let Some(cl) = gclasses {
                assert forall|i: int| 0 <= i < cv.len() implies Some(#[trigger] cl@[i]@) == cv[i] by {
                    assert(Some(cl@[i]) == c@[i]);
                }
            }
        }
    }
    classes
}

/// The name shown for every window for now.
pub open spec fn placeholder_display_name() -> Seq<char> {
    "gotta load this from the config, doug"@
}

/// `w` is the window kept of digest `d`, whose class names are `classes`.
pub open spec fn window_kept(w: Window, d: WindowDigest, classes: Vec<String>) -> bool {
    &&& w.in_workspace == d.workspace_id
    &&& w.x11_id == d.window_data.window->0
    &&& w.name == d.window_data.name->0
    &&& w.display_name@ == placeholder_display_name()
    &&& w.class == classes
    &&& w.urgent == d.window_data.urgent
    &&& w.focused == d.window_data.focused
}

/// Every digest is of an X11 window that has a name.
pub open spec fn digests_are_windows(ds: Seq<WindowDigest>) -> bool {
    forall|i: int| 0 <= i < ds.len() ==> (#[trigger] ds[i]).window_data.window is Some && ds[i].window_data.name is Some
}

/// No digest after the `i`th among the first `n` has the `i`th's node id.
pub open spec fn last_with_id(ds: Seq<WindowDigest>, i: int, n: int) -> bool {
    forall|j: int| i < j < n ==> (#[trigger] ds[j]).window_data.id != ds[i].window_data.id
}

/// `windows` is the table built from the first `n` digests: it has an entry
/// for each node id among them, holding the window kept of the last digest
/// with that id.
pub open spec fn windows_table(windows: Map<i64, Window>, ds: Seq<WindowDigest>, classes: Seq<Vec<String>>, n: int) -> bool {
    &&& forall|id: i64| #[trigger] windows.contains_key(id) <==> exists|i: int| 0 <= i < n && (#[trigger] ds[i]).window_data.id == id
    &&& forall|i: int| 0 <= i < n && last_with_id(ds, i, n) ==> window_kept(windows[(#[trigger] ds[i]).window_data.id], ds[i], classes[i])
}

/// Builds the window table of one output from its window digests, the
/// `i`th digest's class names being `classes[i]`: one entry per node id, the
/// last digest with an id giving its window.
pub fn parse_windows(windows_digest: Vec<WindowDigest>, classes: Vec<Vec<String>>) -> (windows: WindowTree)
    requires
        windows_digest@.len() == classes@.len(),
        digests_are_windows(windows_digest@),
    ensures
        windows_table(windows@, windows_digest@, classes@, windows_digest@.len() as int),
{
    let ghost ds = windows_digest@;
    let ghost cs = classes@;
    let mut windows: WindowTree = BTreeMap::new();
    let mut rest = classes;
    for digest in it: windows_digest
        invariant
            it.seq() == ds,
            ds.len() == cs.len(),
            digests_are_windows(ds),
            rest@ == cs.skip(it.index() as int),
            windows_table(windows@, ds, cs, it.index() as int),
    {
        let ghost k = it.index() as int;
        assert(ds[k] == digest);
        let class = rest.remove(0);
        assert(class == cs[k]);
        assert(rest@ =~= cs.skip(k + 1));
        let WindowDigest { window_data, workspace_id } = digest;
        let id = window_data.id;
        let window = Window {
            in_workspace: workspace_id,
            x11_id: window_data.window.unwrap(),
            name: window_data.name.unwrap(),
            display_name: "gotta load this from the config, doug".to_string(),
            urgent: window_data.urgent,
            focused: window_data.focused,
            class,
        };
        let ghost before = windows@;
        windows.insert(id, window);
        assert(windows@ == before.insert(id, window));
        assert(window_kept(window, ds[k], cs[k]));
        assert forall|key: i64| #[trigger] windows@.contains_key(key) <==> exists|i: int| 0 <= i < k + 1 && (#[trigger] ds[i]).window_data.id == key by {
            if key == id {
                assert(ds[k].window_data.id == key);
            } else if windows@.contains_key(key) {
                let i = choose|i: int| 0 <= i < k && (#[trigger] ds[i]).window_data.id == key;
                assert(ds[i].window_data.id == key);
            } else {
                if exists|i: int| 0 <= i < k + 1 && (#[trigger] ds[i]).window_data.id == key {
                    let i = choose|i: int| 0 <= i < k + 1 && (#[trigger] ds[i]).window_data.id == key;
                    assert(ds[i].window_data.id == key);
                }
            }
        }
        assert forall|i: int| 0 <= i < k + 1 && last_with_id(ds, i, k + 1) implies window_kept(windows@[(#[trigger] ds[i]).window_data.id], ds[i], cs[i]) by {
            if i < k {
                assert(ds[k].window_data.id != ds[i].window_data.id);
                assert(last_with_id(ds, i, k)) by {
                    assert forall|j: int| i < j < k implies (#[trigger] ds[j]).window_data.id != ds[i].window_data.id by {
                        assert(ds[j].window_data.id != ds[i].window_data.id);
                    }
                }
            }
        }
    }
    windows
}

/// A node that is an output, with a name, and not i3's internal `__i3`
/// output.
pub open spec fn is_listed_output(n: Node) -> bool {
    &&& n.nodetype == NodeType::Output
    &&& n.name is Some
    &&& n.name->0@ != "__i3"@
}

/// The plain containers among the children of output `name` (its content
/// areas), each paired with the output's name.
pub open spec fn output_content_areas(name: String, areas: Seq<Node>) -> Seq<(String, Node)>
    decreases areas.len(),
{
    if areas.len() == 0 {
        seq![]
    } else {
        output_content_areas(name, areas.drop_last()) + if areas.last().nodetype == NodeType::Con {
            seq![(name, areas.last())]
        } else {
            seq![]
        }
    }
}

/// The content areas of all listed outputs among `outputs`, output by
/// output, each paired with its output's name.
pub open spec fn content_areas(outputs: Seq<Node>) -> Seq<(String, Node)>
    decreases outputs.len(),
{
    if outputs.len() == 0 {
        seq![]
    } else {
        content_areas(outputs.drop_last()) + if is_listed_output(outputs.last()) {
            output_content_areas(outputs.last().name->0, outputs.last().nodes@)
        } else {
            seq![]
        }
    }
}

/// `d` is what `parse_workspaces` makes of the workspace nodes of `area`.
pub open spec fn digest_of_area(d: WorkspaceDigest, area: Node) -> bool {
    &&& d.workspaces@ == named_workspaces(area.nodes@)
    &&& d.windows@ == workspaces_windows(area.nodes@)
}

/// Finds the content areas of the outputs of an i3 tree, and for each the
/// name of its output and its workspaces and window nodes.
pub fn parse_outputs(tree: Node) -> (areas: Vec<(String, WorkspaceDigest)>)
    ensures
        areas@.len() == content_areas(tree.nodes@).len(),
        forall|k: int| 0 <= k < areas@.len() ==> {
            &&& (#[trigger] areas@[k]).0 == content_areas(tree.nodes@)[k].0
            &&& digest_of_area(areas@[k].1, content_areas(tree.nodes@)[k].1)
        },
{
    let ghost outputs = tree.nodes@;
    let Node { nodes, .. } = tree;
    let mut areas: Vec<(String, WorkspaceDigest)> = Vec::new();
    for node in it: nodes
        invariant
            it.seq() == outputs,
            areas@.len() == content_areas(outputs.take(it.index() as int)).len(),
            forall|k: int| 0 <= k < areas@.len() ==> {
                &&& (#[trigger] areas@[k]).0 == content_areas(outputs.take(it.index() as int))[k].0
                &&& digest_of_area(areas@[k].1, content_areas(outputs.take(it.index() as int))[k].1)
            },
    {
        let ghost k = it.index() as int;
        let ghost done = content_areas(outputs.take(k));
        proof {
            assert(outputs.take(k + 1).drop_last() =~= outputs.take(k));
            assert(outputs.take(k + 1).last() == node);
        }
        let ghost children = node.nodes@;
        let ghost output_name = node.name;
        let Node { nodes: outputs_areas, name, nodetype, .. } = node;
        if nodetype == NodeType::Output {
            match name {
                Some(name) => {
                    if !str_eq(name.as_str(), "__i3") {
                        for area in ait: outputs_areas
                            invariant
                                ait.seq() == children,
                                output_name == Some(name),
                                areas@.len() == done.len() + output_content_areas(name, children.take(ait.index() as int)).len(),
                                forall|k: int| 0 <= k < areas@.len() ==> {
                                    &&& (#[trigger] areas@[k]).0 == (done + output_content_areas(name, children.take(ait.index() as int)))[k].0
                                    &&& digest_of_area(areas@[k].1, (done + output_content_areas(name, children.take(ait.index() as int)))[k].1)
                                },
                        {
                            let ghost j = ait.index() as int;
                            proof {
                                assert(children.take(j + 1).drop_last() =~= children.take(j));
                                assert(children.take(j + 1).last() == area);
                            }
                            if area.nodetype == NodeType::Con {
                                let Node { nodes: workspaces, .. } = area;
                                let digest = parse_workspaces(workspaces);
                                areas.push((name.clone(), digest));
                            }
                            assert(forall|k: int| 0 <= k < areas@.len() ==> (#[trigger] areas@[k]).0 == (done + output_content_areas(name, children.take(j + 1)))[k].0);
                        }
                        proof {
                            assert(children.take(children.len() as int) =~= children);
                        }
                    }
                },
                None => {},
            }
        }
        assert(areas@.len() == content_areas(outputs.take(k + 1)).len());
    }
    proof {
        assert(outputs.take(outputs.len() as int) =~= outputs);
    }
    areas
}

/// The window nodes of the `k`th content area of `tree`.
pub open spec fn area_windows(tree: Node, k: int) -> Seq<WindowDigest> {
    workspaces_windows(content_areas(tree.nodes@)[k].1.nodes@)
}

/// `classes` gives the class names of every window node of every content
/// area of `tree` (`classes[k][i]` for the `i`th of the `k`th area), and each
/// of those nodes is an X11 window with a name.
pub open spec fn classes_fit(tree: Node, classes: Seq<Vec<Vec<String>>>, k: int) -> bool {
    &&& classes[k]@.len() == area_windows(tree, k).len()
    &&& digests_are_windows(area_windows(tree, k))
}

/// Builds, for each content area of each output of an i3 tree, the table of
/// its workspaces and the table of its windows, given the class names of
/// each window node (`classes[k][i]` for the `i`th window node of the `k`th
/// area).
pub fn parse(tree: Node, classes: Vec<Vec<Vec<String>>>) -> (trees: Vec<Tree>)
    requires
        classes@.len() == content_areas(tree.nodes@).len(),
        forall|k: int| 0 <= k < classes@.len() ==> #[trigger] classes_fit(tree, classes@, k),
    ensures
        trees@.len() == content_areas(tree.nodes@).len(),
        forall|k: int| 0 <= k < trees@.len() ==> {
            &&& (#[trigger] trees@[k]).output == content_areas(tree.nodes@)[k].0
            &&& trees@[k].workspaces@ == named_workspaces(content_areas(tree.nodes@)[k].1.nodes@)
            &&& windows_table(trees@[k].windows@, area_windows(tree, k), classes@[k]@, area_windows(tree, k).len() as int)
        },
{
    let ghost whole = tree;
    let ghost cs = classes@;
    let ghost n = content_areas(tree.nodes@).len();
    let areas = parse_outputs(tree);
    let mut rest = classes;
    let mut trees: Vec<Tree> = Vec::new();
    for area in it: areas
        invariant
            it.seq().len() == n,
            forall|k: int| 0 <= k < n ==> {
                &&& (#[trigger] it.seq()[k]).0 == content_areas(whole.nodes@)[k].0
                &&& digest_of_area(it.seq()[k].1, content_areas(whole.nodes@)[k].1)
            },
            cs.len() == n,
            forall|k: int| 0 <= k < n ==> #[trigger] classes_fit(whole, cs, k),
            rest@ == cs.skip(it.index() as int),
            trees@.len() == it.index(),
            forall|k: int| 0 <= k < it.index() ==> {
                &&& (#[trigger] trees@[k]).output == content_areas(whole.nodes@)[k].0
                &&& trees@[k].workspaces@ == named_workspaces(content_areas(whole.nodes@)[k].1.nodes@)
                &&& windows_table(trees@[k].windows@, area_windows(whole, k), cs[k]@, area_windows(whole, k).len() as int)
            },
    {
        let ghost k = it.index() as int;
        assert(it.seq()[k] == area);
        assert(classes_fit(whole, cs, k));
        let area_classes = rest.remove(0);
        assert(area_classes == cs[k]);
        assert(rest@ =~= cs.skip(k + 1));
        let (output, digest) = area;
        let WorkspaceDigest { workspaces, windows } = digest;
        let windows = parse_windows(windows, area_classes);
        trees.push(Tree { workspaces, windows, output });
    }
    trees
}

/// Every named workspace node has an entry under its name; the entry is the
/// node's when no later node has that name.
pub proof fn law_named_workspaces_entries(nodes: Seq<Node>, i: int)
    requires
        0 <= i < nodes.len(),
        nodes[i].name is Some,
    ensures
        named_workspaces(nodes).contains_key(nodes[i].name->0@),
        (forall|j: int| i < j < nodes.len() ==> !((#[trigger] nodes[j]).name matches Some(n) && n@ == nodes[i].name->0@))
            ==> {
            &&& named_workspaces(nodes)[nodes[i].name->0@].id == nodes[i].id
            &&& named_workspaces(nodes)[nodes[i].name->0@].layout == nodes[i].layout
            &&& named_workspaces(nodes)[nodes[i].name->0@].urgent == nodes[i].urgent
            &&& named_workspaces(nodes)[nodes[i].name->0@].focused == nodes[i].focused
        },
    decreases nodes.len(),
{
    let rest = nodes.drop_last();
    if i < nodes.len() - 1 {
        assert(rest[i] == nodes[i]);
        law_named_workspaces_entries(rest, i);
        if forall|j: int| i < j < nodes.len() ==> !((#[trigger] nodes[j]).name matches Some(n) && n@ == nodes[i].name->0@) {
            assert forall|j: int| i < j < rest.len() implies !((#[trigger] rest[j]).name matches Some(n) && n@ == rest[i].name->0@) by {
                assert(rest[j] == nodes[j]);
            }
            assert(!(nodes.last().name matches Some(n) && n@ == nodes[i].name->0@));
        }
    }
}

/// The `j`th child of the `i`th node of `outputs` is a content area of a
/// listed output: the node is an output, it has a name, the name is not
/// `__i3`, and the child is a plain container.
pub open spec fn is_content_area_of(outputs: Seq<Node>, i: int, j: int) -> bool {
    &&& 0 <= i < outputs.len()
    &&& outputs[i].nodetype == NodeType::Output
    &&& outputs[i].name is Some
    &&& outputs[i].name->0@ != "__i3"@
    &&& 0 <= j < outputs[i].nodes@.len()
    &&& outputs[i].nodes@[j].nodetype == NodeType::Con
}

/// `src` lists, one per content area of `outputs` and in the same order,
/// the (output, child) position the area comes from: each a content area of
/// a listed output, strictly increasing, and taking in every such position.
pub open spec fn area_sources(outputs: Seq<Node>, src: Seq<(int, int)>) -> bool {
    &&& src.len() == content_areas(outputs).len()
    &&& forall|k: int| 0 <= k < src.len() ==> {
        &&& is_content_area_of(outputs, (#[trigger] src[k]).0, src[k].1)
        &&& content_areas(outputs)[k] == (outputs[src[k].0].name->0, outputs[src[k].0].nodes@[src[k].1])
    }
    &&& forall|k1: int, k2: int| 0 <= k1 < k2 < src.len() ==>
        (#[trigger] src[k1]).0 < (#[trigger] src[k2]).0 || (src[k1].0 == src[k2].0 && src[k1].1 < src[k2].1)
    &&& forall|i: int, j: int| #[trigger] is_content_area_of(outputs, i, j) ==> exists|k: int| 0 <= k < src.len() && src[k] == (i, j)
}

/// The content areas are exactly the plain-container children of the
/// listed outputs, each paired with its output's name, in tree order: there
/// is a list of (output, child) positions, one per area, each a content area
/// of a listed output, strictly increasing, and taking in every such
/// position. (So an area is found on every listed output, not only the
/// first, and there are as many areas as such children.)
pub proof fn law_content_areas_exact(outputs: Seq<Node>)
    ensures
        exists|src: Seq<(int, int)>| #[trigger] area_sources(outputs, src),
{
    let src = lemma_content_area_sources(outputs);
    assert(area_sources(outputs, src));
}

proof fn lemma_content_area_sources(outputs: Seq<Node>) -> (src: Seq<(int, int)>)
    ensures
        src.len() == content_areas(outputs).len(),
        forall|k: int| 0 <= k < src.len() ==> {
            &&& is_content_area_of(outputs, (#[trigger] src[k]).0, src[k].1)
            &&& content_areas(outputs)[k] == (outputs[src[k].0].name->0, outputs[src[k].0].nodes@[src[k].1])
        },
        forall|k1: int, k2: int| 0 <= k1 < k2 < src.len() ==>
            (#[trigger] src[k1]).0 < (#[trigger] src[k2]).0 || (src[k1].0 == src[k2].0 && src[k1].1 < src[k2].1),
        forall|i: int, j: int| #[trigger] is_content_area_of(outputs, i, j) ==> exists|k: int| 0 <= k < src.len() && src[k] == (i, j),
    decreases outputs.len(),
{
    if outputs.len() == 0 {
        seq![]
    } else {
        let rest = outputs.drop_last();
        let l = outputs.len() - 1;
        let s0 = lemma_content_area_sources(rest);
        let last = outputs.last();
        assert forall|i: int, j: int| 0 <= i < l implies #[trigger] is_content_area_of(outputs, i, j) == is_content_area_of(rest, i, j) by {
            assert(rest[i] == outputs[i]);
        }
        let idx = if is_listed_output(last) {
            lemma_output_sources(last.name->0, last.nodes@)
        } else {
            seq![]
        };
        let tail = Seq::new(idx.len(), |k: int| (l, idx[k]));
        let src = s0 + tail;
        let ca0 = content_areas(rest);
        let ca = content_areas(outputs);
        assert(ca == ca0 + if is_listed_output(last) { output_content_areas(last.name->0, last.nodes@) } else { seq![] });
        assert(src.len() == ca.len());
        assert forall|k: int| 0 <= k < src.len() implies {
            &&& is_content_area_of(outputs, (#[trigger] src[k]).0, src[k].1)
            &&& ca[k] == (outputs[src[k].0].name->0, outputs[src[k].0].nodes@[src[k].1])
        } by {
            if k < s0.len() {
                assert(src[k] == s0[k]);
                assert(is_content_area_of(rest, s0[k].0, s0[k].1));
                assert(rest[s0[k].0] == outputs[s0[k].0]);
                assert(ca[k] == ca0[k]);
            } else {
                assert(src[k] == (l, idx[k - s0.len()]));
                assert(outputs[l] == last);
            }
        }
        assert forall|k1: int, k2: int| 0 <= k1 < k2 < src.len() implies
            (#[trigger] src[k1]).0 < (#[trigger] src[k2]).0 || (src[k1].0 == src[k2].0 && src[k1].1 < src[k2].1) by {
            if k2 < s0.len() {
                assert(src[k1] == s0[k1] && src[k2] == s0[k2]);
            } else if k1 < s0.len() {
                assert(src[k1] == s0[k1]);
                assert(is_content_area_of(rest, s0[k1].0, s0[k1].1));
                assert(src[k2] == (l, idx[k2 - s0.len()]));
            } else {
                assert(src[k1] == (l, idx[k1 - s0.len()]));
                assert(src[k2] == (l, idx[k2 - s0.len()]));
            }
        }
        assert forall|i: int, j: int| #[trigger] is_content_area_of(outputs, i, j) implies exists|k: int| 0 <= k < src.len() && src[k] == (i, j) by {
            if i < l {
                assert(is_content_area_of(rest, i, j));
                let k = choose|k: int| 0 <= k < s0.len() && s0[k] == (i, j);
                assert(src[k] == s0[k]);
            } else {
                assert(outputs[i] == last);
                assert(is_listed_output(last));
                assert(last.nodes@[j].nodetype == NodeType::Con);
                let m = choose|m: int| 0 <= m < idx.len() && idx[m] == j;
                assert(src[s0.len() + m] == (i, j));
            }
        }
        src
    }
}

proof fn lemma_output_sources(name: String, areas: Seq<Node>) -> (idx: Seq<int>)
    ensures
        idx.len() == output_content_areas(name, areas).len(),
        forall|k: int| 0 <= k < idx.len() ==> {
            &&& 0 <= #[trigger] idx[k] < areas.len()
            &&& areas[idx[k]].nodetype == NodeType::Con
            &&& output_content_areas(name, areas)[k] == (name, areas[idx[k]])
        },
        forall|k1: int, k2: int| 0 <= k1 < k2 < idx.len() ==> #[trigger] idx[k1] < #[trigger] idx[k2],
        forall|j: int| 0 <= j < areas.len() && (#[trigger] areas[j]).nodetype == NodeType::Con ==> exists|k: int| 0 <= k < idx.len() && idx[k] == j,
    decreases areas.len(),
{
    if areas.len() == 0 {
        seq![]
    } else {
        let rest = areas.drop_last();
        let l = areas.len() - 1;
        let i0 = lemma_output_sources(name, rest);
        let oc0 = output_content_areas(name, rest);
        let oc = output_content_areas(name, areas);
        let idx = if areas.last().nodetype == NodeType::Con { i0.push(l) } else { i0 };
        assert(oc == oc0 + if areas.last().nodetype == NodeType::Con { seq![(name, areas.last())] } else { seq![] });
        assert forall|k: int| 0 <= k < idx.len() implies {
            &&& 0 <= #[trigger] idx[k] < areas.len()
            &&& areas[idx[k]].nodetype == NodeType::Con
            &&& oc[k] == (name, areas[idx[k]])
        } by {
            if k < i0.len() {
                assert(idx[k] == i0[k]);
                assert(rest[i0[k]] == areas[i0[k]]);
                assert(oc[k] == oc0[k]);
            }
        }
        assert forall|j: int| 0 <= j < areas.len() && (#[trigger] areas[j]).nodetype == NodeType::Con implies exists|k: int| 0 <= k < idx.len() && idx[k] == j by {
            if j < l {
                assert(rest[j] == areas[j]);
                let k = choose|k: int| 0 <= k < i0.len() && i0[k] == j;
                assert(idx[k] == i0[k]);
            } else {
                assert(idx[i0.len() as int] == l);
            }
        }
        assert forall|k1: int, k2: int| 0 <= k1 < k2 < idx.len() implies #[trigger] idx[k1] < #[trigger] idx[k2] by {
            if k2 < i0.len() {
                assert(idx[k1] == i0[k1] && idx[k2] == i0[k2]);
            } else {
                assert(idx[k1] == i0[k1]);
            }
        }
        idx
    }
}

/// Every content area found belongs to a listed output (never i3's internal
/// `__i3` one) and is a plain container.
pub proof fn law_content_areas_are_of_listed_outputs(outputs: Seq<Node>)
    ensures
        forall|k: int| 0 <= k < content_areas(outputs).len() ==> {
            &&& (#[trigger] content_areas(outputs)[k]).0@ != "__i3"@
            &&& content_areas(outputs)[k].1.nodetype == NodeType::Con
        },
    decreases outputs.len(),
{
    if outputs.len() > 0 {
        law_content_areas_are_of_listed_outputs(outputs.drop_last());
        let last = outputs.last();
        if is_listed_output(last) {
            lemma_output_content_areas(last.name->0, last.nodes@);
        }
    }
}

proof fn lemma_output_content_areas(name: String, areas: Seq<Node>)
    ensures
        forall|k: int| 0 <= k < output_content_areas(name, areas).len() ==> {
            &&& (#[trigger] output_content_areas(name, areas)[k]).0 == name
            &&& output_content_areas(name, areas)[k].1.nodetype == NodeType::Con
        },
    decreases areas.len(),
{
    if areas.len() > 0 {
        lemma_output_content_areas(name, areas.drop_last());
    }
}

/// Every window node collected from a list of workspace nodes carries the id
/// of one of those workspaces.
pub proof fn law_windows_belong_to_workspaces(nodes: Seq<Node>)
    ensures
        forall|i: int| 0 <= i < workspaces_windows(nodes).len() ==> exists|w: int| 0 <= w < nodes.len() && (#[trigger] nodes[w]).id == (#[trigger] workspaces_windows(nodes)[i]).workspace_id,
    decreases nodes.len(),
{
    if nodes.len() > 0 {
        let rest = nodes.drop_last();
        law_windows_belong_to_workspaces(rest);
        let last = nodes.len() - 1;
        lemma_containers_windows_id(nodes.last().nodes@, nodes.last().id);
        assert forall|i: int| 0 <= i < workspaces_windows(nodes).len() implies exists|w: int| 0 <= w < nodes.len() && (#[trigger] nodes[w]).id == (#[trigger] workspaces_windows(nodes)[i]).workspace_id by {
            if i < workspaces_windows(rest).len() {
                let w = choose|w: int| 0 <= w < rest.len() && (#[trigger] rest[w]).id == workspaces_windows(rest)[i].workspace_id;
                assert(nodes[w] == rest[w]);
            } else {
                let j = i - workspaces_windows(rest).len();
                assert(containers_windows(nodes.last().nodes@, nodes.last().id)[j].workspace_id == nodes[last].id);
            }
        }
    }
}

proof fn lemma_containers_windows_id(cs: Seq<Node>, workspace_id: i64)
    ensures
        forall|i: int| 0 <= i < containers_windows(cs, workspace_id).len() ==> (#[trigger] containers_windows(cs, workspace_id)[i]).workspace_id == workspace_id,
    decreases cs.len(),
{
    if cs.len() > 0 {
        lemma_containers_windows_id(cs.drop_last(), workspace_id);
    }
}

/// In a window table, every entry is the window kept of some digest with its
/// id (the last one), and every digest's id has an entry.
pub proof fn law_window_table_entries(windows: Map<i64, Window>, ds: Seq<WindowDigest>, classes: Seq<Vec<String>>)
    requires
        windows_table(windows, ds, classes, ds.len() as int),
    ensures
        forall|i: int| 0 <= i < ds.len() ==> windows.contains_key((#[trigger] ds[i]).window_data.id),
        forall|id: i64| #[trigger] windows.contains_key(id) ==> exists|i: int| 0 <= i < ds.len() && (#[trigger] ds[i]).window_data.id == id && window_kept(windows[id], ds[i], classes[i]),
{
    let n = ds.len() as int;
    assert forall|i: int| 0 <= i < n implies windows.contains_key((#[trigger] ds[i]).window_data.id) by {
        assert(ds[i].window_data.id == ds[i].window_data.id);
    }
    assert forall|id: i64| #[trigger] windows.contains_key(id) implies exists|i: int| 0 <= i < n && (#[trigger] ds[i]).window_data.id == id && window_kept(windows[id], ds[i], classes[i]) by {
        let i = choose|i: int| 0 <= i < n && (#[trigger] ds[i]).window_data.id == id;
        let j = lemma_last_with_id(ds, i, n);
        assert(window_kept(windows[ds[j].window_data.id], ds[j], classes[j]));
    }
}

/// In a window table, the entry for a digest that no later digest shares an
/// id with carries that digest's node, field by field: its workspace, its
/// X11 window, its name, its urgent and focused flags, its class names, and
/// the placeholder display name.
pub proof fn law_window_entry_fields(windows: Map<i64, Window>, ds: Seq<WindowDigest>, classes: Seq<Vec<String>>, i: int)
    requires
        windows_table(windows, ds, classes, ds.len() as int),
        classes.len() == ds.len(),
        0 <= i < ds.len(),
        ds[i].window_data.window is Some,
        ds[i].window_data.name is Some,
        forall|j: int| i < j < ds.len() ==> (#[trigger] ds[j]).window_data.id != ds[i].window_data.id,
    ensures
        windows.contains_key(ds[i].window_data.id),
        windows[ds[i].window_data.id].in_workspace == ds[i].workspace_id,
        Some(windows[ds[i].window_data.id].x11_id) == ds[i].window_data.window,
        Some(windows[ds[i].window_data.id].name) == ds[i].window_data.name,
        windows[ds[i].window_data.id].display_name@ == "gotta load this from the config, doug"@,
        windows[ds[i].window_data.id].class == classes[i],
        windows[ds[i].window_data.id].urgent == ds[i].window_data.urgent,
        windows[ds[i].window_data.id].focused == ds[i].window_data.focused,
{
    assert(last_with_id(ds, i, ds.len() as int));
    assert(window_kept(windows[ds[i].window_data.id], ds[i], classes[i]));
    assert(ds[i].window_data.id == ds[i].window_data.id);
}

/// From any digest, the last digest with the same id among the first `n`.
proof fn lemma_last_with_id(ds: Seq<WindowDigest>, i: int, n: int) -> (j: int)
    requires
        0 <= i < n <= ds.len(),
    ensures
        i <= j < n,
        ds[j].window_data.id == ds[i].window_data.id,
        last_with_id(ds, j, n),
    decreases n - i,
{
    if exists|k: int| i < k < n && (#[trigger] ds[k]).window_data.id == ds[i].window_data.id {
        let k = choose|k: int| i < k < n && (#[trigger] ds[k]).window_data.id == ds[i].window_data.id;
        lemma_last_with_id(ds, k, n)
    } else {
        assert forall|k: int| i < k < n implies (#[trigger] ds[k]).window_data.id != ds[i].window_data.id by {}
        i
    }
}

} // verus!
