use a11y_overlay::element::ElementRef;
use a11y_overlay::walk::Walker;

fn node(path: &str) -> ElementRef {
    ElementRef::new(":1.5".to_string(), path.to_string())
}

/// Drives a walker over a tree given as (node, showing, children) rows.
fn run(root: &str, rows: &[(&str, bool, &[&str])]) -> Vec<ElementRef> {
    let showing = |p: &str| rows.iter().find(|r| r.0 == p).map(|r| r.1).unwrap_or(false);
    let mut w = Walker::new(node(root));
    while let Some(n) = w.next_node() {
        let kids: Vec<(ElementRef, bool)> = rows
            .iter()
            .find(|r| r.0 == n.path)
            .map(|r| r.2.iter().map(|c| (node(c), showing(c))).collect())
            .unwrap_or_default();
        w.visit_children(kids);
    }
    assert!(w.is_finished());
    w.into_found()
}

fn sorted_paths(v: &[ElementRef]) -> Vec<String> {
    let mut p: Vec<String> = v.iter().map(|e| e.path.clone()).collect();
    p.sort();
    p
}

#[test]
fn scenario_visible_child_under_invisible_parent() {
    let rows: &[(&str, bool, &[&str])] = &[
        ("/R", true, &["/A", "/B"]),
        ("/A", true, &[]),
        ("/B", false, &["/C"]),
        ("/C", true, &[]),
    ];
    let found = run("/R", rows);
    assert_eq!(sorted_paths(&found), vec!["/A".to_string(), "/C".to_string()]);
}

#[test]
fn root_itself_is_not_collected() {
    let rows: &[(&str, bool, &[&str])] = &[("/R", true, &[])];
    assert!(run("/R", rows).is_empty());
}

#[test]
fn collects_exactly_the_showing_nodes() {
    let rows: &[(&str, bool, &[&str])] = &[
        ("/R", false, &["/a", "/b", "/c"]),
        ("/a", false, &["/a1", "/a2"]),
        ("/a1", true, &[]),
        ("/a2", false, &["/a21"]),
        ("/a21", true, &[]),
        ("/b", true, &[]),
        ("/c", false, &[]),
    ];
    let found = run("/R", rows);
    assert_eq!(
        sorted_paths(&found),
        vec!["/a1".to_string(), "/a21".to_string(), "/b".to_string()]
    );
}

#[test]
fn order_is_stack_order() {
    let mut w = Walker::new(node("/R"));
    assert_eq!(w.next_node(), Some(node("/R")));
    w.visit_children(vec![(node("/A"), true), (node("/B"), true)]);
    assert_eq!(w.next_node(), Some(node("/B")));
    w.visit_children(vec![(node("/C"), true)]);
    assert_eq!(w.next_node(), Some(node("/C")));
    w.visit_children(vec![]);
    assert_eq!(w.next_node(), Some(node("/A")));
    w.visit_children(vec![]);
    assert_eq!(w.next_node(), None);
    assert_eq!(w.next_node(), None);
    assert_eq!(w.into_found(), vec![node("/A"), node("/B"), node("/C")]);
}

#[test]
fn deep_chain_walks_without_recursion() {
    let depth = 200_000usize;
    let mut w = Walker::new(node("0"));
    let mut steps = 0usize;
    while let Some(n) = w.next_node() {
        let i: usize = n.path.parse().unwrap();
        if i < depth {
            w.visit_children(vec![(node(&(i + 1).to_string()), i % 2 == 0)]);
        } else {
            w.visit_children(vec![]);
        }
        steps += 1;
    }
    assert_eq!(steps, depth + 1);
    assert_eq!(w.into_found().len(), depth / 2);
}

#[test]
fn duplicate_is_equal() {
    let e = node("/org/a11y/atspi/accessible/7");
    assert_eq!(e.duplicate(), e);
}
