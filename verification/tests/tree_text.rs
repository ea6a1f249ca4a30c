use linkerd_trace::identity::identity_of;
use linkerd_trace::target::{authority, destination_query, policy_query, selector_text};
use linkerd_trace::text::{append_decimal, append_signed, join_texts, same};
use linkerd_trace::tree::{TraceNode, TraceTree};

fn node(name: &str) -> TraceTree {
    TraceNode::node(name.to_string())
}

fn label(key: &str, value: &str) -> TraceTree {
    TraceNode::label(key.to_string(), value.to_string())
}

fn decimal(n: u64) -> String {
    let mut text = String::new();
    append_decimal(&mut text, n);
    text
}

fn signed(n: i32) -> String {
    let mut text = String::from("n = ");
    append_signed(&mut text, n);
    text
}

fn list(parts: &[&str]) -> Vec<String> {
    parts.iter().map(|part| part.to_string()).collect()
}

#[test]
fn decimals_are_written_as_std_writes_them() {
    for n in [0, 7, 9, 10, 99, 100, 8086, 1_000_000, u32::MAX as u64, u64::MAX] {
        assert_eq!(decimal(n), n.to_string());
    }
}

#[test]
fn signed_decimals_are_written_as_std_writes_them() {
    for n in [0, 3, -1, -10, i32::MAX, i32::MIN] {
        assert_eq!(signed(n), format!("n = {}", n));
    }
}

#[test]
fn different_numbers_have_different_decimals() {
    assert_ne!(decimal(10), decimal(1));
    assert_ne!(decimal(12), decimal(21));
    assert_ne!(decimal(100), decimal(1000));
}

#[test]
fn texts_are_joined_with_separators_between_them() {
    assert_eq!(join_texts(&list(&[]), ", "), "");
    assert_eq!(join_texts(&list(&["app"]), ", "), "app");
    assert_eq!(join_texts(&list(&["app", "proxy", "init"]), ", "), "app, proxy, init");
}

#[test]
fn texts_are_compared_by_their_characters() {
    assert!(same(&"core".to_string(), "core"));
    assert!(!same(&"core".to_string(), "Core"));
    assert!(!same(&"core".to_string(), "core "));
}

#[test]
fn selector_names_every_label() {
    let labels = vec![
        ("app".to_string(), "destination".to_string()),
        ("tier".to_string(), "control-plane".to_string()),
    ];
    assert_eq!(selector_text(&labels), "app=destination,tier=control-plane");
    assert_eq!(selector_text(&Vec::new()), "");
}

#[test]
fn authority_names_service_and_port() {
    assert_eq!(authority("web-svc", "emojivoto", 80), "web-svc.emojivoto.svc:80");
    assert_eq!(authority("backend-a-podinfo", "test", 9898), "backend-a-podinfo.test.svc:9898");
}

#[test]
fn destination_is_asked_for_a_path() {
    let query = destination_query("web-svc.emojivoto.svc.cluster.local:80".to_string());
    assert_eq!(query.scheme, "http:");
    assert_eq!(query.path, "web-svc.emojivoto.svc.cluster.local:80");
    assert_eq!(query.context_token, "diagnostics");
}

#[test]
fn policy_is_asked_for_an_authority() {
    let query = policy_query("web-svc", "emojivoto", 80);
    assert_eq!(query.source_workload, "default:diagnostics");
    assert_eq!(query.authority, "web-svc.emojivoto.svc:80");
}

#[test]
fn identities_are_those_of_the_first_that_is_the_same() {
    assert_eq!(identity_of(&vec![]), 0);
    assert_eq!(identity_of(&vec![false, false]), 2);
    assert_eq!(identity_of(&vec![false, true, false]), 1);
    assert_eq!(identity_of(&vec![true, true]), 0);
}

#[test]
fn same_items_share_an_identity() {
    let mut seen: Vec<&str> = Vec::new();
    let mut identities = Vec::new();
    for item in ["a", "b", "a", "c", "b", "c", "a"] {
        let same = seen.iter().map(|known| *known == item).collect();
        let identity = identity_of(&same);
        if identity == seen.len() as u64 {
            seen.push(item);
        }
        identities.push(identity);
    }
    assert_eq!(identities, vec![0, 1, 0, 2, 1, 2, 0]);
}

#[test]
fn nodes_and_labels_are_shown_on_lines() {
    assert_eq!(node("<rule 0>").root.line(), "<rule 0>:");
    assert_eq!(label("protocol", "detect").root.line(), "protocol: detect");
}

#[test]
fn prefix_comes_before_the_line() {
    let mut heading = node("headers (all)");
    heading.root.prefix("matches");
    assert_eq!(heading.root.line(), "matches headers (all):");
    let mut path = label("exact path", "/api");
    path.root.prefix("matches");
    assert_eq!(path.root.line(), "matches exact path: /api");
}

#[test]
fn leaves_keep_their_order() {
    let mut tree = node("root");
    tree.push(label("a", "1"));
    tree.extend(vec![label("b", "2"), label("c", "3")]);
    let lines: Vec<String> = tree.leaves.iter().map(|leaf| leaf.root.line()).collect();
    assert_eq!(lines, list(&["a: 1", "b: 2", "c: 3"]));
    let replaced = tree.with_leaves(vec![node("d")]);
    assert_eq!(replaced.leaves.len(), 1);
    assert_eq!(replaced.leaves[0].root.line(), "d:");
}

#[test]
fn trees_are_drawn_with_branches() {
    let mut inner = node("inner");
    inner.push(label("x", "1"));
    inner.push(label("y", "2"));
    let mut tree = node("root");
    tree.push(inner);
    tree.push(label("z", "3"));
    assert_eq!(tree.render(), "root:\n├── inner:\n│   ├── x: 1\n│   └── y: 2\n└── z: 3\n");
    assert_eq!(label("only", "line").render(), "only: line\n");
}

#[test]
fn leaves_below_the_last_one_have_no_bar_before_them() {
    let mut inner = node("inner");
    inner.push(label("x", "1"));
    let mut last = node("last");
    last.push(inner);
    let mut tree = node("root");
    tree.push(last);
    assert_eq!(tree.render(), "root:\n└── last:\n    └── inner:\n        └── x: 1\n");
}
