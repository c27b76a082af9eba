use hns::markup::Node;
use hns::outline::{build_forest, is_too_deep, Event, MAX_DEPTH};
use hns::render::render_nodes;

fn text(s: &str) -> Event {
    Event::Text(s.to_string())
}

fn open(name: &str, href: Option<&str>) -> Event {
    Event::Open { name: name.to_string(), href: href.map(String::from) }
}

#[test]
fn forest_of_no_events_is_empty() {
    assert!(build_forest(&Vec::new()).is_empty());
}

#[test]
fn forest_follows_the_nesting() {
    let events = vec![
        text("a"),
        Event::Close,
        open("p", None),
        text("b"),
        Event::Close,
        open("a", Some("u")),
        text("c"),
        Event::Close,
        Event::Close,
        Event::Close,
        Event::Other,
        Event::Close,
    ];
    let nodes = build_forest(&events);
    assert_eq!(nodes.len(), 3);
    assert!(matches!(&nodes[0], Node::Text(t) if t == "a"));
    match &nodes[1] {
        Node::Element { name, href, children } => {
            assert_eq!(name, "p");
            assert_eq!(*href, None);
            assert_eq!(children.len(), 2);
            assert!(matches!(&children[0], Node::Text(t) if t == "b"));
            assert!(matches!(
                &children[1],
                Node::Element { name, href: Some(h), children } if name == "a" && h == "u" && children.len() == 1
            ));
        }
        other => panic!("not an element: {:?}", other),
    }
    assert!(matches!(&nodes[2], Node::Other));
    assert_eq!(render_nodes(&nodes), "abc (u)\n");
}

#[test]
fn forest_passes_over_a_stray_close() {
    let events = vec![Event::Close, text("a"), Event::Close, Event::Close, text("b"), Event::Close];
    let nodes = build_forest(&events);
    assert_eq!(render_nodes(&nodes), "ab");
    assert_eq!(nodes.len(), 2);
}

#[test]
fn forest_leaves_out_what_is_never_closed() {
    let events = vec![text("a"), Event::Close, open("p", None), text("b"), Event::Close];
    let nodes = build_forest(&events);
    assert_eq!(nodes.len(), 1);
    assert_eq!(render_nodes(&nodes), "a");
}

#[test]
fn text_and_other_nodes_keep_no_children() {
    let events = vec![text("a"), text("lost"), Event::Close, Event::Close, Event::Other, text("lost"), Event::Close, Event::Close];
    let nodes = build_forest(&events);
    assert_eq!(nodes.len(), 2);
    assert!(matches!(&nodes[0], Node::Text(t) if t == "a"));
    assert!(matches!(&nodes[1], Node::Other));
}

fn nested(depth: usize, inner: &str) -> Vec<Event> {
    let mut events = Vec::new();
    for _ in 0..depth {
        events.push(open("span", None));
    }
    events.push(text(inner));
    for _ in 0..=depth {
        events.push(Event::Close);
    }
    events
}

#[test]
fn forest_keeps_what_is_at_the_greatest_depth() {
    assert!(!is_too_deep(&nested(MAX_DEPTH - 1, "kept")));
    let nodes = build_forest(&nested(MAX_DEPTH - 1, "kept"));
    assert_eq!(nodes.len(), 1);
    assert_eq!(render_nodes(&nodes), "kept");
}

#[test]
fn forest_cuts_off_what_is_deeper() {
    assert!(is_too_deep(&nested(MAX_DEPTH, "lost")));
    let nodes = build_forest(&nested(MAX_DEPTH, "lost"));
    assert_eq!(nodes.len(), 1);
    assert_eq!(render_nodes(&nodes), "");
    let mut events = nested(MAX_DEPTH + 5, "lost");
    events.push(text("after"));
    events.push(Event::Close);
    assert_eq!(render_nodes(&build_forest(&events)), "after");
}

#[test]
fn depth_is_counted_over_open_nodes_only() {
    let mut events = Vec::new();
    for _ in 0..(3 * MAX_DEPTH) {
        events.push(text("t"));
        events.push(Event::Close);
        events.push(Event::Close);
    }
    assert!(!is_too_deep(&events));
    assert!(!is_too_deep(&Vec::new()));
    assert_eq!(build_forest(&events).len(), 3 * MAX_DEPTH);
}
