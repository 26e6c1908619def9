use muffle::link::{Link, LinkError, LinkProperty};
use muffle::object::{label, lookup_prop, ObjectInfo, ObjectKind};

fn props(pairs: &[(&str, &str)]) -> Vec<(String, String)> {
    pairs
        .iter()
        .map(|(k, v)| (k.to_string(), v.to_string()))
        .collect()
}

fn link_object(id: u32, pairs: &[(&str, &str)]) -> ObjectInfo {
    ObjectInfo {
        id,
        kind: ObjectKind::Link,
        props: Some(props(pairs)),
    }
}

const FULL: [(&str, &str); 4] = [
    ("link.output.node", "10"),
    ("link.output.port", "11"),
    ("link.input.node", "20"),
    ("link.input.port", "21"),
];

#[test]
fn reads_a_link_object() {
    let link = Link::from_object(&link_object(7, &FULL)).unwrap();
    assert_eq!(link.id(), 7);
    assert_eq!(link.output_node(), 10);
    assert_eq!(link.output_port(), 11);
    assert_eq!(link.input_node(), 20);
    assert_eq!(link.input_port(), 21);
}

#[test]
fn contains_either_port() {
    let link = Link::from_object(&link_object(7, &FULL)).unwrap();
    assert!(link.contains_port(11));
    assert!(link.contains_port(21));
    assert!(!link.contains_port(10));
    assert!(!link.contains_port(20));
    assert!(!link.contains_port(7));
}

#[test]
fn link_errors() {
    let port = ObjectInfo {
        id: 1,
        kind: ObjectKind::Port,
        props: Some(props(&FULL)),
    };
    assert_eq!(Link::from_object(&port).unwrap_err(), LinkError::NotALink);

    let bare = ObjectInfo {
        id: 1,
        kind: ObjectKind::Link,
        props: None,
    };
    assert_eq!(
        Link::from_object(&bare).unwrap_err(),
        LinkError::MissingProperties
    );

    let missing = link_object(1, &FULL[..3]);
    assert_eq!(
        Link::from_object(&missing).unwrap_err(),
        LinkError::MissingProperty(LinkProperty::InputPort)
    );

    let bad = link_object(
        1,
        &[
            ("link.output.node", "10"),
            ("link.output.port", "x"),
            ("link.input.node", "y"),
            ("link.input.port", "21"),
        ],
    );
    assert_eq!(
        Link::from_object(&bad).unwrap_err(),
        LinkError::InvalidProperty(LinkProperty::OutputPort)
    );

    let negative = link_object(
        1,
        &[
            ("link.output.node", "-1"),
            ("link.output.port", "11"),
            ("link.input.node", "20"),
            ("link.input.port", "21"),
        ],
    );
    assert_eq!(
        Link::from_object(&negative).unwrap_err(),
        LinkError::InvalidProperty(LinkProperty::OutputNode)
    );
}

#[test]
fn first_entry_of_a_key_wins() {
    let p = props(&[("a", "1"), ("b", "2"), ("a", "3")]);
    assert_eq!(lookup_prop(&p, &"a".to_string()).map(|s| s.as_str()), Some("1"));
    assert_eq!(lookup_prop(&p, &"c".to_string()), None);
}

#[test]
fn restore_properties_read_back_as_the_same_link() {
    let link = Link::from_object(&link_object(7, &FULL)).unwrap();
    let restored = link.restore_properties();
    assert_eq!(
        restored,
        props(&[
            ("link.output.node", "10"),
            ("link.output.port", "11"),
            ("link.input.node", "20"),
            ("link.input.port", "21"),
            ("object.linger", "true"),
        ])
    );
    let again = Link::from_object(&ObjectInfo {
        id: 99,
        kind: ObjectKind::Link,
        props: Some(restored),
    })
    .unwrap();
    assert_eq!(again.id(), 99);
    assert_eq!(again.output_node(), 10);
    assert_eq!(again.output_port(), 11);
    assert_eq!(again.input_node(), 20);
    assert_eq!(again.input_port(), 21);
}

#[test]
fn label_priority() {
    let node = |pairs: &[(&str, &str)]| ObjectInfo {
        id: 1,
        kind: ObjectKind::Other,
        props: Some(props(pairs)),
    };
    assert_eq!(
        label(&node(&[
            ("node.name", "n"),
            ("node.description", "d"),
            ("application.id", "i"),
            ("application.name", "a"),
        ])),
        "a"
    );
    assert_eq!(
        label(&node(&[("node.name", "n"), ("node.description", "d"), ("application.id", "i")])),
        "i"
    );
    assert_eq!(label(&node(&[("node.name", "n"), ("node.description", "d")])), "d");
    assert_eq!(label(&node(&[("node.name", "n")])), "n");
    assert_eq!(label(&node(&[("media.class", "x")])), "");
    assert_eq!(
        label(&ObjectInfo {
            id: 1,
            kind: ObjectKind::Other,
            props: None
        }),
        ""
    );
}
