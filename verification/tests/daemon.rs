use muffle::app::{Action, App, CORE_ID};
use muffle::config::Config;
use muffle::filter::parser::parse;
use muffle::link::Link;
use muffle::object::{ObjectInfo, ObjectKind};
use muffle::signal::Shutdown;

fn props(pairs: &[(&str, &str)]) -> Option<Vec<(String, String)>> {
    Some(
        pairs
            .iter()
            .map(|(k, v)| (k.to_string(), v.to_string()))
            .collect(),
    )
}

fn node(id: u32, name: &str) -> ObjectInfo {
    ObjectInfo {
        id,
        kind: ObjectKind::Other,
        props: props(&[("application.name", name)]),
    }
}

fn port(id: u32) -> ObjectInfo {
    ObjectInfo {
        id,
        kind: ObjectKind::Port,
        props: props(&[]),
    }
}

fn link(id: u32, out_node: u32, out_port: u32, in_node: u32, in_port: u32) -> ObjectInfo {
    let (a, b, c, d) = (
        out_node.to_string(),
        out_port.to_string(),
        in_node.to_string(),
        in_port.to_string(),
    );
    ObjectInfo {
        id,
        kind: ObjectKind::Link,
        props: props(&[
            ("link.output.node", &a),
            ("link.output.port", &b),
            ("link.input.node", &c),
            ("link.input.port", &d),
        ]),
    }
}

fn config(log_only: bool, filters: &[&str]) -> Config {
    Config {
        log_only,
        unlink: filters.iter().map(|f| parse(f).unwrap()).collect(),
    }
}

/// Carries out the actions as the daemon would, with every destruction
/// succeeding and the registry then announcing the removal of the link.
fn run(app: &mut App, actions: Vec<Action>) -> Vec<String> {
    let mut log = Vec::new();
    let mut removed = Vec::new();
    for action in actions {
        match action {
            Action::Verdict {
                output_name,
                input_name,
                allowed,
            } => log.push(format!("verdict {output_name} -> {input_name} {allowed}")),
            Action::Destroy(l) => {
                log.push(format!("destroy {}", l.id()));
                removed.push(l.id());
                app.link_destroyed(l);
            }
            Action::Spare(l) => log.push(format!("spare {}", l.id())),
            Action::Restore {
                link,
                output_name,
                input_name,
            } => log.push(format!("restore {} {output_name} -> {input_name}", link.id())),
            Action::Malformed(e) => log.push(format!("malformed {e:?}")),
            Action::MissingNode { link, node, end } => {
                log.push(format!("missing {end:?} node {node} of {}", link.id()))
            }
            Action::Sync => {
                log.push("sync".to_string());
                app.sync_started(5);
            }
        }
    }
    for id in removed {
        assert!(app.on_global_remove(id));
    }
    log
}

fn ids(links: &[Link]) -> Vec<u32> {
    links.iter().map(|l| l.id()).collect()
}

fn setup(log_only: bool, filters: &[&str]) -> App {
    let mut app = App::new(config(log_only, filters));
    for obj in [node(1, "Discord"), node(2, "firefox"), node(3, "WEBRTC VoiceEngine")] {
        assert!(app.on_global(obj).is_empty());
    }
    for p in [11, 12, 13, 14] {
        assert!(app.on_global(port(p)).is_empty());
    }
    app
}

#[test]
fn blocked_link_is_destroyed_and_recorded() {
    let mut app = setup(false, &["output /firefox/ and input /WEBRTC/"]);
    let actions = app.on_global(link(100, 2, 12, 3, 13));
    let log = run(&mut app, actions);
    assert_eq!(log, vec!["verdict firefox -> WEBRTC VoiceEngine false", "destroy 100"]);
    assert_eq!(ids(app.destroyed_links()), vec![100]);

    let actions = app.on_global(link(101, 1, 11, 3, 14));
    let log = run(&mut app, actions);
    assert_eq!(log, vec!["verdict Discord -> WEBRTC VoiceEngine true"]);
    assert_eq!(ids(app.destroyed_links()), vec![100]);
}

#[test]
fn log_only_spares_links() {
    let mut app = setup(true, &["output /firefox/"]);
    let actions = app.on_global(link(100, 2, 12, 3, 13));
    let log = run(&mut app, actions);
    assert_eq!(log, vec!["verdict firefox -> WEBRTC VoiceEngine false", "spare 100"]);
    assert!(app.destroyed_links().is_empty());
}

#[test]
fn link_with_unknown_node_is_reported_and_left_alone() {
    let mut app = setup(false, &["output /.*/"]);
    let actions = app.on_global(link(100, 9, 12, 8, 13));
    let log = run(&mut app, actions);
    assert_eq!(log, vec!["missing Output node 9 of 100"]);
    assert!(app.destroyed_links().is_empty());
}

#[test]
fn link_with_unknown_input_node_is_reported() {
    let mut app = setup(false, &["output /.*/"]);
    let actions = app.on_global(link(101, 2, 12, 8, 13));
    let log = run(&mut app, actions);
    assert_eq!(log, vec!["missing Input node 8 of 101"]);
}

#[test]
fn malformed_link_is_reported() {
    let mut app = setup(false, &[]);
    let actions = app.on_global(ObjectInfo {
        id: 100,
        kind: ObjectKind::Link,
        props: None,
    });
    let log = run(&mut app, actions);
    assert_eq!(log, vec!["malformed MissingProperties"]);
}

#[test]
fn new_config_restores_what_it_allows_and_cuts_what_it_blocks() {
    let mut app = setup(false, &["output /firefox/"]);
    let a = app.on_global(link(100, 2, 12, 3, 13));
    run(&mut app, a);
    let a = app.on_global(link(101, 1, 11, 3, 14));
    run(&mut app, a);
    assert_eq!(ids(app.destroyed_links()), vec![100]);

    let actions = app.on_config(config(false, &["output /Discord/"]));
    let mut log = run(&mut app, actions);
    assert_eq!(log[0], "restore 100 firefox -> WEBRTC VoiceEngine");
    log.remove(0);
    log.sort();
    assert_eq!(
        log,
        vec!["destroy 101", "verdict Discord -> WEBRTC VoiceEngine false"]
    );
    assert_eq!(ids(app.destroyed_links()), vec![101]);
}

#[test]
fn log_only_config_restores_everything() {
    let mut app = setup(false, &["input /WEBRTC/"]);
    for l in [link(100, 2, 12, 3, 13), link(101, 1, 11, 3, 14)] {
        let a = app.on_global(l);
        run(&mut app, a);
    }
    assert_eq!(ids(app.destroyed_links()), vec![100, 101]);
    let actions = app.on_config(config(true, &["input /WEBRTC/"]));
    let log = run(&mut app, actions);
    assert_eq!(&log[..2], &["restore 101 Discord -> WEBRTC VoiceEngine", "restore 100 firefox -> WEBRTC VoiceEngine"]);
    assert!(log.iter().all(|l| !l.starts_with("destroy")));
    assert!(app.destroyed_links().is_empty());
}

#[test]
fn recheck_swaps_the_last_kept_link_into_place() {
    let mut app = setup(false, &["input /WEBRTC/"]);
    for l in [
        link(100, 2, 12, 3, 13),
        link(101, 1, 11, 3, 14),
        link(102, 2, 12, 3, 14),
    ] {
        let a = app.on_global(l);
        run(&mut app, a);
    }
    assert_eq!(ids(app.destroyed_links()), vec![100, 101, 102]);
    let actions = app.on_config(config(false, &["output /firefox/ and input /WEBRTC/"]));
    let log = run(&mut app, actions);
    assert_eq!(log[0], "restore 101 Discord -> WEBRTC VoiceEngine");
    assert_eq!(ids(app.destroyed_links()), vec![100, 102]);
}

#[test]
fn removing_a_port_forgets_links_through_it() {
    let mut app = setup(false, &["input /WEBRTC/"]);
    for l in [link(100, 2, 12, 3, 13), link(101, 1, 11, 3, 14)] {
        let a = app.on_global(l);
        run(&mut app, a);
    }
    assert!(app.on_global_remove(13));
    assert_eq!(ids(app.destroyed_links()), vec![101]);
    assert!(app.on_global_remove(1));
    assert_eq!(ids(app.destroyed_links()), vec![101]);
    assert!(!app.on_global_remove(4242));
}

#[test]
fn shutdown_restores_all_cut_links_then_syncs_and_quits() {
    let mut app = setup(false, &["input /WEBRTC/"]);
    for l in [link(100, 2, 12, 3, 13), link(101, 1, 11, 3, 14)] {
        let a = app.on_global(l);
        run(&mut app, a);
    }
    let actions = app.on_shutdown(Shutdown::new());
    let log = run(&mut app, actions);
    assert_eq!(&log[..2], &["restore 101 Discord -> WEBRTC VoiceEngine", "restore 100 firefox -> WEBRTC VoiceEngine"]);
    assert_eq!(log.last().unwrap(), "sync");
    assert!(log.iter().all(|l| !l.starts_with("destroy") && !l.ends_with("false")));
    assert!(app.destroyed_links().is_empty());
    assert!(app.is_shutting_down());

    assert!(!app.on_done(CORE_ID, 4));
    assert!(!app.on_done(CORE_ID + 1, 5));
    assert!(app.on_done(CORE_ID, 5));
}

#[test]
fn events_while_shutting_down_change_nothing() {
    let mut app = setup(false, &["input /WEBRTC/"]);
    let a = app.on_global(link(100, 2, 12, 3, 13));
    run(&mut app, a);
    let a = app.on_shutdown(Shutdown::new());
    run(&mut app, a);
    assert!(app.on_global(link(200, 2, 12, 3, 13)).is_empty());
    assert!(app.on_config(config(false, &["input /.*/"])).is_empty());
    assert!(app.on_global_remove(12));
    assert!(app.on_shutdown(Shutdown::new()).is_empty());
    assert!(app.destroyed_links().is_empty());
}

#[test]
fn done_before_shutdown_does_not_quit() {
    let app = setup(false, &[]);
    assert!(!app.on_done(CORE_ID, 0));
}

#[test]
fn second_restore_pass_changes_nothing() {
    let mut app = setup(false, &["input /WEBRTC/"]);
    for l in [
        link(100, 1, 11, 3, 13),
        link(101, 2, 12, 3, 13),
        link(102, 1, 14, 3, 13),
    ] {
        let a = app.on_global(l);
        run(&mut app, a);
    }
    assert_eq!(ids(app.destroyed_links()), vec![100, 101, 102]);

    let actions = app.on_config(config(false, &["output /Discord/"]));
    let log = run(&mut app, actions);
    assert_eq!(log, vec!["restore 101 firefox -> WEBRTC VoiceEngine"]);
    let kept = ids(app.destroyed_links());
    assert_eq!(kept, vec![100, 102]);

    assert!(app.recheck_destroyed_links().is_empty());
    assert_eq!(ids(app.destroyed_links()), kept);
}
