use quadly::discovery::{
    discover, map_active_state, reconcile_status, status_from_query, unit_name, unit_to_query,
    FileProbe,
};
use quadly::quadlet::{classify_file_name, Quadlet, QuadletStatus};
use quadly::quadlet_type::{allowed_extensions, QuadletType};
use quadly::requests::{filter_quadlets, status_named, DiscoverQuery, LogsQuery, UnitAction};

fn probe(name: &str, state: Option<&str>) -> FileProbe {
    FileProbe { file_name: name.to_string(), active_state: state.map(|s| s.to_string()) }
}

#[test]
fn raw_states_map_to_statuses() {
    assert_eq!(map_active_state("active"), QuadletStatus::Active);
    assert_eq!(map_active_state("reloading"), QuadletStatus::Active);
    assert_eq!(map_active_state("activating"), QuadletStatus::Active);
    assert_eq!(map_active_state("inactive"), QuadletStatus::Inactive);
    assert_eq!(map_active_state("deactivating"), QuadletStatus::Inactive);
    assert_eq!(map_active_state("failed"), QuadletStatus::Failed);
    assert_eq!(map_active_state("bogus-state"), QuadletStatus::Unknown);
}

#[test]
fn failed_query_means_inactive() {
    assert_eq!(status_from_query(&None), QuadletStatus::Inactive);
    assert_eq!(status_from_query(&Some("failed".to_string())), QuadletStatus::Failed);
    assert_eq!(reconcile_status(QuadletType::Container, &None), QuadletStatus::Inactive);
}

#[test]
fn kinds_without_unit_are_unknown() {
    assert_eq!(
        reconcile_status(QuadletType::Volume, &Some("active".to_string())),
        QuadletStatus::Unknown
    );
    assert_eq!(reconcile_status(QuadletType::Network, &None), QuadletStatus::Unknown);
}

#[test]
fn unit_names() {
    assert_eq!(unit_name("web"), "web.service");
    assert_eq!(unit_to_query("web.container"), Some("web.service".to_string()));
    assert_eq!(unit_to_query("data.volume"), None);
    assert_eq!(unit_to_query("notes.txt"), None);
}

#[test]
fn unknown_extension_is_rejected() {
    assert_eq!(QuadletType::from_extension("bogus"), None);
    let e = Quadlet::new("web", "bogus", None).unwrap_err();
    assert_eq!(e.extension, "bogus");
}

#[test]
fn registry_maps_both_ways() {
    for k in QuadletType::all() {
        assert_eq!(QuadletType::from_extension(k.as_str()), Some(k));
        assert_eq!(QuadletType::from_extension(k.extension()), Some(k));
        assert_eq!(k.extension(), k.as_str());
    }
    assert_eq!(QuadletType::Container.extension(), "container");
    assert_eq!(QuadletType::Image.extension(), "image");
    assert_eq!(QuadletType::Kube.as_str(), "kube");
    assert_eq!(allowed_extensions(), vec!["container", "network", "volume", "kube", "pod", "image"]);
    assert_eq!(QuadletType::from_extension(".container"), None);
    assert_eq!(QuadletType::from_extension("Container"), None);
}

#[test]
fn quadlet_construction() {
    let q = Quadlet::new("web", "container", Some("[Container]\n".to_string())).unwrap();
    assert_eq!(q.name, "web");
    assert_eq!(q.kind, QuadletType::Container);
    assert_eq!(q.content.as_deref(), Some("[Container]\n"));
    assert!(q.status.is_none());
    assert_eq!(q.full_name(), "web.container");
    let v = Quadlet::new("data", "volume", None).unwrap();
    assert_eq!(v.full_name(), "data.volume");
    assert_eq!(Quadlet::new("data", ".volume", None).unwrap_err().extension, ".volume");
}

#[test]
fn file_names_classify_by_last_extension() {
    assert_eq!(classify_file_name("web.container"), Some(("web".to_string(), QuadletType::Container)));
    assert_eq!(classify_file_name("my.app.pod"), Some(("my.app".to_string(), QuadletType::Pod)));
    assert_eq!(classify_file_name("notes.txt"), None);
    assert_eq!(classify_file_name("README"), None);
}

#[test]
fn discovery_keeps_only_registered_kinds() {
    let found = discover(&vec![
        probe("web.container", Some("active")),
        probe("data.volume", None),
        probe("notes.txt", None),
    ]);
    assert_eq!(found.len(), 2);
    assert_eq!(found[0].name, "web");
    assert_eq!(found[0].kind, QuadletType::Container);
    assert_eq!(found[0].status, Some(QuadletStatus::Active));
    assert_eq!(found[1].name, "data");
    assert_eq!(found[1].kind, QuadletType::Volume);
    assert_eq!(found[1].status, Some(QuadletStatus::Unknown));
}

#[test]
fn discovery_twice_gives_same_identities() {
    let first = discover(&vec![
        probe("web.container", Some("active")),
        probe("data.volume", None),
        probe("notes.txt", None),
    ]);
    let second = discover(&vec![
        probe("notes.txt", None),
        probe("data.volume", None),
        probe("web.container", None),
    ]);
    let mut a: Vec<(String, QuadletType)> = first.iter().map(|q| (q.name.clone(), q.kind)).collect();
    let mut b: Vec<(String, QuadletType)> = second.iter().map(|q| (q.name.clone(), q.kind)).collect();
    a.sort_by(|x, y| x.0.cmp(&y.0));
    b.sort_by(|x, y| x.0.cmp(&y.0));
    assert_eq!(a, b);
    assert_eq!(second.iter().find(|q| q.name == "web").unwrap().status, Some(QuadletStatus::Inactive));
}

#[test]
fn discovery_filters() {
    let found = discover(&vec![
        probe("web.container", Some("active")),
        probe("db.container", Some("failed")),
        probe("data.volume", None),
    ]);
    let q = DiscoverQuery { kind: Some("container".to_string()), status: Some("ACTIVE".to_string()) };
    let kept = q.apply(&found);
    assert_eq!(kept.len(), 1);
    assert_eq!(kept[0].name, "web");
    let bad = DiscoverQuery { kind: Some("bogus".to_string()), status: Some("whatever".to_string()) };
    assert_eq!(bad.apply(&found).len(), 3);
    assert_eq!(filter_quadlets(&found, Some(QuadletType::Volume), None).len(), 1);
    assert_eq!(status_named("deactivating"), Some(QuadletStatus::Deactivating));
    assert_eq!(status_named("Active"), None);
}

#[test]
fn unit_actions_and_log_lines() {
    assert_eq!(UnitAction::from_name("start"), Some(UnitAction::Start));
    assert_eq!(UnitAction::from_name("stop"), Some(UnitAction::Stop));
    assert_eq!(UnitAction::from_name("restart"), Some(UnitAction::Restart));
    assert_eq!(UnitAction::from_name("daemon-reload"), Some(UnitAction::DaemonReload));
    assert_eq!(UnitAction::from_name("explode"), None);
    assert_eq!(LogsQuery { lines: None }.line_count(), 50);
    assert_eq!(LogsQuery { lines: Some(7) }.line_count(), 7);
}
