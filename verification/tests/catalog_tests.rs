//! The persistent catalog observed through updates, saving and
//! loading.

use colony_core::catalog::{
    config_path, PersistentState, PersistentStateDeserialzed, PersistentStateUpdate,
};

#[test]
fn add_add_remove_leaves_one_descriptor() {
    let mut state = PersistentState::empty();
    let a = state.apply_update(PersistentStateUpdate::AddContainer("/a.img".to_string()));
    assert!(a.is_some());
    let b = state.apply_update(PersistentStateUpdate::AddContainer("/b.img".to_string()));
    assert!(b.is_some());
    state.apply_update(PersistentStateUpdate::RemoveContainerByPath("/a.img".to_string()));
    assert_eq!(state.containers.len(), 1);
    assert_eq!(state.containers[0].path, "/b.img");
}

#[test]
fn identifier_survives_a_restart() {
    let mut state = PersistentState::empty();
    state.apply_update(PersistentStateUpdate::AddContainer("/a.img".to_string()));
    state.apply_update(PersistentStateUpdate::AddContainer("/b.img".to_string()));
    state.apply_update(PersistentStateUpdate::RemoveContainerByPath("/a.img".to_string()));
    let id_before = state.containers[0].id;

    // A restart: the document is written out and read back in.
    let doc = state.save_document();
    let reloaded = PersistentState::from_document(doc);
    assert_eq!(reloaded.containers.len(), 1);
    assert_eq!(reloaded.containers[0].path, "/b.img");
    assert_eq!(reloaded.containers[0].id, id_before);
}

#[test]
fn adding_a_present_path_changes_nothing_and_announces_nothing() {
    let mut state = PersistentState::empty();
    let first = state.apply_update(PersistentStateUpdate::AddContainer("/a.img".to_string()));
    let first_id = first.expect("a fresh path is announced").id;
    let second = state.apply_update(PersistentStateUpdate::AddContainer("/a.img".to_string()));
    assert!(second.is_none());
    assert_eq!(state.containers.len(), 1);
    assert_eq!(state.containers[0].id, first_id);
}

#[test]
fn containers_stay_sorted_by_path() {
    let mut state = PersistentState::empty();
    state.apply_update(PersistentStateUpdate::AddContainer("/c.img".to_string()));
    state.apply_update(PersistentStateUpdate::AddContainer("/a.img".to_string()));
    state.apply_update(PersistentStateUpdate::AddContainer("/b.img".to_string()));
    let paths: Vec<&str> = state.containers.iter().map(|d| d.path.as_str()).collect();
    assert_eq!(paths, vec!["/a.img", "/b.img", "/c.img"]);
}

#[test]
fn remove_by_identifier() {
    let mut state = PersistentState::empty();
    let a = state
        .apply_update(PersistentStateUpdate::AddContainer("/a.img".to_string()))
        .expect("announced");
    state.apply_update(PersistentStateUpdate::AddContainer("/b.img".to_string()));
    state.apply_update(PersistentStateUpdate::RemoveContainer(a.id));
    assert_eq!(state.containers.len(), 1);
    assert_eq!(state.containers[0].path, "/b.img");
}

#[test]
fn last_picker_directory_is_kept() {
    let mut state = PersistentState::empty();
    state.apply_update(PersistentStateUpdate::SetlastSelectedContainerDir(Some(
        "/home/user".to_string(),
    )));
    assert_eq!(state.last_selected_container_dir.as_deref(), Some("/home/user"));
    let doc = state.save_document();
    let reloaded = PersistentState::from_document(doc);
    assert_eq!(reloaded.last_selected_container_dir.as_deref(), Some("/home/user"));
}

#[test]
fn round_trip_reproduces_the_catalog() {
    let mut state = PersistentState::empty();
    state.apply_update(PersistentStateUpdate::AddContainer("/x.img".to_string()));
    state.apply_update(PersistentStateUpdate::AddContainer("/y.img".to_string()));
    state.apply_update(PersistentStateUpdate::SetlastSelectedContainerDir(Some(
        "/tmp".to_string(),
    )));
    let ids: Vec<u128> = state.containers.iter().map(|d| d.id).collect();

    let doc = state.save_document();
    let reloaded = PersistentState::from_document(doc);
    let ids2: Vec<u128> = reloaded.containers.iter().map(|d| d.id).collect();
    let paths: Vec<&str> = reloaded.containers.iter().map(|d| d.path.as_str()).collect();
    assert_eq!(ids2, ids);
    assert_eq!(paths, vec!["/x.img", "/y.img"]);
    assert_eq!(reloaded.last_selected_container_dir.as_deref(), Some("/tmp"));
}

#[test]
fn legacy_paths_get_fresh_identifiers_that_survive_saving() {
    let doc = PersistentStateDeserialzed {
        containers: Some(vec![
            "/b.img".to_string(),
            "/a.img".to_string(),
            "/b.img".to_string(),
        ]),
        containersv2: None,
        last_selected_container_dir: None,
        recent_protocols: None,
        archived_protocols: None,
    };
    let loaded = PersistentState::from_document(doc);
    // One descriptor per distinct legacy path, sorted by path.
    let paths: Vec<&str> = loaded.containers.iter().map(|d| d.path.as_str()).collect();
    assert_eq!(paths, vec!["/a.img", "/b.img"]);
    assert_ne!(loaded.containers[0].id, loaded.containers[1].id);

    let ids: Vec<u128> = loaded.containers.iter().map(|d| d.id).collect();
    let reloaded = PersistentState::from_document(loaded.save_document());
    let ids2: Vec<u128> = reloaded.containers.iter().map(|d| d.id).collect();
    assert_eq!(ids2, ids);
}

#[test]
fn legacy_paths_do_not_displace_existing_descriptors() {
    let mut base = PersistentState::empty();
    let kept = base
        .apply_update(PersistentStateUpdate::AddContainer("/a.img".to_string()))
        .expect("announced");
    let mut doc = base.save_document();
    doc.containers = Some(vec!["/a.img".to_string(), "/new.img".to_string()]);
    let loaded = PersistentState::from_document(doc);
    let paths: Vec<&str> = loaded.containers.iter().map(|d| d.path.as_str()).collect();
    assert_eq!(paths, vec!["/a.img", "/new.img"]);
    assert_eq!(loaded.containers[0].id, kept.id);
}

#[test]
fn config_path_names_the_catalog_file() {
    let p = config_path(Some("/opt/colony".to_string()));
    assert_eq!(p.as_deref(), Some("/opt/colony/colony_launcher_configuration.json"));
    assert_eq!(config_path(None), None);
}
