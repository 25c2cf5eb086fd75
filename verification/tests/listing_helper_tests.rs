//! Directory-listing parsing, the helper server's decisions, and the
//! export reference rules, on concrete values.

use colony_core::broker::{AppState, BackendRequest};
use colony_core::configref::{
    key_is_path_reference, path_basename, reference_check, rewrite_path_reference,
    ReferenceFault,
};
use colony_core::helper::{
    config_json_outcome, frontend_origin_port, health_probe_body, helper_server_port,
    max_payload_bytes, picker_reply, picker_reply_many, terminate_request_url,
};
use colony_core::ids::JobId;
use colony_core::listing::{
    classify_entry, list_dir_local_fs, list_dir_local_wsl_fs, EntryKind,
};

#[test]
fn native_listing_classifies_entries() {
    let entries = vec![
        ("a.txt".to_string(), EntryKind::File),
        ("sub".to_string(), EntryKind::Directory),
        ("link".to_string(), EntryKind::SymlinkToDirectory),
        ("other".to_string(), EntryKind::SymlinkToFile),
        ("odd".to_string(), EntryKind::Unknown),
    ];
    let dc = list_dir_local_fs("/root".to_string(), entries);
    assert_eq!(dc.root, "/root");
    assert_eq!(
        dc.files,
        vec!["a.txt".to_string(), "other".to_string(), "odd".to_string()]
    );
    assert_eq!(dc.directories, vec!["sub".to_string(), "link".to_string()]);
}

#[test]
fn subsystem_listing_is_parsed_from_both_outputs() {
    let names = "\"a.txt\"\n\"sub\"\n\"ln\"\n";
    let metas = "total 3\n-rw-r--r-- 1 0 Jan 1 \"a.txt\"\ndrwxr-xr-x 2 0 Jan 1 \"sub\"/\nlrwxrwxrwx 1 0 Jan 1 \"ln\" -> \"/data/real\"/\n";
    let dc = list_dir_local_wsl_fs(
        "/data".to_string(),
        Some(names.to_string()),
        Some(metas.to_string()),
    )
    .expect("the listing fits the grammar");
    assert_eq!(dc.root, "/data");
    assert_eq!(dc.files, vec!["a.txt".to_string()]);
    assert_eq!(dc.directories, vec!["sub".to_string(), "ln".to_string()]);
}

#[test]
fn subsystem_listing_rejects_mismatched_outputs() {
    assert!(list_dir_local_wsl_fs(
        "/d".to_string(),
        Some("\"a\"\n".to_string()),
        Some("\"a\"\n".to_string()),
    )
    .is_err());
    assert!(list_dir_local_wsl_fs("/d".to_string(), None, Some("x".to_string())).is_err());
    assert!(list_dir_local_wsl_fs("/d".to_string(), Some("".to_string()), None).is_err());
}

#[test]
fn entry_classification_marks() {
    assert_eq!(
        classify_entry(&"a".to_string(), &"-rw- \"a\"\n".to_string()),
        Ok(false)
    );
    assert_eq!(classify_entry(&"a".to_string(), &"drwx \"a\"/".to_string()), Ok(true));
    assert_eq!(
        classify_entry(&"a".to_string(), &"lrwx \"a\" -> \"/t\"*".to_string()),
        Ok(false)
    );
    assert_eq!(
        classify_entry(&"a".to_string(), &"lrwx \"a\" -> \"/t\"/".to_string()),
        Ok(true)
    );
    assert_eq!(classify_entry(&"a".to_string(), &"no quotes here".to_string()), Err(()));
}

#[test]
fn helper_constants() {
    assert_eq!(helper_server_port(), 20311);
    assert_eq!(frontend_origin_port(), 9283);
    assert_eq!(terminate_request_url(), "http://127.0.0.1:9283/terminate");
    assert_eq!(max_payload_bytes(), 32 * 1024);
    assert!(!health_probe_body().is_empty());
}

#[test]
fn picker_replies() {
    assert_eq!(
        picker_reply(Some("C:\\data\\pick.txt".to_string())),
        "/mnt/c/data/pick.txt"
    );
    assert_eq!(picker_reply(None), "");
    assert_eq!(
        picker_reply_many(Some(vec!["C:\\a".to_string(), "C:\\b".to_string()])),
        vec!["/mnt/c/a".to_string(), "/mnt/c/b".to_string()]
    );
    assert_eq!(picker_reply_many(None), vec!["".to_string()]);
}

#[test]
fn accepted_configuration_drives_three_requests() {
    let job = JobId::new();
    let out = config_json_outcome(
        AppState::EntryPage,
        "/c.img".to_string(),
        job,
        Some("C:\\saved\\config.json".to_string()),
    );
    assert_eq!(out.len(), 3);
    assert!(matches!(&out[0], BackendRequest::SetAppState(AppState::EntryPage)));
    match &out[1] {
        BackendRequest::AcceptConfiguration(container, path) => {
            assert_eq!(container, "/c.img");
            assert_eq!(path, "C:\\saved\\config.json");
        },
        _ => panic!("the configuration is accepted second"),
    }
    match &out[2] {
        BackendRequest::StopProcess(id) => assert_eq!(*id, job),
        _ => panic!("the helper's job is stopped last"),
    }
}

#[test]
fn cancelled_configuration_drives_nothing() {
    let out = config_json_outcome(
        AppState::EntryPage,
        "/c.img".to_string(),
        JobId::new(),
        None,
    );
    assert!(out.is_empty());
}

#[test]
fn export_reference_rules() {
    assert!(key_is_path_reference(&"input_path".to_string()));
    assert!(key_is_path_reference(&"_path".to_string()));
    assert!(!key_is_path_reference(&"path".to_string()));
    assert!(!key_is_path_reference(&"input".to_string()));

    assert_eq!(path_basename(&"/mnt/c/data/in.csv".to_string()), "in.csv");
    assert_eq!(path_basename(&"plain.csv".to_string()), "plain.csv");

    let (native, rewritten) = rewrite_path_reference(&"/mnt/c/data/in.csv".to_string());
    assert_eq!(native, "C:\\data\\in.csv");
    assert_eq!(rewritten, "./input/in.csv");

    assert_eq!(reference_check(true, true, false), Ok(true));
    assert_eq!(reference_check(true, false, false), Err(ReferenceFault::MalformedPath));
    assert_eq!(reference_check(false, true, true), Ok(false));
    assert_eq!(
        reference_check(false, true, false),
        Err(ReferenceFault::MissingRelativeTarget)
    );
}
