//! Path translation, command lines and platform-check decisions on
//! concrete values.

use colony_core::paths::{linux_path_display, unwslify_wsl_linux_path, wslify_windows_path};
use colony_core::time::UnixTime;
use colony_core::singularity::{
    singularity_app_list, singularity_command, singularity_run_in_dir,
};
use colony_core::wsl::{
    distro_import_decision, find_wsl_distros, import_outcome_state, request_wsl_stdin_bytes,
    run_wsl_command, wsl_status_state, ImportAction, InstallationState,
};

#[test]
fn windows_paths_are_translated_for_the_subsystem() {
    assert_eq!(
        wslify_windows_path(&"C:\\Users\\me\\c.img".to_string()),
        "/mnt/c/Users/me/c.img"
    );
    assert_eq!(
        unwslify_wsl_linux_path(&"/mnt/c/Users/me/c.img".to_string()),
        "C:\\Users\\me\\c.img"
    );
    assert_eq!(linux_path_display(&"a\\b\\c".to_string()), "a/b/c");
}

#[test]
fn translation_round_trips_on_drive_paths() {
    let original = "C:\\data\\out".to_string();
    let there = wslify_windows_path(&original);
    assert_eq!(unwslify_wsl_linux_path(&there), original);
}

#[test]
fn app_list_command_line() {
    let cmd = singularity_app_list(&"C:\\c.img".to_string());
    assert_eq!(
        cmd,
        vec![
            "/C".to_string(),
            "wsl -d ColonyWSL -e".to_string(),
            "singularity".to_string(),
            "inspect".to_string(),
            "--list-apps".to_string(),
            "/mnt/c/c.img".to_string(),
        ]
    );
}

#[test]
fn run_in_dir_command_line_carries_workdir_and_args() {
    let cmd = singularity_run_in_dir(
        &"C:\\work".to_string(),
        &"C:\\c.img".to_string(),
        vec!["--flag".to_string()],
    );
    assert_eq!(
        cmd,
        vec![
            "/C".to_string(),
            "wsl -d ColonyWSL --shell-type standard".to_string(),
            "singularity".to_string(),
            "run".to_string(),
            "--pwd".to_string(),
            "/mnt/c/work".to_string(),
            "--bind".to_string(),
            "/mnt:/mnt".to_string(),
            "/mnt/c/c.img".to_string(),
            "--flag".to_string(),
        ]
    );
}

#[test]
fn command_output_selection() {
    assert_eq!(
        singularity_command(Some(0), "out".to_string(), "err".to_string()),
        Some("out".to_string())
    );
    assert_eq!(
        singularity_command(Some(3), "out".to_string(), "err".to_string()),
        Some("err".to_string())
    );
    assert_eq!(singularity_command(None, "out".to_string(), "err".to_string()), None);
}

#[test]
fn wsl_command_wrapping() {
    assert_eq!(
        run_wsl_command(&"ls -1Q /data".to_string()),
        "/C wsl -d ColonyWSL -e ls -1Q /data"
    );
    assert_eq!(request_wsl_stdin_bytes(), vec![0u8, 65u8]);
}

#[test]
fn distro_listing_is_parsed() {
    assert_eq!(
        find_wsl_distros(&"heading\nUbuntu-22.04\nColonyWSL\n".to_string()),
        vec!["Ubuntu-22.04".to_string(), "ColonyWSL".to_string()]
    );
    assert_eq!(
        find_wsl_distros(&"oops DEFAULT_DISTRO_NOT_FOUND here".to_string()),
        vec!["DEFAULT_DISTRO_NOT_FOUND".to_string()]
    );
    assert_eq!(
        find_wsl_distros(&"see /wslstore for details".to_string()),
        Vec::<String>::new()
    );
    assert_eq!(find_wsl_distros(&"".to_string()), Vec::<String>::new());
}

#[test]
fn import_stage_decisions() {
    let present = vec!["Ubuntu".to_string(), "ColonyWSL (Default)".to_string()];
    let absent = vec!["Ubuntu".to_string()];
    assert_eq!(distro_import_decision(&present, false), ImportAction::AlreadyPresent);
    assert_eq!(distro_import_decision(&absent, true), ImportAction::ImportBundledArchive);
    assert_eq!(distro_import_decision(&absent, false), ImportAction::AskUserForArchive);

    assert_eq!(
        import_outcome_state(&present),
        InstallationState::ImportingDistribution
    );
    assert_eq!(import_outcome_state(&absent), InstallationState::InstallationFailed);
    assert_eq!(wsl_status_state(true), InstallationState::InstallationStarted);
    assert_eq!(wsl_status_state(false), InstallationState::InstallationFailed);
}

#[test]
fn seconds_since_the_epoch() {
    let t = UnixTime::from(1234);
    assert_eq!(t.as_secs(), 1234);
    assert_eq!(t, UnixTime::from(1234));
}
