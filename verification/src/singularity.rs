//! Interacting with singularity containers through the Linux
//! subsystem: the exact command lines each operation runs, how a
//! finished command's output is selected, and how each query's output
//! becomes a typed response.
//!
//! The commands themselves are spawned outside this crate; these
//! functions pin down what is run and what the results mean.

use vstd::prelude::*;

use crate::paths::{spec_wslify, wslify_windows_path};
use crate::textutil::{spec_lines, split_lines};

verus! {

/// A query against a container image.
#[derive(Clone, Debug, PartialEq, Eq)]
pub enum SingularityQuery {
    AppList,
    AppRequirements,
    AppConfigurationOptions,
    Inspection,
    RunHelp,
    AppHelp(String),
    RunLabels,
    AppLabels(String),
}

/// A query's typed answer.
#[derive(Clone, Debug, PartialEq, Eq)]
pub enum SingularityResponse {
    AppList(Vec<String>),
    AppRequirements(String),
    AppConfigurationOptions(String),
    Inspection(String),
    RunHelp(String),
    AppHelp(String),
    RunLabels(String),
    AppLabels(String),
}

/// What a finished command hands back: its standard output on a clean
/// exit, its standard error on a reported failure, nothing when it
/// did not properly terminate.
pub fn singularity_command(status_code: Option<i32>, stdout: String, stderr: String) -> (out:
    Option<String>)
    ensures
        match status_code {
            Some(0) => out == Some(stdout),
            Some(_) => status_code != Some(0i32) ==> out == Some(stderr),
            None => out is None,
        },
{
    match status_code {
        Some(0) => Some(stdout),
        Some(_) => Some(stderr),
        None => None,
    }
}

/// Append one literal argument.
fn push_arg(v: &mut Vec<String>, s: &str)
    ensures
        final(v).deep_view() == old(v).deep_view().push(s@),
{
    let ghost dv0 = v.deep_view();
    v.push(s.to_owned());
    proof {
        assert(v.deep_view() =~= dv0.push(s@));
    }
}

/// Append an owned argument.
fn push_owned(v: &mut Vec<String>, s: String)
    ensures
        final(v).deep_view() == old(v).deep_view().push(s@),
{
    let ghost dv0 = v.deep_view();
    let ghost sv = s@;
    v.push(s);
    proof {
        assert(v.deep_view() =~= dv0.push(sv));
    }
}

/// Append every element of `extra`.
fn push_all(v: &mut Vec<String>, extra: Vec<String>)
    ensures
        final(v).deep_view() == old(v).deep_view().add(extra.deep_view()),
{
    let ghost ev = extra.deep_view();
    let n = extra.len();
    let mut i: usize = 0;
    let mut extra = extra;
    proof {
        assert(v.deep_view() =~= old(v).deep_view().add(ev.subrange(0, 0)));
    }
    while i < n
        invariant
            i <= n,
            n == ev.len(),
            extra.deep_view() == ev,
            v.deep_view() =~= old(v).deep_view().add(ev.subrange(0, i as int)),
        decreases n - i,
    {
        let ghost dv0 = v.deep_view();
        let s = crate::textutil::clone_string(&extra[i]);
        v.push(s);
        proof {
            assert(v.deep_view() =~= dv0.push(ev[i as int]));
            assert(dv0.push(ev[i as int]) =~= old(v).deep_view().add(
                ev.subrange(0, i as int + 1),
            ));
        }
        i += 1;
    }
    proof {
        assert(ev.subrange(0, n as int) =~= ev);
    }
}

/// The command that inspects a container's full metadata.
pub fn singularity_inspection(container_path: &String) -> (cmd: Vec<String>)
    ensures
        cmd.deep_view() == seq![
            "/C"@,
            "wsl -d ColonyWSL -e singularity inspect --all"@,
            spec_wslify(container_path@),
        ],
{
    let pth = wslify_windows_path(container_path);
    let mut cmd: Vec<String> = Vec::new();
    push_arg(&mut cmd, "/C");
    push_arg(&mut cmd, "wsl -d ColonyWSL -e singularity inspect --all");
    push_owned(&mut cmd, pth);
    proof {
        assert(cmd.deep_view() =~= seq![
            "/C"@,
            "wsl -d ColonyWSL -e singularity inspect --all"@,
            spec_wslify(container_path@),
        ]);
    }
    cmd
}

/// The command that lists a container's apps.
pub fn singularity_app_list(container_path: &String) -> (cmd: Vec<String>)
    ensures
        cmd.deep_view() == seq![
            "/C"@,
            "wsl -d ColonyWSL -e"@,
            "singularity"@,
            "inspect"@,
            "--list-apps"@,
            spec_wslify(container_path@),
        ],
{
    let pth = wslify_windows_path(container_path);
    let mut cmd: Vec<String> = Vec::new();
    push_arg(&mut cmd, "/C");
    push_arg(&mut cmd, "wsl -d ColonyWSL -e");
    push_arg(&mut cmd, "singularity");
    push_arg(&mut cmd, "inspect");
    push_arg(&mut cmd, "--list-apps");
    push_owned(&mut cmd, pth);
    proof {
        assert(cmd.deep_view() =~= seq![
            "/C"@,
            "wsl -d ColonyWSL -e"@,
            "singularity"@,
            "inspect"@,
            "--list-apps"@,
            spec_wslify(container_path@),
        ]);
    }
    cmd
}

/// The command that prints a container's run help.
pub fn singularity_help(container_path: &String) -> (cmd: Vec<String>)
    ensures
        cmd.deep_view() == seq![
            "/C"@,
            "wsl -d ColonyWSL -e"@,
            "singularity help"@,
            spec_wslify(container_path@),
        ],
{
    let pth = wslify_windows_path(container_path);
    let mut cmd: Vec<String> = Vec::new();
    push_arg(&mut cmd, "/C");
    push_arg(&mut cmd, "wsl -d ColonyWSL -e");
    push_arg(&mut cmd, "singularity help");
    push_owned(&mut cmd, pth);
    proof {
        assert(cmd.deep_view() =~= seq![
            "/C"@,
            "wsl -d ColonyWSL -e"@,
            "singularity help"@,
            spec_wslify(container_path@),
        ]);
    }
    cmd
}

/// The command that prints a container's labels.
pub fn singularity_label(container_path: &String) -> (cmd: Vec<String>)
    ensures
        cmd.deep_view() == seq![
            "/C"@,
            "wsl -d ColonyWSL -e"@,
            "singularity inspect --json --labels"@,
            spec_wslify(container_path@),
        ],
{
    let pth = wslify_windows_path(container_path);
    let mut cmd: Vec<String> = Vec::new();
    push_arg(&mut cmd, "/C");
    push_arg(&mut cmd, "wsl -d ColonyWSL -e");
    push_arg(&mut cmd, "singularity inspect --json --labels");
    push_owned(&mut cmd, pth);
    proof {
        assert(cmd.deep_view() =~= seq![
            "/C"@,
            "wsl -d ColonyWSL -e"@,
            "singularity inspect --json --labels"@,
            spec_wslify(container_path@),
        ]);
    }
    cmd
}

/// The command that asks a container for its app requirements.
pub fn singularity_app_requirements(container_path: &String) -> (cmd: Vec<String>)
    ensures
        cmd.deep_view() == seq![
            "/C"@,
            "wsl -d ColonyWSL -e"@,
            "singularity run --app app-requirements"@,
            spec_wslify(container_path@),
        ],
{
    let pth = wslify_windows_path(container_path);
    let mut cmd: Vec<String> = Vec::new();
    push_arg(&mut cmd, "/C");
    push_arg(&mut cmd, "wsl -d ColonyWSL -e");
    push_arg(&mut cmd, "singularity run --app app-requirements");
    push_owned(&mut cmd, pth);
    proof {
        assert(cmd.deep_view() =~= seq![
            "/C"@,
            "wsl -d ColonyWSL -e"@,
            "singularity run --app app-requirements"@,
            spec_wslify(container_path@),
        ]);
    }
    cmd
}

/// The command that asks a container for its configuration options.
pub fn singularity_app_configuration_options(container_path: &String) -> (cmd: Vec<String>)
    ensures
        cmd.deep_view() == seq![
            "/C"@,
            "wsl -d ColonyWSL -e"@,
            "singularity run --app app-configurations"@,
            spec_wslify(container_path@),
        ],
{
    let pth = wslify_windows_path(container_path);
    let mut cmd: Vec<String> = Vec::new();
    push_arg(&mut cmd, "/C");
    push_arg(&mut cmd, "wsl -d ColonyWSL -e");
    push_arg(&mut cmd, "singularity run --app app-configurations");
    push_owned(&mut cmd, pth);
    proof {
        assert(cmd.deep_view() =~= seq![
            "/C"@,
            "wsl -d ColonyWSL -e"@,
            "singularity run --app app-configurations"@,
            spec_wslify(container_path@),
        ]);
    }
    cmd
}

/// The command that runs a container, binding the mount root.
pub fn singularity_run(container_path: &String, container_args: Vec<String>) -> (cmd: Vec<String>)
    ensures
        cmd.deep_view() == seq![
            "/C"@,
            "wsl -d ColonyWSL -e"@,
            "singularity"@,
            "run"@,
            "--bind"@,
            "/mnt:/mnt"@,
            spec_wslify(container_path@),
        ].add(container_args.deep_view()),
{
    let pth = wslify_windows_path(container_path);
    let mut cmd: Vec<String> = Vec::new();
    push_arg(&mut cmd, "/C");
    push_arg(&mut cmd, "wsl -d ColonyWSL -e");
    push_arg(&mut cmd, "singularity");
    push_arg(&mut cmd, "run");
    push_arg(&mut cmd, "--bind");
    push_arg(&mut cmd, "/mnt:/mnt");
    push_owned(&mut cmd, pth);
    proof {
        assert(cmd.deep_view() =~= seq![
            "/C"@,
            "wsl -d ColonyWSL -e"@,
            "singularity"@,
            "run"@,
            "--bind"@,
            "/mnt:/mnt"@,
            spec_wslify(container_path@),
        ]);
    }
    push_all(&mut cmd, container_args);
    cmd
}

/// The command that runs a container in a working directory.
pub fn singularity_run_in_dir(
    working_directory: &String,
    container_path: &String,
    container_args: Vec<String>,
) -> (cmd: Vec<String>)
    ensures
        cmd.deep_view() == seq![
            "/C"@,
            "wsl -d ColonyWSL --shell-type standard"@,
            "singularity"@,
            "run"@,
            "--pwd"@,
            spec_wslify(working_directory@),
            "--bind"@,
            "/mnt:/mnt"@,
            spec_wslify(container_path@),
        ].add(container_args.deep_view()),
{
    let work_dir = wslify_windows_path(working_directory);
    let pth = wslify_windows_path(container_path);
    let mut cmd: Vec<String> = Vec::new();
    push_arg(&mut cmd, "/C");
    push_arg(&mut cmd, "wsl -d ColonyWSL --shell-type standard");
    push_arg(&mut cmd, "singularity");
    push_arg(&mut cmd, "run");
    push_arg(&mut cmd, "--pwd");
    push_owned(&mut cmd, work_dir);
    push_arg(&mut cmd, "--bind");
    push_arg(&mut cmd, "/mnt:/mnt");
    push_owned(&mut cmd, pth);
    proof {
        assert(cmd.deep_view() =~= seq![
            "/C"@,
            "wsl -d ColonyWSL --shell-type standard"@,
            "singularity"@,
            "run"@,
            "--pwd"@,
            spec_wslify(working_directory@),
            "--bind"@,
            "/mnt:/mnt"@,
            spec_wslify(container_path@),
        ]);
    }
    push_all(&mut cmd, container_args);
    cmd
}

/// The command that runs a named app of a container.
pub fn singularity_run_app(
    container_path: &String,
    app: &String,
    container_args: Vec<String>,
) -> (cmd: Vec<String>)
    ensures
        cmd.deep_view() == seq![
            "/C"@,
            "wsl -d ColonyWSL -e"@,
            "singularity"@,
            "run"@,
            "--app"@,
            app@,
            spec_wslify(container_path@),
        ].add(container_args.deep_view()),
{
    let pth = wslify_windows_path(container_path);
    let mut cmd: Vec<String> = Vec::new();
    push_arg(&mut cmd, "/C");
    push_arg(&mut cmd, "wsl -d ColonyWSL -e");
    push_arg(&mut cmd, "singularity");
    push_arg(&mut cmd, "run");
    push_arg(&mut cmd, "--app");
    push_owned(&mut cmd, crate::textutil::clone_string(app));
    push_owned(&mut cmd, pth);
    proof {
        assert(cmd.deep_view() =~= seq![
            "/C"@,
            "wsl -d ColonyWSL -e"@,
            "singularity"@,
            "run"@,
            "--app"@,
            app@,
            spec_wslify(container_path@),
        ]);
    }
    push_all(&mut cmd, container_args);
    cmd
}

/// The command that runs a named app of a container in a working
/// directory.
pub fn singularity_run_app_in_dir(
    working_directory: &String,
    container_path: &String,
    app: &String,
    container_args: Vec<String>,
) -> (cmd: Vec<String>)
    ensures
        cmd.deep_view() == seq![
            "/C"@,
            "wsl -d ColonyWSL -e"@,
            "singularity"@,
            "run"@,
            "--pwd"@,
            spec_wslify(working_directory@),
            "--bind"@,
            "/mnt:/mnt"@,
            "--app"@,
            app@,
            spec_wslify(container_path@),
        ].add(container_args.deep_view()),
{
    let wsl_workdir = wslify_windows_path(working_directory);
    let pth = wslify_windows_path(container_path);
    let mut cmd: Vec<String> = Vec::new();
    push_arg(&mut cmd, "/C");
    push_arg(&mut cmd, "wsl -d ColonyWSL -e");
    push_arg(&mut cmd, "singularity");
    push_arg(&mut cmd, "run");
    push_arg(&mut cmd, "--pwd");
    push_owned(&mut cmd, wsl_workdir);
    push_arg(&mut cmd, "--bind");
    push_arg(&mut cmd, "/mnt:/mnt");
    push_arg(&mut cmd, "--app");
    push_owned(&mut cmd, crate::textutil::clone_string(app));
    push_owned(&mut cmd, pth);
    proof {
        assert(cmd.deep_view() =~= seq![
            "/C"@,
            "wsl -d ColonyWSL -e"@,
            "singularity"@,
            "run"@,
            "--pwd"@,
            spec_wslify(working_directory@),
            "--bind"@,
            "/mnt:/mnt"@,
            "--app"@,
            app@,
            spec_wslify(container_path@),
        ]);
    }
    push_all(&mut cmd, container_args);
    cmd
}

/// The command that runs a container's test section.
pub fn singularity_test(container_path: &String) -> (cmd: Vec<String>)
    ensures
        cmd.deep_view() == seq![
            "/C"@,
            "wsl -d ColonyWSL -e"@,
            "singularity"@,
            "test"@,
            spec_wslify(container_path@),
        ],
{
    let pth = wslify_windows_path(container_path);
    let mut cmd: Vec<String> = Vec::new();
    push_arg(&mut cmd, "/C");
    push_arg(&mut cmd, "wsl -d ColonyWSL -e");
    push_arg(&mut cmd, "singularity");
    push_arg(&mut cmd, "test");
    push_owned(&mut cmd, pth);
    proof {
        assert(cmd.deep_view() =~= seq![
            "/C"@,
            "wsl -d ColonyWSL -e"@,
            "singularity"@,
            "test"@,
            spec_wslify(container_path@),
        ]);
    }
    cmd
}

/// Whether a character sequence is a well-formed JSON document, as
/// the JSON parser decides it.
pub uninterp spec fn json_wellformed(s: Seq<char>) -> bool;

/// Relies on serde_json::from_str::<serde_json::Value>: whether the
/// text parses as a JSON document depends on the characters alone.
#[verifier::external_body]
fn parse_json_ok(s: &String) -> (r: bool)
    ensures
        r == json_wellformed(s@),
{
    serde_json::from_str::<serde_json::Value>(s).is_ok()
}

/// A query's answer shaped from what the command handed back: the app
/// list split into lines, an inspection only when its output is
/// well-formed JSON, every other answer the raw text, and an absent
/// value where the command yielded none or the inspection did not
/// parse.
pub fn singularity_query_response(query: &SingularityQuery, raw: Option<String>) -> (out: Option<
    SingularityResponse,
>)
    ensures
        raw is None ==> out is None,
        raw matches Some(text) ==> match query {
            SingularityQuery::AppList => out matches Some(SingularityResponse::AppList(lines))
                && lines.deep_view() == spec_lines(text@),
            SingularityQuery::AppRequirements => out == Some(
                SingularityResponse::AppRequirements(text),
            ),
            SingularityQuery::AppConfigurationOptions => out == Some(
                SingularityResponse::AppConfigurationOptions(text),
            ),
            SingularityQuery::Inspection => out == if json_wellformed(text@) {
                Some(SingularityResponse::Inspection(text))
            } else {
                None
            },
            SingularityQuery::RunHelp => out == Some(SingularityResponse::RunHelp(text)),
            SingularityQuery::AppHelp(_) => out == Some(SingularityResponse::AppHelp(text)),
            SingularityQuery::RunLabels => out == Some(SingularityResponse::RunLabels(text)),
            SingularityQuery::AppLabels(_) => out == Some(SingularityResponse::AppLabels(text)),
        },
{
    match raw {
        None => None,
        Some(text) => match query {
            SingularityQuery::AppList => {
                let lines = split_lines(&text);
                Some(SingularityResponse::AppList(lines))
            },
            SingularityQuery::AppRequirements => Some(
                SingularityResponse::AppRequirements(text),
            ),
            SingularityQuery::AppConfigurationOptions => Some(
                SingularityResponse::AppConfigurationOptions(text),
            ),
            SingularityQuery::Inspection => {
                if parse_json_ok(&text) {
                    Some(SingularityResponse::Inspection(text))
                } else {
                    None
                }
            },
            SingularityQuery::RunHelp => Some(SingularityResponse::RunHelp(text)),
            SingularityQuery::AppHelp(_) => Some(SingularityResponse::AppHelp(text)),
            SingularityQuery::RunLabels => Some(SingularityResponse::RunLabels(text)),
            SingularityQuery::AppLabels(_) => Some(SingularityResponse::AppLabels(text)),
        },
    }
}

} // verus!
