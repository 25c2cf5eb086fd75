//! Driving the Linux subsystem: the exact command lines of the
//! platform-setup and teardown operations, how the installed
//! distribution list is read, and the decisions of the multi-stage
//! platform check.

use vstd::prelude::*;

use crate::textutil::{
    contains_pattern, contains_substr, spec_lines, split_lines, starts_with_pattern,
};

verus! {

/// Where the multi-stage platform setup stands, as reported to the
/// front-end after each stage.
#[derive(Clone, Copy, Debug, PartialEq, Eq)]
pub enum InstallationState {
    InstallationStarted,
    InstallingWSL,
    ImportingDistribution,
    DistributionWasNotFound,
    DistributionNeedsToBeSelected,
    InstallingSingularity,
    InstallationEnded,
    InstallationFailed,
}

/// Append one literal argument.
fn push_arg(v: &mut Vec<String>, s: &str)
    ensures
        final(v).deep_view() == old(v).deep_view().push(s@),
{
    let ghost dv0 = v.deep_view();
    v.push(s.to_owned());
    proof {
        assert(v.deep_view() =~= dv0.push(s@));
    }
}

/// Append an owned argument.
fn push_owned(v: &mut Vec<String>, s: String)
    ensures
        final(v).deep_view() == old(v).deep_view().push(s@),
{
    let ghost dv0 = v.deep_view();
    let ghost sv = s@;
    v.push(s);
    proof {
        assert(v.deep_view() =~= dv0.push(sv));
    }
}

/// The single shell argument that runs one command inside the
/// subsystem's distribution.
pub fn run_wsl_command(command: &String) -> (arg: String)
    ensures
        arg@ == "/C wsl -d ColonyWSL -e "@.add(command@),
{
    let mut arg = String::new();
    vstd::string::StringExecFns::append(&mut arg, "/C wsl -d ColonyWSL -e ");
    vstd::string::StringExecFns::append(&mut arg, command.as_str());
    proof {
        assert(arg@ =~= "/C wsl -d ColonyWSL -e "@.add(command@));
    }
    arg
}

/// The command that probes the subsystem's status.
pub fn check_wsl() -> (cmd: Vec<String>)
    ensures
        cmd.deep_view() == seq!["/C"@, "wsl --status"@],
{
    let mut cmd: Vec<String> = Vec::new();
    push_arg(&mut cmd, "/C");
    push_arg(&mut cmd, "wsl --status");
    proof {
        assert(cmd.deep_view() =~= seq!["/C"@, "wsl --status"@]);
    }
    cmd
}

/// The command that starts the subsystem so it can be asked for its
/// runtime; its standard input is given one wake-up write.
pub fn request_wsl_only_child() -> (cmd: Vec<String>)
    ensures
        cmd.deep_view() == seq!["/C"@, "wsl"@],
{
    let mut cmd: Vec<String> = Vec::new();
    push_arg(&mut cmd, "/C");
    push_arg(&mut cmd, "wsl");
    proof {
        assert(cmd.deep_view() =~= seq!["/C"@, "wsl"@]);
    }
    cmd
}

/// The bytes written to the requested subsystem's standard input.
pub fn request_wsl_stdin_bytes() -> (out: Vec<u8>)
    ensures
        out@ == seq![0u8, 65u8],
{
    let mut out: Vec<u8> = Vec::new();
    out.push(0);
    out.push(65);
    proof {
        assert(out@ =~= seq![0u8, 65u8]);
    }
    out
}

/// The command that installs the stock distribution without launching
/// it.
pub fn install_wsl_distribution_only_child() -> (cmd: Vec<String>)
    ensures
        cmd.deep_view() == seq!["/C"@, "wsl --install --no-launch -d Ubuntu-22.04"@],
{
    let mut cmd: Vec<String> = Vec::new();
    push_arg(&mut cmd, "/C");
    push_arg(&mut cmd, "wsl --install --no-launch -d Ubuntu-22.04");
    proof {
        assert(cmd.deep_view() =~= seq!["/C"@, "wsl --install --no-launch -d Ubuntu-22.04"@]);
    }
    cmd
}

/// The command that installs the stock distribution interactively.
pub fn install_wsl_only_child_pseudointeractive() -> (cmd: Vec<String>)
    ensures
        cmd.deep_view() == seq!["/C"@, "wsl --install -d Ubuntu-22.04"@],
{
    let mut cmd: Vec<String> = Vec::new();
    push_arg(&mut cmd, "/C");
    push_arg(&mut cmd, "wsl --install -d Ubuntu-22.04");
    proof {
        assert(cmd.deep_view() =~= seq!["/C"@, "wsl --install -d Ubuntu-22.04"@]);
    }
    cmd
}

/// The lines typed into the interactive installer: a user name, the
/// password twice, and the exit.
pub fn pseudointeractive_stdin_lines() -> (out: Vec<String>)
    ensures
        out.deep_view() == seq!["user\r\n"@, "passowrd\r\n"@, "passowrd\r\n"@, "exit\r\n"@],
{
    let mut out: Vec<String> = Vec::new();
    push_arg(&mut out, "user\r\n");
    push_arg(&mut out, "passowrd\r\n");
    push_arg(&mut out, "passowrd\r\n");
    push_arg(&mut out, "exit\r\n");
    proof {
        assert(out.deep_view() =~= seq![
            "user\r\n"@,
            "passowrd\r\n"@,
            "passowrd\r\n"@,
            "exit\r\n"@,
        ]);
    }
    out
}

/// The command that updates the subsystem runtime.
pub fn update_wsl_only_child() -> (cmd: Vec<String>)
    ensures
        cmd.deep_view() == seq!["/C"@, "wsl --update"@],
{
    let mut cmd: Vec<String> = Vec::new();
    push_arg(&mut cmd, "/C");
    push_arg(&mut cmd, "wsl --update");
    proof {
        assert(cmd.deep_view() =~= seq!["/C"@, "wsl --update"@]);
    }
    cmd
}

/// The command that makes the stock distribution the default.
pub fn set_wsl_set_default_distro_child() -> (cmd: Vec<String>)
    ensures
        cmd.deep_view() == seq!["/C"@, "wsl --set-default Ubuntu-22.04"@],
{
    let mut cmd: Vec<String> = Vec::new();
    push_arg(&mut cmd, "/C");
    push_arg(&mut cmd, "wsl --set-default Ubuntu-22.04");
    proof {
        assert(cmd.deep_view() =~= seq!["/C"@, "wsl --set-default Ubuntu-22.04"@]);
    }
    cmd
}

/// The command that lists the installed distributions.
pub fn list_wsl_distros_command() -> (cmd: Vec<String>)
    ensures
        cmd.deep_view() == seq!["/C"@, "wsl -l"@],
{
    let mut cmd: Vec<String> = Vec::new();
    push_arg(&mut cmd, "/C");
    push_arg(&mut cmd, "wsl -l");
    proof {
        assert(cmd.deep_view() =~= seq!["/C"@, "wsl -l"@]);
    }
    cmd
}

/// The installed distributions, read from the listing command's
/// output: a reported missing default distribution and a store-help
/// answer are recognized; otherwise every line after the heading names
/// one distribution.
pub fn find_wsl_distros(wsl_response: &String) -> (out: Vec<String>)
    ensures
        contains_substr(wsl_response@, "DEFAULT_DISTRO_NOT_FOUND"@) ==> out.deep_view() == seq![
            "DEFAULT_DISTRO_NOT_FOUND"@,
        ],
        !contains_substr(wsl_response@, "DEFAULT_DISTRO_NOT_FOUND"@) && contains_substr(
            wsl_response@,
            "/wslstore"@,
        ) ==> out.deep_view() == Seq::<Seq<char>>::empty(),
        !contains_substr(wsl_response@, "DEFAULT_DISTRO_NOT_FOUND"@) && !contains_substr(
            wsl_response@,
            "/wslstore"@,
        ) ==> out.deep_view() == if spec_lines(wsl_response@).len() > 0 {
            spec_lines(wsl_response@).drop_first()
        } else {
            Seq::<Seq<char>>::empty()
        },
{
    proof {
        reveal_strlit("DEFAULT_DISTRO_NOT_FOUND");
        reveal_strlit("/wslstore");
    }
    if contains_pattern(wsl_response, "DEFAULT_DISTRO_NOT_FOUND") {
        let mut out: Vec<String> = Vec::new();
        push_arg(&mut out, "DEFAULT_DISTRO_NOT_FOUND");
        proof {
            assert(out.deep_view() =~= seq!["DEFAULT_DISTRO_NOT_FOUND"@]);
        }
        out
    } else if contains_pattern(wsl_response, "/wslstore") {
        let out: Vec<String> = Vec::new();
        proof {
            assert(out.deep_view() =~= Seq::<Seq<char>>::empty());
        }
        out
    } else {
        let mut lines = split_lines(wsl_response);
        if lines.len() > 0 {
            let ghost dv0 = lines.deep_view();
            lines.remove(0);
            proof {
                assert(lines.deep_view() =~= dv0.drop_first());
            }
        } else {
            proof {
                assert(lines.deep_view() =~= Seq::<Seq<char>>::empty());
            }
        }
        lines
    }
}

/// The command that installs the stock distribution (retried during
/// export and reimport).
pub fn install_wsl_ubuntu_child() -> (cmd: Vec<String>)
    ensures
        cmd.deep_view() == seq!["/C"@, "wsl --install --no-launch -d Ubuntu-22.04"@],
{
    install_wsl_distribution_only_child()
}

/// The command that exports the stock distribution to an archive.
pub fn wsl_export_ubuntu_child(distro_tar_path: &String) -> (cmd: Vec<String>)
    ensures
        cmd.deep_view() == seq!["/C"@, "wsl --export Ubuntu-22.04"@, distro_tar_path@],
{
    let mut cmd: Vec<String> = Vec::new();
    push_arg(&mut cmd, "/C");
    push_arg(&mut cmd, "wsl --export Ubuntu-22.04");
    push_owned(&mut cmd, crate::textutil::clone_string(distro_tar_path));
    proof {
        assert(cmd.deep_view() =~= seq!["/C"@, "wsl --export Ubuntu-22.04"@, distro_tar_path@]);
    }
    cmd
}

/// The command that reimports the exported archive under the
/// launcher's own distribution name.
pub fn wsl_reimport_ubuntu_child(distro_tar_path: &String) -> (cmd: Vec<String>)
    ensures
        cmd.deep_view() == seq![
            "/C"@,
            "wsl --import ColonyWSL $HOME/ColonyWSL"@,
            distro_tar_path@,
        ],
{
    let mut cmd: Vec<String> = Vec::new();
    push_arg(&mut cmd, "/C");
    push_arg(&mut cmd, "wsl --import ColonyWSL $HOME/ColonyWSL");
    push_owned(&mut cmd, crate::textutil::clone_string(distro_tar_path));
    proof {
        assert(cmd.deep_view() =~= seq![
            "/C"@,
            "wsl --import ColonyWSL $HOME/ColonyWSL"@,
            distro_tar_path@,
        ]);
    }
    cmd
}

/// The command that imports the launcher's distribution archive into
/// the given directory.
pub fn wsl_import_colony_wsl_child(target_dir: &String, distro_tar_path: &String) -> (cmd: Vec<
    String,
>)
    ensures
        cmd.deep_view() == seq![
            "/C"@,
            "wsl --import"@,
            "ColonyWSL"@,
            target_dir@,
            distro_tar_path@,
        ],
{
    let mut cmd: Vec<String> = Vec::new();
    push_arg(&mut cmd, "/C");
    push_arg(&mut cmd, "wsl --import");
    push_arg(&mut cmd, "ColonyWSL");
    push_owned(&mut cmd, crate::textutil::clone_string(target_dir));
    push_owned(&mut cmd, crate::textutil::clone_string(distro_tar_path));
    proof {
        assert(cmd.deep_view() =~= seq![
            "/C"@,
            "wsl --import"@,
            "ColonyWSL"@,
            target_dir@,
            distro_tar_path@,
        ]);
    }
    cmd
}

/// The command that probes the installed singularity version.
pub fn check_singularity_version() -> (cmd: Vec<String>)
    ensures
        cmd.deep_view() == seq!["/C"@, "wsl -d ColonyWSL -e singularity --version"@],
{
    let mut cmd: Vec<String> = Vec::new();
    push_arg(&mut cmd, "/C");
    push_arg(&mut cmd, "wsl -d ColonyWSL -e singularity --version");
    proof {
        assert(cmd.deep_view() =~= seq!["/C"@, "wsl -d ColonyWSL -e singularity --version"@]);
    }
    cmd
}

/// The command run to install singularity into the distribution.
pub fn install_singularity_child() -> (cmd: Vec<String>)
    ensures
        cmd.deep_view() == seq!["/C"@, "wsl -d ColonyWSL -e singularity --version"@],
{
    check_singularity_version()
}

/// The command that shuts the launcher's distribution down.
pub fn shut_down_colonywsl_child() -> (cmd: Vec<String>)
    ensures
        cmd.deep_view() == seq!["/C"@, "wsl --terminate ColonyWSL"@],
{
    let mut cmd: Vec<String> = Vec::new();
    push_arg(&mut cmd, "/C");
    push_arg(&mut cmd, "wsl --terminate ColonyWSL");
    proof {
        assert(cmd.deep_view() =~= seq!["/C"@, "wsl --terminate ColonyWSL"@]);
    }
    cmd
}

// ---------------------------------------------------------------------
// Platform-check decisions
// ---------------------------------------------------------------------

/// Whether some listed distribution name begins with the launcher's
/// distribution name.
pub open spec fn spec_has_colony_distro(distros: Seq<Seq<char>>) -> bool {
    exists|i: int|
        0 <= i < distros.len() && "ColonyWSL"@.len() <= distros[i].len() && distros[i].subrange(
            0,
            "ColonyWSL"@.len() as int,
        ) == "ColonyWSL"@
}

/// Whether the launcher's distribution is among the listed ones.
pub fn has_colony_distro(distros: &Vec<String>) -> (r: bool)
    ensures
        r == spec_has_colony_distro(distros.deep_view()),
{
    let n = distros.len();
    let mut i: usize = 0;
    while i < n
        invariant
            i <= n,
            n == distros.deep_view().len(),
            forall|j: int|
                0 <= j < i ==> !("ColonyWSL"@.len() <= (#[trigger] distros.deep_view()[j]).len()
                    && distros.deep_view()[j].subrange(0, "ColonyWSL"@.len() as int)
                    == "ColonyWSL"@),
        decreases n - i,
    {
        if starts_with_pattern(&distros[i], "ColonyWSL") {
            proof {
                assert(spec_has_colony_distro(distros.deep_view())) by {
                    assert("ColonyWSL"@.len() <= distros.deep_view()[i as int].len()
                        && distros.deep_view()[i as int].subrange(0, "ColonyWSL"@.len() as int)
                        == "ColonyWSL"@);
                }
            }
            return true;
        }
        i += 1;
    }
    false
}

/// What the importing stage must do, decided from the distribution
/// list and whether the bundled archive is at hand.
#[derive(Clone, Copy, Debug, PartialEq, Eq)]
pub enum ImportAction {
    AlreadyPresent,
    ImportBundledArchive,
    AskUserForArchive,
}

/// The importing stage's decision: nothing to do when the launcher's
/// distribution is already listed; import the bundled archive when it
/// is at hand; otherwise ask the user for one.
pub fn distro_import_decision(distros: &Vec<String>, archive_present: bool) -> (a: ImportAction)
    ensures
        spec_has_colony_distro(distros.deep_view()) ==> a == ImportAction::AlreadyPresent,
        !spec_has_colony_distro(distros.deep_view()) && archive_present ==> a
            == ImportAction::ImportBundledArchive,
        !spec_has_colony_distro(distros.deep_view()) && !archive_present ==> a
            == ImportAction::AskUserForArchive,
{
    if has_colony_distro(distros) {
        ImportAction::AlreadyPresent
    } else if archive_present {
        ImportAction::ImportBundledArchive
    } else {
        ImportAction::AskUserForArchive
    }
}

/// What the importing stage reports once it has run: success when the
/// launcher's distribution is now listed, failure otherwise.
pub fn import_outcome_state(distros_after: &Vec<String>) -> (st: InstallationState)
    ensures
        spec_has_colony_distro(distros_after.deep_view()) ==> st
            == InstallationState::ImportingDistribution,
        !spec_has_colony_distro(distros_after.deep_view()) ==> st
            == InstallationState::InstallationFailed,
{
    if has_colony_distro(distros_after) {
        InstallationState::ImportingDistribution
    } else {
        InstallationState::InstallationFailed
    }
}

/// What the status probe reports: the platform check has started when
/// the subsystem answered, and has failed when it could not be asked.
pub fn wsl_status_state(probe_succeeded: bool) -> (st: InstallationState)
    ensures
        probe_succeeded ==> st == InstallationState::InstallationStarted,
        !probe_succeeded ==> st == InstallationState::InstallationFailed,
{
    if probe_succeeded {
        InstallationState::InstallationStarted
    } else {
        InstallationState::InstallationFailed
    }
}

/// Whether the bounded-grace shutdown may stop waiting: the subsystem
/// helper has reported its exit, or a full second has passed.
pub fn grace_wait_over(helper_exited: bool, elapsed_millis: u64) -> (r: bool)
    ensures
        r == (helper_exited || elapsed_millis > 1000),
{
    helper_exited || elapsed_millis > 1000
}

} // verus!
