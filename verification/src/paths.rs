//! Translating paths between the host's convention and the Linux
//! subsystem's convention.

use vstd::prelude::*;

use crate::textutil::{replace_all, spec_replace};

verus! {

/// What a Windows path looks like inside the Linux subsystem: the
/// `C:\` drive prefix becomes `/mnt/c/`, and every remaining
/// backslash a forward slash.
pub open spec fn spec_wslify(s: Seq<char>) -> Seq<char> {
    spec_replace(spec_replace(s, "C:\\"@, "/mnt/c/"@), "\\"@, "/"@)
}

/// What a subsystem path looks like on the host: the `/mnt/c/` prefix
/// becomes `C:\`, and every remaining forward slash a backslash.
pub open spec fn spec_unwslify(s: Seq<char>) -> Seq<char> {
    spec_replace(spec_replace(s, "/mnt/c/"@, "C:\\"@), "/"@, "\\"@)
}

/// A Windows path rendered in the Linux subsystem's convention.
pub fn wslify_windows_path(windows_path: &String) -> (out: String)
    ensures
        out@ == spec_wslify(windows_path@),
{
    proof {
        reveal_strlit("C:\\");
        reveal_strlit("\\");
    }
    let step = replace_all(windows_path, "C:\\", "/mnt/c/");
    replace_all(&step, "\\", "/")
}

/// A Linux-subsystem path rendered in the host's convention.
pub fn unwslify_wsl_linux_path(wsl_linux_path: &String) -> (out: String)
    ensures
        out@ == spec_unwslify(wsl_linux_path@),
{
    proof {
        reveal_strlit("/mnt/c/");
        reveal_strlit("/");
    }
    let step = replace_all(wsl_linux_path, "/mnt/c/", "C:\\");
    replace_all(&step, "/", "\\")
}

/// A path rendered with forward slashes, as the subsystem displays it.
pub fn linux_path_display(path: &String) -> (out: String)
    ensures
        out@ == spec_replace(path@, "\\"@, "/"@),
{
    proof {
        reveal_strlit("\\");
    }
    replace_all(path, "\\", "/")
}

} // verus!
