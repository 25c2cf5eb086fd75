//! The rules of exporting an analysis: which configuration fields name
//! file references, how each reference is rewritten for the exported
//! copy, and which references are sound.
//!
//! The exported configuration document is traversed outside this
//! crate; these functions decide, per field and per reference, what is
//! rewritten, what is copied, and what makes the export fail.

use vstd::prelude::*;
use vstd::string::StrSliceExecFns;

use crate::paths::{spec_unwslify, unwslify_wsl_linux_path};
use crate::textutil::char_at;

verus! {

/// The last path segment: everything after the final slash, or the
/// whole path when it has none.
pub open spec fn spec_basename(p: Seq<char>) -> Seq<char>
    decreases p.len(),
{
    if p.len() == 0 {
        p
    } else if p.last() == '/' {
        Seq::empty()
    } else if exists|i: int| 0 <= i < p.len() && p[i] == '/' {
        spec_basename_from(p, p.len() - 1)
    } else {
        p
    }
}

/// The suffix after the last slash at or before position `j`.
pub open spec fn spec_basename_from(p: Seq<char>, j: int) -> Seq<char>
    decreases j + 1,
{
    if j < 0 || j >= p.len() {
        p
    } else if p[j] == '/' {
        p.subrange(j + 1, p.len() as int)
    } else {
        spec_basename_from(p, j - 1)
    }
}

/// The last path segment of a subsystem-style path.
pub fn path_basename(p: &String) -> (out: String)
    ensures
        out@ == spec_basename_from(p@, p@.len() - 1),
{
    let n = p.as_str().unicode_len();
    let mut j: usize = n;
    while j > 0
        invariant
            j <= n,
            n == p@.len(),
            spec_basename_from(p@, n as int - 1) == spec_basename_from(p@, j as int - 1),
        decreases j,
    {
        let c = char_at(p, j - 1);
        if c == '/' {
            let tail = p.as_str().substring_char(j, n);
            proof {
                assert(spec_basename_from(p@, j as int - 1) == p@.subrange(j as int, n as int));
            }
            return tail.to_owned();
        }
        j -= 1;
    }
    let whole = p.as_str().substring_char(0, n);
    proof {
        assert(p@.subrange(0, n as int) =~= p@);
    }
    whole.to_owned()
}

/// Whether a field key names a file reference: it ends in `_path`.
pub fn key_is_path_reference(key: &String) -> (r: bool)
    ensures
        r == (key@.len() >= 5 && key@.subrange(key@.len() - 5, key@.len() as int) == "_path"@),
{
    proof {
        reveal_strlit("_path");
    }
    let n = key.as_str().unicode_len();
    if n < 5 {
        return false;
    }
    let tail = key.as_str().substring_char(n - 5, n);
    let suffix = String::from_str("_path");
    let r = tail.to_owned().eq(&suffix);
    r
}

/// How one file-reference field is rewritten for the export: the
/// referenced file is recorded under its host-side name, and the
/// field's value becomes the file's place in the export's input
/// directory.
pub fn rewrite_path_reference(value: &String) -> (out: (String, String))
    ensures
        out.0@ == spec_unwslify(value@),
        out.1@ == "./input/"@.add(spec_basename_from(value@, value@.len() - 1)),
{
    let native = unwslify_wsl_linux_path(value);
    let base = path_basename(value);
    let mut target = String::from_str("./input/");
    vstd::string::StringExecFns::append(&mut target, base.as_str());
    proof {
        assert(target@ =~= "./input/"@.add(spec_basename_from(value@, value@.len() - 1)));
    }
    (native, target)
}

/// Why an export cannot proceed.
#[derive(Clone, Copy, Debug, PartialEq, Eq)]
pub enum ReferenceFault {
    /// An absolute reference with no final segment — nothing sensible
    /// can be copied.
    MalformedPath,
    /// A relative reference that is not already present in the
    /// export's input directory.
    MissingRelativeTarget,
}

/// Whether one collected reference is sound, and whether it must be
/// copied: an absolute path with a final segment is copied; a
/// relative path already at its destination needs no copy; everything
/// else fails the export.
pub fn reference_check(is_absolute: bool, has_final_segment: bool, exists_in_target: bool) -> (r:
    Result<bool, ReferenceFault>)
    ensures
        is_absolute && has_final_segment ==> r == Ok::<bool, ReferenceFault>(true),
        is_absolute && !has_final_segment ==> r == Err::<bool, ReferenceFault>(
            ReferenceFault::MalformedPath,
        ),
        !is_absolute && exists_in_target ==> r == Ok::<bool, ReferenceFault>(false),
        !is_absolute && !exists_in_target ==> r == Err::<bool, ReferenceFault>(
            ReferenceFault::MissingRelativeTarget,
        ),
{
    if is_absolute {
        if has_final_segment {
            Ok(true)
        } else {
            Err(ReferenceFault::MalformedPath)
        }
    } else {
        if exists_in_target {
            Ok(false)
        } else {
            Err(ReferenceFault::MissingRelativeTarget)
        }
    }
}

} // verus!
