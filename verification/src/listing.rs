//! Reading directory listings: the native listing assembled from
//! classified entries, and the subsystem listing parsed from the
//! long-form output of the listing commands.
//!
//! The subsystem listing rests on two commands: one prints each name
//! quoted on its own line, the other prints one long-form line per
//! entry after a summary heading, each name quoted and followed by a
//! classifier mark (`/` for directories), with symbolic links shown as
//! `"name" -> "target"`. The grammar here distinguishes regular
//! entries from links and classifies each by its trailing mark.

use vstd::prelude::*;
use vstd::string::StrSliceExecFns;

use crate::textutil::{
    char_at, chars_to_string, clone_string, count_pattern, count_substr, is_substr_at,
    spec_lines, split_lines,
};

verus! {

/// One directory's listed contents.
#[derive(Clone, Debug, PartialEq, Eq)]
pub struct DirectoryContents {
    pub root: String,
    pub files: Vec<String>,
    pub directories: Vec<String>,
}

/// What kind of node a native directory entry is, as the host
/// filesystem reports it.
#[derive(Clone, Copy, Debug, PartialEq, Eq)]
pub enum EntryKind {
    Directory,
    File,
    SymlinkToDirectory,
    SymlinkToFile,
    Unknown,
}

impl View for EntryKind {
    type V = EntryKind;

    open spec fn view(&self) -> EntryKind {
        *self
    }
}

impl DeepView for EntryKind {
    type V = EntryKind;

    open spec fn deep_view(&self) -> EntryKind {
        *self
    }
}

/// A directory entry counts as a directory when it is one or links to
/// one.
pub open spec fn entry_is_directory(k: EntryKind) -> bool {
    k == EntryKind::Directory || k == EntryKind::SymlinkToDirectory
}

/// The names classified as directories, in listing order.
pub open spec fn spec_dir_names(entries: Seq<(Seq<char>, EntryKind)>) -> Seq<Seq<char>>
    decreases entries.len(),
{
    if entries.len() == 0 {
        seq![]
    } else if entry_is_directory(entries[0].1) {
        seq![entries[0].0].add(spec_dir_names(entries.drop_first()))
    } else {
        spec_dir_names(entries.drop_first())
    }
}

/// The names classified as files, in listing order.
pub open spec fn spec_file_names(entries: Seq<(Seq<char>, EntryKind)>) -> Seq<Seq<char>>
    decreases entries.len(),
{
    if entries.len() == 0 {
        seq![]
    } else if entry_is_directory(entries[0].1) {
        spec_file_names(entries.drop_first())
    } else {
        seq![entries[0].0].add(spec_file_names(entries.drop_first()))
    }
}

/// The native listing: every entry that is a directory, or a link to
/// one, under directories; everything else — files, links to files,
/// entries of unknown kind — under files; each side in listing order.
pub fn list_dir_local_fs(root: String, entries: Vec<(String, EntryKind)>) -> (out:
    DirectoryContents)
    ensures
        out.root == root,
        out.files.deep_view() == spec_file_names(entries.deep_view()),
        out.directories.deep_view() == spec_dir_names(entries.deep_view()),
{
    let ghost ev = entries.deep_view();
    let n = entries.len();
    let mut files: Vec<String> = Vec::new();
    let mut directories: Vec<String> = Vec::new();
    let mut i: usize = 0;
    proof {
        assert(ev.skip(0) =~= ev);
        assert(files.deep_view().add(spec_file_names(ev)) =~= spec_file_names(ev));
        assert(directories.deep_view().add(spec_dir_names(ev)) =~= spec_dir_names(ev));
    }
    while i < n
        invariant
            i <= n,
            n == ev.len(),
            entries.deep_view() == ev,
            spec_file_names(ev) =~= files.deep_view().add(spec_file_names(ev.skip(i as int))),
            spec_dir_names(ev) =~= directories.deep_view().add(
                spec_dir_names(ev.skip(i as int)),
            ),
        decreases n - i,
    {
        proof {
            let rem = ev.skip(i as int);
            assert(rem[0] == ev[i as int]);
            assert(rem.drop_first() =~= ev.skip(i as int + 1));
        }
        let is_dir = match entries[i].1 {
            EntryKind::Directory => true,
            EntryKind::SymlinkToDirectory => true,
            _ => false,
        };
        let name = clone_string(&entries[i].0);
        if is_dir {
            let ghost dv0 = directories.deep_view();
            directories.push(name);
            proof {
                assert(directories.deep_view() =~= dv0.push(ev[i as int].0));
                assert(dv0.push(ev[i as int].0).add(spec_dir_names(ev.skip(i as int + 1)))
                    =~= dv0.add(seq![ev[i as int].0].add(spec_dir_names(ev.skip(i as int + 1)))));
            }
        } else {
            let ghost dv0 = files.deep_view();
            files.push(name);
            proof {
                assert(files.deep_view() =~= dv0.push(ev[i as int].0));
                assert(dv0.push(ev[i as int].0).add(spec_file_names(ev.skip(i as int + 1)))
                    =~= dv0.add(seq![ev[i as int].0].add(spec_file_names(ev.skip(i as int + 1)))));
            }
        }
        i += 1;
    }
    proof {
        assert(ev.skip(n as int).len() == 0);
        assert(files.deep_view().add(spec_file_names(ev.skip(n as int))) =~= files.deep_view());
        assert(directories.deep_view().add(spec_dir_names(ev.skip(n as int)))
            =~= directories.deep_view());
    }
    DirectoryContents { root, files, directories }
}

// ---------------------------------------------------------------------
// Searching within one long-form line
// ---------------------------------------------------------------------

/// The first position at or after `i` where the pattern occurs, or -1.
pub open spec fn find_sub(s: Seq<char>, pat: Seq<char>, i: int) -> int
    decreases s.len() - i,
{
    if i < 0 || i >= s.len() || i + pat.len() > s.len() {
        -1
    } else if is_substr_at(s, pat, i) {
        i
    } else {
        find_sub(s, pat, i + 1)
    }
}

proof fn lemma_find_sub_found(s: Seq<char>, pat: Seq<char>, a: int, b: int)
    requires
        0 <= a <= b < s.len(),
        is_substr_at(s, pat, b),
        forall|j: int| a <= j < b ==> !is_substr_at(s, pat, j),
    ensures
        find_sub(s, pat, a) == b,
    decreases b - a,
{
    if a < b {
        lemma_find_sub_found(s, pat, a + 1, b);
    }
}

proof fn lemma_find_sub_absent(s: Seq<char>, pat: Seq<char>, a: int)
    requires
        forall|j: int| a <= j ==> !is_substr_at(s, pat, j),
        a >= 0,
    ensures
        find_sub(s, pat, a) == -1,
    decreases s.len() - a,
{
    if !(a >= s.len() || a + pat.len() > s.len()) {
        lemma_find_sub_absent(s, pat, a + 1);
    }
}

/// The first position where the pattern occurs in the string, if any.
fn find_first(s: &String, pat: &String) -> (r: Option<usize>)
    requires
        pat@.len() > 0,
    ensures
        match r {
            Some(i) => find_sub(s@, pat@, 0) == i && is_substr_at(s@, pat@, i as int) && i
                + pat@.len() <= s@.len(),
            None => find_sub(s@, pat@, 0) == -1,
        },
{
    let n = s.as_str().unicode_len();
    let mut i: usize = 0;
    while i < n
        invariant
            i <= n,
            n == s@.len(),
            pat@.len() > 0,
            forall|k: int| 0 <= k < i ==> !is_substr_at(s@, pat@, k),
        decreases n - i,
    {
        if pattern_at(s, pat, i) {
            proof {
                lemma_find_sub_found(s@, pat@, 0, i as int);
            }
            return Some(i);
        }
        i += 1;
    }
    proof {
        assert forall|j: int| 0 <= j implies !is_substr_at(s@, pat@, j) by {
            if is_substr_at(s@, pat@, j) {
                assert(j + pat@.len() <= n);
                assert(j < n);
            }
        }
        lemma_find_sub_absent(s@, pat@, 0);
    }
    None
}

/// Whether the pattern stands at position `i` of `s`.
fn pattern_at(s: &String, pat: &String, i: usize) -> (r: bool)
    requires
        i <= s@.len(),
    ensures
        r == is_substr_at(s@, pat@, i as int),
{
    let m = pat.as_str().unicode_len();
    let n = s.as_str().unicode_len();
    if m > n - i {
        proof {
            assert(!is_substr_at(s@, pat@, i as int));
        }
        return false;
    }
    let mut j: usize = 0;
    while j < m
        invariant
            j <= m,
            m == pat@.len(),
            n == s@.len(),
            i + m <= n,
            forall|k: int| 0 <= k < j ==> s@[i + k] == pat@[k],
        decreases m - j,
    {
        let cs = char_at(s, i + j);
        let cp = char_at(pat, j);
        if cs != cp {
            proof {
                assert(s@.subrange(i as int, i + m as int)[j as int] == s@[i + j]);
                assert(!is_substr_at(s@, pat@, i as int));
            }
            return false;
        }
        j += 1;
    }
    proof {
        assert(s@.subrange(i as int, i + m as int) =~= pat@);
    }
    true
}

/// The last position at or below `j` holding a double quote, or -1.
pub open spec fn last_quote_at(s: Seq<char>, j: int) -> int
    decreases j + 1,
{
    if j < 0 || j >= s.len() {
        -1
    } else if s[j] == '"' {
        j
    } else {
        last_quote_at(s, j - 1)
    }
}

/// The last double quote in the string, if any.
fn find_last_quote(s: &String) -> (r: Option<usize>)
    ensures
        match r {
            Some(j) => last_quote_at(s@, s@.len() - 1) == j && j < s@.len(),
            None => last_quote_at(s@, s@.len() - 1) == -1,
        },
{
    let n = s.as_str().unicode_len();
    let mut j: usize = n;
    while j > 0
        invariant
            j <= n,
            n == s@.len(),
            last_quote_at(s@, n as int - 1) == last_quote_at(s@, j as int - 1),
        decreases j,
    {
        let c = char_at(s, j - 1);
        if c == '"' {
            return Some(j - 1);
        }
        j -= 1;
    }
    None
}

// ---------------------------------------------------------------------
// Classifying one entry
// ---------------------------------------------------------------------

/// The name in its quoted form, as the long-form line shows it.
pub open spec fn quoted_name(nm: Seq<char>) -> Seq<char> {
    seq!['"'].add(nm).push('"')
}

/// The quoted name followed by the link arrow and the opening quote of
/// the target.
pub open spec fn arrow_pattern(nm: Seq<char>) -> Seq<char> {
    quoted_name(nm).push(' ').push('-').push('>').push(' ').push('"')
}

/// An entry line shows a link when it holds more arrows than the name
/// itself.
pub open spec fn is_link_line(nm: Seq<char>, mta: Seq<char>) -> bool {
    count_substr(mta, "->"@) > count_substr(nm, "->"@)
}

/// How one entry is classified against its long-form line: on a link
/// line, the quoted name with the arrow must occur and a closing quote
/// must follow the resolved target, and the mark after that closing
/// quote decides; on a plain line, the quoted name must occur, and the
/// mark right after its first occurrence decides. `/` marks a
/// directory; a line that does not fit the grammar fails.
pub open spec fn classify_entry_spec(nm: Seq<char>, mta: Seq<char>) -> Result<bool, ()> {
    if is_link_line(nm, mta) {
        let a = find_sub(mta, arrow_pattern(nm), 0);
        if a < 0 {
            Err(())
        } else {
            let j = last_quote_at(mta, mta.len() - 1);
            if j >= a + arrow_pattern(nm).len() {
                Ok(j + 1 < mta.len() && mta[j + 1] == '/')
            } else {
                Err(())
            }
        }
    } else {
        let a = find_sub(mta, quoted_name(nm), 0);
        if a < 0 {
            Err(())
        } else {
            Ok(a + quoted_name(nm).len() < mta.len() && mta[a + quoted_name(nm).len()] == '/')
        }
    }
}

/// The name in its quoted form.
fn build_quoted_name(nm: &String) -> (out: String)
    ensures
        out@ == quoted_name(nm@),
{
    let mut v: Vec<char> = Vec::new();
    v.push('"');
    let n = nm.as_str().unicode_len();
    let mut i: usize = 0;
    while i < n
        invariant
            i <= n,
            n == nm@.len(),
            v@ =~= seq!['"'].add(nm@.subrange(0, i as int)),
        decreases n - i,
    {
        let c = char_at(nm, i);
        v.push(c);
        proof {
            assert(v@ =~= seq!['"'].add(nm@.subrange(0, i as int + 1)));
        }
        i += 1;
    }
    v.push('"');
    proof {
        assert(nm@.subrange(0, n as int) =~= nm@);
        assert(v@ =~= quoted_name(nm@));
    }
    chars_to_string(&v)
}

/// The quoted name followed by the link arrow.
fn build_arrow_pattern(nm: &String) -> (out: String)
    ensures
        out@ == arrow_pattern(nm@),
{
    let q = build_quoted_name(nm);
    let mut v: Vec<char> = Vec::new();
    let n = q.as_str().unicode_len();
    let mut i: usize = 0;
    while i < n
        invariant
            i <= n,
            n == q@.len(),
            v@ =~= q@.subrange(0, i as int),
        decreases n - i,
    {
        let c = char_at(&q, i);
        v.push(c);
        proof {
            assert(v@ =~= q@.subrange(0, i as int + 1));
        }
        i += 1;
    }
    proof {
        assert(q@.subrange(0, n as int) =~= q@);
    }
    v.push(' ');
    v.push('-');
    v.push('>');
    v.push(' ');
    v.push('"');
    proof {
        assert(v@ =~= arrow_pattern(nm@));
    }
    chars_to_string(&v)
}

/// One entry classified against its long-form line, as
/// `classify_entry_spec` says: `Ok(true)` for a directory, `Ok(false)`
/// for a file, `Err` for a line that does not fit the grammar.
pub fn classify_entry(nm: &String, mta: &String) -> (r: Result<bool, ()>)
    ensures
        r == classify_entry_spec(nm@, mta@),
{
    proof {
        reveal_strlit("->");
    }
    let arrows_meta = count_pattern(mta, "->");
    let arrows_name = count_pattern(nm, "->");
    if arrows_meta > arrows_name {
        let pat = build_arrow_pattern(nm);
        proof {
            assert(pat@.len() > 0);
        }
        match find_first(mta, &pat) {
            None => Err(()),
            Some(a) => {
                match find_last_quote(mta) {
                    None => {
                        proof {
                            assert(last_quote_at(mta@, mta@.len() - 1) == -1);
                        }
                        Err(())
                    },
                    Some(j) => {
                        let plen = pat.as_str().unicode_len();
                        let n = mta.as_str().unicode_len();
                        if j >= a + plen {
                            if j + 1 < n {
                                let c = char_at(mta, j + 1);
                                Ok(c == '/')
                            } else {
                                Ok(false)
                            }
                        } else {
                            Err(())
                        }
                    },
                }
            },
        }
    } else {
        let pat = build_quoted_name(nm);
        proof {
            assert(pat@.len() > 0);
        }
        match find_first(mta, &pat) {
            None => Err(()),
            Some(a) => {
                let plen = pat.as_str().unicode_len();
                let n = mta.as_str().unicode_len();
                if a + plen < n {
                    let c = char_at(mta, a + plen);
                    Ok(c == '/')
                } else {
                    Ok(false)
                }
            },
        }
    }
}

// ---------------------------------------------------------------------
// The whole subsystem listing
// ---------------------------------------------------------------------

/// A quoted listing line with its surrounding quotes stripped; a line
/// not of that shape yields the empty name.
pub open spec fn strip_quotes_spec(l: Seq<char>) -> Seq<char> {
    if l.len() >= 2 && l[0] == '"' && l[l.len() - 1] == '"' {
        l.subrange(1, l.len() - 1)
    } else {
        seq![]
    }
}

fn strip_quotes(l: &String) -> (out: String)
    ensures
        out@ == strip_quotes_spec(l@),
{
    let n = l.as_str().unicode_len();
    if n >= 2 {
        let c0 = char_at(l, 0);
        let c1 = char_at(l, n - 1);
        if c0 == '"' && c1 == '"' {
            let mid = l.as_str().substring_char(1, n - 1);
            return mid.to_owned();
        }
    }
    String::new()
}

/// The names parsed from the name-listing output: each line unquoted.
pub open spec fn spec_listing_names(names_output: Seq<char>) -> Seq<Seq<char>> {
    spec_lines(names_output).map_values(|l: Seq<char>| strip_quotes_spec(l))
}

/// Every entry fits the grammar of its long-form line.
pub open spec fn all_entries_classified(
    names: Seq<Seq<char>>,
    metas: Seq<Seq<char>>,
) -> bool {
    forall|k: int| 0 <= k < names.len() ==> classify_entry_spec(names[k], #[trigger] metas[k]) is Ok
}

/// The names classified as directories, in order.
pub open spec fn spec_listed_dirs(names: Seq<Seq<char>>, metas: Seq<Seq<char>>) -> Seq<Seq<char>>
    decreases names.len(),
{
    if names.len() == 0 {
        seq![]
    } else if classify_entry_spec(names[0], metas[0]) == Ok::<bool, ()>(true) {
        seq![names[0]].add(spec_listed_dirs(names.drop_first(), metas.drop_first()))
    } else {
        spec_listed_dirs(names.drop_first(), metas.drop_first())
    }
}

/// The names classified as files, in order.
pub open spec fn spec_listed_files(names: Seq<Seq<char>>, metas: Seq<Seq<char>>) -> Seq<Seq<char>>
    decreases names.len(),
{
    if names.len() == 0 {
        seq![]
    } else if classify_entry_spec(names[0], metas[0]) == Ok::<bool, ()>(true) {
        spec_listed_files(names.drop_first(), metas.drop_first())
    } else {
        seq![names[0]].add(spec_listed_files(names.drop_first(), metas.drop_first()))
    }
}

/// The subsystem listing parsed from the two listing commands'
/// outputs. The long-form output must hold one heading line plus one
/// line per name; each name is classified against its line. A missing
/// output, a line count that does not fit, or a line that does not fit
/// the grammar yields an error.
#[verifier::loop_isolation(false)]
pub fn list_dir_local_wsl_fs(
    root: String,
    names_output: Option<String>,
    meta_output: Option<String>,
) -> (out: Result<DirectoryContents, ()>)
    ensures
        names_output is None || meta_output is None ==> out is Err,
        names_output matches Some(ns) ==> meta_output matches Some(ms) ==> {
            let names = spec_listing_names(ns@);
            let metas = spec_lines(ms@);
            if names.len() + 1 == metas.len() {
                if all_entries_classified(names, metas.drop_first()) {
                    out matches Ok(dc) && dc.root == root && dc.files.deep_view()
                        == spec_listed_files(names, metas.drop_first())
                        && dc.directories.deep_view() == spec_listed_dirs(
                        names,
                        metas.drop_first(),
                    )
                } else {
                    out is Err
                }
            } else {
                out is Err
            }
        },
{
    let ns = match names_output {
        Some(v) => v,
        None => {
            return Err(());
        },
    };
    let ms = match meta_output {
        Some(v) => v,
        None => {
            return Err(());
        },
    };
    let raw_names = split_lines(&ns);
    let mut metas = split_lines(&ms);
    if metas.len() == 0 || raw_names.len() != metas.len() - 1 {
        return Err(());
    }
    let ghost metas0 = metas.deep_view();
    metas.remove(0);
    proof {
        assert(metas.deep_view() =~= metas0.drop_first());
    }
    let n = raw_names.len();
    let mut names: Vec<String> = Vec::new();
    let mut i: usize = 0;
    proof {
        assert(names.deep_view() =~= spec_listing_names(ns@).subrange(0, 0));
    }
    while i < n
        invariant
            i <= n,
            n == raw_names.deep_view().len(),
            raw_names.deep_view() == spec_lines(ns@),
            names.deep_view() =~= spec_listing_names(ns@).subrange(0, i as int),
        decreases n - i,
    {
        let ghost dv0 = names.deep_view();
        let nm = strip_quotes(&raw_names[i]);
        names.push(nm);
        proof {
            let mapped = spec_listing_names(ns@);
            assert(mapped[i as int] == strip_quotes_spec(raw_names.deep_view()[i as int]));
            assert(names.deep_view() =~= dv0.push(mapped[i as int]));
            assert(dv0.push(mapped[i as int]) =~= mapped.subrange(0, i as int + 1));
        }
        i += 1;
    }
    proof {
        assert(spec_listing_names(ns@).subrange(0, n as int) =~= spec_listing_names(ns@));
    }
    let ghost names_v = names.deep_view();
    let ghost metas_v = metas.deep_view();
    proof {
        assert(names_v == spec_listing_names(ns@));
        assert(metas_v == spec_lines(ms@).drop_first());
        assert(names_v.len() + 1 == spec_lines(ms@).len());
    }
    let mut files: Vec<String> = Vec::new();
    let mut directories: Vec<String> = Vec::new();
    let mut k: usize = 0;
    proof {
        assert(names_v.skip(0) =~= names_v);
        assert(metas_v.skip(0) =~= metas_v);
    }
    while k < n
        invariant
            k <= n,
            n == names_v.len(),
            n == metas_v.len(),
            names.deep_view() == names_v,
            metas.deep_view() == metas_v,
            names_v == spec_listing_names(ns@),
            metas_v == spec_lines(ms@).drop_first(),
            names_v.len() + 1 == spec_lines(ms@).len(),
            forall|j: int|
                0 <= j < k ==> classify_entry_spec(names_v[j], #[trigger] metas_v[j]) is Ok,
            spec_listed_files(names_v, metas_v) =~= files.deep_view().add(
                spec_listed_files(names_v.skip(k as int), metas_v.skip(k as int)),
            ),
            spec_listed_dirs(names_v, metas_v) =~= directories.deep_view().add(
                spec_listed_dirs(names_v.skip(k as int), metas_v.skip(k as int)),
            ),
        decreases n - k,
    {
        proof {
            assert(names_v.skip(k as int)[0] == names_v[k as int]);
            assert(metas_v.skip(k as int)[0] == metas_v[k as int]);
            assert(names_v.skip(k as int).drop_first() =~= names_v.skip(k as int + 1));
            assert(metas_v.skip(k as int).drop_first() =~= metas_v.skip(k as int + 1));
        }
        match classify_entry(&names[k], &metas[k]) {
            Err(()) => {
                proof {
                    assert(classify_entry_spec(names_v[k as int], metas_v[k as int]) is Err);
                    assert(spec_listing_names(ns@)[k as int] == names_v[k as int]);
                    assert(spec_lines(ms@).drop_first()[k as int] == metas_v[k as int]);
                    assert(!all_entries_classified(
                        spec_listing_names(ns@),
                        spec_lines(ms@).drop_first(),
                    )) by {
                        assert(classify_entry_spec(
                            spec_listing_names(ns@)[k as int],
                            spec_lines(ms@).drop_first()[k as int],
                        ) is Err);
                    }
                }
                return Err(());
            },
            Ok(true) => {
                let ghost dv0 = directories.deep_view();
                let nm = clone_string(&names[k]);
                directories.push(nm);
                proof {
                    assert(directories.deep_view() =~= dv0.push(names_v[k as int]));
                    assert(dv0.push(names_v[k as int]).add(
                        spec_listed_dirs(
                            names_v.skip(k as int + 1),
                            metas_v.skip(k as int + 1),
                        ),
                    ) =~= dv0.add(seq![names_v[k as int]].add(
                        spec_listed_dirs(
                            names_v.skip(k as int + 1),
                            metas_v.skip(k as int + 1),
                        ),
                    )));
                }
            },
            Ok(false) => {
                let ghost dv0 = files.deep_view();
                let nm = clone_string(&names[k]);
                files.push(nm);
                proof {
                    assert(files.deep_view() =~= dv0.push(names_v[k as int]));
                    assert(dv0.push(names_v[k as int]).add(
                        spec_listed_files(
                            names_v.skip(k as int + 1),
                            metas_v.skip(k as int + 1),
                        ),
                    ) =~= dv0.add(seq![names_v[k as int]].add(
                        spec_listed_files(
                            names_v.skip(k as int + 1),
                            metas_v.skip(k as int + 1),
                        ),
                    )));
                }
            },
        }
        k += 1;
    }
    proof {
        assert(names_v.skip(n as int).len() == 0);
        assert(files.deep_view().add(
            spec_listed_files(names_v.skip(n as int), metas_v.skip(n as int)),
        ) =~= files.deep_view());
        assert(directories.deep_view().add(
            spec_listed_dirs(names_v.skip(n as int), metas_v.skip(n as int)),
        ) =~= directories.deep_view());
    }
    Ok(DirectoryContents { root, files, directories })
}

} // verus!
