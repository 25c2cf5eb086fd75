//! Verified text helpers: lexicographic order, line splitting as a
//! child's output is split, substring search, and substring
//! replacement.

use vstd::prelude::*;
use vstd::string::StrSliceExecFns;
use vstd::string::StringExecFns;

verus! {

/// The character at one position of a string.
pub fn char_at(s: &String, i: usize) -> (c: char)
    requires
        i < s@.len(),
    ensures
        c == s@[i as int],
{
    s.as_str().get_char(i)
}

/// A character sequence gathered into a `String`.
pub fn chars_to_string(v: &Vec<char>) -> (s: String)
    ensures
        s@ == v@,
{
    let mut s = String::new();
    let mut i: usize = 0;
    while i < v.len()
        invariant
            i <= v@.len(),
            s@ =~= v@.subrange(0, i as int),
        decreases v@.len() - i,
    {
        string_push_char(&mut s, v[i]);
        proof {
            assert(v@.subrange(0, i as int).push(v@[i as int]) =~= v@.subrange(0, i as int + 1));
        }
        i += 1;
    }
    proof {
        assert(v@.subrange(0, v@.len() as int) =~= v@);
    }
    s
}

/// Relies on String::push: appends the given character to the end of
/// the string.
#[verifier::external_body]
pub(crate) fn string_push_char(s: &mut String, c: char)
    ensures
        final(s)@ == old(s)@.push(c),
{
    s.push(c);
}

// ---------------------------------------------------------------------
// Lexicographic order
// ---------------------------------------------------------------------

/// Strict lexicographic order on character sequences, by scalar value.
pub open spec fn str_lt(a: Seq<char>, b: Seq<char>) -> bool
    decreases a.len(),
{
    if b.len() == 0 {
        false
    } else if a.len() == 0 {
        true
    } else if a[0] != b[0] {
        (a[0] as u32) < (b[0] as u32)
    } else {
        str_lt(a.drop_first(), b.drop_first())
    }
}

/// Strict lexicographic comparison of two strings.
pub fn str_less(a: &String, b: &String) -> (r: bool)
    ensures
        r == str_lt(a@, b@),
{
    let na = a.as_str().unicode_len();
    let nb = b.as_str().unicode_len();
    let mut i: usize = 0;
    proof {
        assert(a@.skip(0) =~= a@);
        assert(b@.skip(0) =~= b@);
    }
    loop
        invariant
            i <= na,
            i <= nb,
            na == a@.len(),
            nb == b@.len(),
            forall|j: int| 0 <= j < i ==> a@[j] == b@[j],
            str_lt(a@, b@) == str_lt(a@.skip(i as int), b@.skip(i as int)),
        decreases na - i,
    {
        if i >= nb {
            proof {
                assert(b@.skip(i as int).len() == 0);
            }
            return false;
        }
        if i >= na {
            proof {
                assert(a@.skip(i as int).len() == 0);
                assert(b@.skip(i as int).len() > 0);
            }
            return true;
        }
        let ca = char_at(a, i);
        let cb = char_at(b, i);
        proof {
            assert(a@.skip(i as int)[0] == a@[i as int]);
            assert(b@.skip(i as int)[0] == b@[i as int]);
            assert(a@.skip(i as int).drop_first() =~= a@.skip(i as int + 1));
            assert(b@.skip(i as int).drop_first() =~= b@.skip(i as int + 1));
        }
        if ca != cb {
            return (ca as u32) < (cb as u32);
        }
        i += 1;
    }
}

/// No sequence is below itself.
pub proof fn lemma_str_lt_irrefl(a: Seq<char>)
    ensures
        !str_lt(a, a),
    decreases a.len(),
{
    if a.len() > 0 {
        lemma_str_lt_irrefl(a.drop_first());
    }
}

/// Two distinct sequences are ordered one way or the other.
pub proof fn lemma_str_lt_connex(a: Seq<char>, b: Seq<char>)
    requires
        a != b,
    ensures
        str_lt(a, b) || str_lt(b, a),
    decreases a.len(),
{
    if a.len() == 0 || b.len() == 0 {
        assert(!(a.len() == 0 && b.len() == 0)) by {
            if a.len() == 0 && b.len() == 0 {
                assert(a =~= b);
            }
        }
    } else if a[0] != b[0] {
        vstd::utf8::char_u32_cast(a[0], a[0] as u32);
        vstd::utf8::char_u32_cast(b[0], b[0] as u32);
        assert((a[0] as u32) != (b[0] as u32));
    } else {
        assert(a.drop_first() != b.drop_first()) by {
            if a.drop_first() == b.drop_first() {
                assert(a.drop_first().len() == a.len() - 1);
                assert(b.drop_first().len() == b.len() - 1);
                assert(a.len() == b.len());
                assert forall|i: int| 0 <= i < a.len() implies a[i] == b[i] by {
                    if i > 0 {
                        assert(a[i] == a.drop_first()[i - 1]);
                        assert(b[i] == b.drop_first()[i - 1]);
                    }
                }
                assert(a =~= b);
            }
        }
        lemma_str_lt_connex(a.drop_first(), b.drop_first());
    }
}

/// Lexicographic order is transitive.
pub proof fn lemma_str_lt_trans(a: Seq<char>, b: Seq<char>, c: Seq<char>)
    requires
        str_lt(a, b),
        str_lt(b, c),
    ensures
        str_lt(a, c),
    decreases a.len(),
{
    if a.len() == 0 {
    } else {
        assert(b.len() > 0 && c.len() > 0);
        if a[0] == b[0] {
            if b[0] == c[0] {
                lemma_str_lt_trans(a.drop_first(), b.drop_first(), c.drop_first());
            }
        } else {
            if b[0] != c[0] {
            } else {
            }
        }
    }
}

/// Whether two strings hold the same characters.
pub fn str_eq(a: &String, b: &String) -> (r: bool)
    ensures
        r == (a@ == b@),
{
    a.eq(b)
}

/// Whether a string and a literal hold the same characters.
pub fn str_eq_lit(a: &String, b: &str) -> (r: bool)
    ensures
        r == (a@ == b@),
{
    let bs = String::from_str(b);
    a.eq(&bs)
}

// ---------------------------------------------------------------------
// Substring search
// ---------------------------------------------------------------------

/// The pattern occurs in `s` at position `i`.
pub open spec fn is_substr_at(s: Seq<char>, pat: Seq<char>, i: int) -> bool {
    0 <= i && i + pat.len() <= s.len() && s.subrange(i, i + pat.len() as int) == pat
}

/// The pattern occurs somewhere in `s`.
pub open spec fn contains_substr(s: Seq<char>, pat: Seq<char>) -> bool {
    exists|i: int| is_substr_at(s, pat, i)
}

/// How often the pattern occurs, counted at each start position.
pub open spec fn count_substr_from(s: Seq<char>, pat: Seq<char>, i: int) -> int
    decreases s.len() - i,
{
    if i < 0 || i >= s.len() {
        0
    } else {
        (if is_substr_at(s, pat, i) {
            1int
        } else {
            0int
        }) + count_substr_from(s, pat, i + 1)
    }
}

pub open spec fn count_substr(s: Seq<char>, pat: Seq<char>) -> int {
    count_substr_from(s, pat, 0)
}

/// Whether the pattern stands at position `i` of `s`.
fn matches_at(s: &String, pat: &str, i: usize) -> (r: bool)
    requires
        i <= s@.len(),
    ensures
        r == is_substr_at(s@, pat@, i as int),
{
    let m = pat.unicode_len();
    let n = s.as_str().unicode_len();
    if m > n - i {
        proof {
            assert(!is_substr_at(s@, pat@, i as int));
        }
        return false;
    }
    let mut j: usize = 0;
    while j < m
        invariant
            j <= m,
            m == pat@.len(),
            n == s@.len(),
            i + m <= n,
            forall|k: int| 0 <= k < j ==> s@[i + k] == pat@[k],
        decreases m - j,
    {
        let cs = char_at(s, i + j);
        let cp = pat.get_char(j);
        if cs != cp {
            proof {
                assert(s@.subrange(i as int, i + m as int)[j as int] == s@[i + j]);
                assert(!is_substr_at(s@, pat@, i as int));
            }
            return false;
        }
        j += 1;
    }
    proof {
        assert(s@.subrange(i as int, i + m as int) =~= pat@);
    }
    true
}

/// Whether the pattern occurs anywhere in the string.
pub fn contains_pattern(s: &String, pat: &str) -> (r: bool)
    requires
        pat@.len() > 0,
    ensures
        r == contains_substr(s@, pat@),
{
    let n = s.as_str().unicode_len();
    let mut i: usize = 0;
    while i < n
        invariant
            i <= n,
            n == s@.len(),
            pat@.len() > 0,
            forall|k: int| 0 <= k < i ==> !is_substr_at(s@, pat@, k),
        decreases n - i,
    {
        if matches_at(s, pat, i) {
            return true;
        }
        i += 1;
    }
    proof {
        assert forall|k: int| !is_substr_at(s@, pat@, k) by {
            if is_substr_at(s@, pat@, k) {
                assert(0 <= k && k + pat@.len() <= n);
                assert(k < n);
                assert(k < i);
            }
        }
    }
    false
}

/// Whether the string begins with the pattern.
pub fn starts_with_pattern(s: &String, pat: &str) -> (r: bool)
    ensures
        r == (pat@.len() <= s@.len() && s@.subrange(0, pat@.len() as int) == pat@),
{
    let n = s.as_str().unicode_len();
    let m = pat.unicode_len();
    if m > n {
        return false;
    }
    matches_at(s, pat, 0)
}

/// How often the pattern occurs in the string.
pub fn count_pattern(s: &String, pat: &str) -> (r: usize)
    ensures
        r == count_substr(s@, pat@),
{
    let n = s.as_str().unicode_len();
    let mut count: usize = 0;
    let mut i: usize = 0;
    while i < n
        invariant
            i <= n,
            n == s@.len(),
            count <= i,
            count + count_substr_from(s@, pat@, i as int) == count_substr(s@, pat@),
        decreases n - i,
    {
        proof {
            lemma_count_substr_nonneg(s@, pat@, i + 1);
        }
        if matches_at(s, pat, i) {
            count += 1;
        }
        i += 1;
    }
    proof {
        assert(count_substr_from(s@, pat@, i as int) == 0);
    }
    count
}

proof fn lemma_count_substr_nonneg(s: Seq<char>, pat: Seq<char>, i: int)
    ensures
        count_substr_from(s, pat, i) >= 0,
    decreases s.len() - i,
{
    if !(i < 0 || i >= s.len()) {
        lemma_count_substr_nonneg(s, pat, i + 1);
    }
}

// ---------------------------------------------------------------------
// Line splitting
// ---------------------------------------------------------------------

/// Index of the first line feed in `s`, clamped to the length.
pub open spec fn nl_cut(s: Seq<char>) -> int
    decreases s.len(),
{
    if s.len() == 0 {
        0
    } else if s[0] == '\n' {
        0
    } else {
        1 + nl_cut(s.drop_first())
    }
}

proof fn lemma_nl_cut_bounds(s: Seq<char>)
    ensures
        0 <= nl_cut(s) <= s.len(),
        nl_cut(s) < s.len() ==> s[nl_cut(s)] == '\n',
        forall|j: int| 0 <= j < nl_cut(s) ==> s[j] != '\n',
    decreases s.len(),
{
    if s.len() > 0 && s[0] != '\n' {
        lemma_nl_cut_bounds(s.drop_first());
        assert forall|j: int| 0 <= j < nl_cut(s) implies s[j] != '\n' by {
            if j > 0 {
                assert(s.drop_first()[j - 1] != '\n');
            }
        }
    }
}

/// One piece that ended at a line feed, with a single carriage return
/// before the break stripped.
pub open spec fn strip_tail_cr(line: Seq<char>) -> Seq<char> {
    if line.len() > 0 && line.last() == '\r' {
        line.drop_last()
    } else {
        line
    }
}

/// The lines of a string: split at line feeds, a carriage return
/// immediately before a break stripped, no empty piece after a final
/// line feed. The split used on a child's collected output.
pub open spec fn spec_lines(s: Seq<char>) -> Seq<Seq<char>>
    decreases s.len(),
{
    if s.len() == 0 {
        seq![]
    } else {
        let i = if 0 <= nl_cut(s) < s.len() {
            nl_cut(s)
        } else {
            s.len() as int
        };
        if i == s.len() {
            seq![s]
        } else {
            seq![strip_tail_cr(s.subrange(0, i))].add(
                spec_lines(s.subrange(i + 1, s.len() as int)),
            )
        }
    }
}

/// Splitting at a line feed: a feed-free piece, the break, then the
/// rest.
proof fn lemma_spec_lines_step(line: Seq<char>, rest: Seq<char>)
    requires
        forall|j: int| 0 <= j < line.len() ==> line[j] != '\n',
    ensures
        spec_lines(line.push('\n').add(rest)) == seq![strip_tail_cr(line)].add(spec_lines(rest)),
{
    let s = line.push('\n').add(rest);
    lemma_nl_cut_prefix(line, rest);
    lemma_nl_cut_bounds(s);
    assert(s.len() > 0);
    let i = nl_cut(s);
    assert(i == line.len());
    assert(i < s.len());
    assert(s.subrange(0, i) =~= line);
    assert(s.subrange(i + 1, s.len() as int) =~= rest);
}

proof fn lemma_nl_cut_prefix(line: Seq<char>, rest: Seq<char>)
    requires
        forall|j: int| 0 <= j < line.len() ==> line[j] != '\n',
    ensures
        nl_cut(line.push('\n').add(rest)) == line.len(),
    decreases line.len(),
{
    let s = line.push('\n').add(rest);
    if line.len() == 0 {
        assert(s[0] == '\n');
    } else {
        assert(s[0] == line[0]);
        assert(s[0] != '\n');
        lemma_nl_cut_prefix(line.drop_first(), rest);
        assert(s.drop_first() =~= line.drop_first().push('\n').add(rest));
    }
}

/// A string without line feeds is one line, itself.
proof fn lemma_spec_lines_flat(line: Seq<char>)
    requires
        forall|j: int| 0 <= j < line.len() ==> line[j] != '\n',
    ensures
        line.len() == 0 ==> spec_lines(line) == Seq::<Seq<char>>::empty(),
        line.len() > 0 ==> spec_lines(line) == seq![line],
{
    lemma_nl_cut_bounds(line);
    if line.len() > 0 {
        assert(nl_cut(line) == line.len()) by {
            if nl_cut(line) < line.len() {
                assert(line[nl_cut(line)] == '\n');
            }
        }
    }
}

/// The lines of a string, as `spec_lines` describes them.
pub fn split_lines(s: &String) -> (out: Vec<String>)
    ensures
        out.deep_view() == spec_lines(s@),
{
    let n = s.as_str().unicode_len();
    let mut out: Vec<String> = Vec::new();
    let mut cur: Vec<char> = Vec::new();
    let mut i: usize = 0;
    proof {
        assert(cur@.add(s@.skip(0)) =~= s@);
        assert(out.deep_view() =~= Seq::<Seq<char>>::empty());
        assert(out.deep_view().add(spec_lines(s@)) =~= spec_lines(s@));
    }
    while i < n
        invariant
            i <= n,
            n == s@.len(),
            forall|j: int| 0 <= j < cur@.len() ==> cur@[j] != '\n',
            spec_lines(s@) =~= out.deep_view().add(spec_lines(cur@.add(s@.skip(i as int)))),
        decreases n - i,
    {
        let c = char_at(s, i);
        if c == '\n' {
            let ghost cur0 = cur@;
            let ghost out0 = out.deep_view();
            let line = strip_cr_exec(&cur);
            out.push(line);
            cur = Vec::new();
            proof {
                lemma_spec_lines_step(cur0, s@.skip(i as int + 1));
                assert(cur0.push('\n').add(s@.skip(i as int + 1)) =~= cur0.add(
                    s@.skip(i as int),
                ));
                assert(out.deep_view() =~= out0.push(strip_tail_cr(cur0)));
                assert(cur@.add(s@.skip(i as int + 1)) =~= s@.skip(i as int + 1));
                assert(out0.add(seq![strip_tail_cr(cur0)].add(
                    spec_lines(s@.skip(i as int + 1)),
                )) =~= out0.push(strip_tail_cr(cur0)).add(spec_lines(s@.skip(i as int + 1))));
            }
        } else {
            let ghost cur0 = cur@;
            cur.push(c);
            proof {
                assert(cur@.add(s@.skip(i as int + 1)) =~= cur0.add(s@.skip(i as int))) by {
                    assert(s@.skip(i as int)[0] == s@[i as int]);
                    assert(s@.skip(i as int).drop_first() =~= s@.skip(i as int + 1));
                };
            }
        }
        i += 1;
    }
    proof {
        assert(cur@.add(s@.skip(n as int)) =~= cur@);
        lemma_spec_lines_flat(cur@);
    }
    if cur.len() > 0 {
        let line = chars_to_string(&cur);
        out.push(line);
    }
    out
}

/// The piece with a single trailing carriage return stripped.
fn strip_cr_exec(cur: &Vec<char>) -> (line: String)
    ensures
        line@ == strip_tail_cr(cur@),
{
    if cur.len() > 0 && cur[cur.len() - 1] == '\r' {
        let mut v: Vec<char> = Vec::new();
        let mut i: usize = 0;
        while i < cur.len() - 1
            invariant
                cur@.len() > 0,
                i <= cur@.len() - 1,
                v@ =~= cur@.subrange(0, i as int),
            decreases cur@.len() - 1 - i,
        {
            v.push(cur[i]);
            proof {
                assert(cur@.subrange(0, i as int).push(cur@[i as int]) =~= cur@.subrange(
                    0,
                    i as int + 1,
                ));
            }
            i += 1;
        }
        proof {
            assert(cur@.subrange(0, cur@.len() - 1) =~= cur@.drop_last());
        }
        chars_to_string(&v)
    } else {
        chars_to_string(cur)
    }
}

// ---------------------------------------------------------------------
// Replacement
// ---------------------------------------------------------------------

/// Every occurrence of the pattern replaced, scanning left to right,
/// never revisiting replaced text.
pub open spec fn spec_replace(s: Seq<char>, pat: Seq<char>, rep: Seq<char>) -> Seq<char>
    decreases s.len(),
{
    if s.len() == 0 || pat.len() == 0 {
        s
    } else if is_substr_at(s, pat, 0) {
        rep.add(spec_replace(s.skip(pat.len() as int), pat, rep))
    } else {
        seq![s[0]].add(spec_replace(s.drop_first(), pat, rep))
    }
}

/// The string with every occurrence of the pattern replaced, scanning
/// left to right.
pub fn replace_all(s: &String, pat: &str, rep: &str) -> (out: String)
    requires
        pat@.len() > 0,
    ensures
        out@ == spec_replace(s@, pat@, rep@),
{
    let n = s.as_str().unicode_len();
    let m = pat.unicode_len();
    let mut out = String::new();
    let mut i: usize = 0;
    proof {
        assert(s@.skip(0) =~= s@);
        assert(out@.add(spec_replace(s@, pat@, rep@)) =~= spec_replace(s@, pat@, rep@));
    }
    while i < n
        invariant
            i <= n,
            n == s@.len(),
            m == pat@.len(),
            m > 0,
            spec_replace(s@, pat@, rep@) =~= out@.add(spec_replace(s@.skip(i as int), pat@, rep@)),
        decreases n - i,
    {
        if matches_at(s, pat, i) {
            proof {
                assert(is_substr_at(s@.skip(i as int), pat@, 0)) by {
                    assert(s@.skip(i as int).subrange(0, pat@.len() as int) =~= s@.subrange(
                        i as int,
                        i + pat@.len() as int,
                    ));
                }
                assert(s@.skip(i as int).skip(m as int) =~= s@.skip(i as int + m as int));
            }
            out.append(rep);
            i += m;
        } else {
            proof {
                assert(!is_substr_at(s@.skip(i as int), pat@, 0)) by {
                    if is_substr_at(s@.skip(i as int), pat@, 0) {
                        assert(s@.subrange(i as int, i + pat@.len() as int) =~= s@.skip(
                            i as int,
                        ).subrange(0, pat@.len() as int));
                    }
                }
                assert(s@.skip(i as int).len() > 0);
                assert(s@.skip(i as int)[0] == s@[i as int]);
                assert(s@.skip(i as int).drop_first() =~= s@.skip(i as int + 1));
            }
            let ghost out0 = out@;
            let c = char_at(s, i);
            string_push_char(&mut out, c);
            proof {
                assert(out0.add(seq![c]) =~= out@);
            }
            i += 1;
        }
    }
    proof {
        assert(s@.skip(n as int).len() == 0);
        assert(out@.add(spec_replace(s@.skip(n as int), pat@, rep@)) =~= out@);
    }
    out
}

/// Two strings joined.
pub fn concat_strings(a: &String, b: &String) -> (out: String)
    ensures
        out@ == a@.add(b@),
{
    let mut out = a.clone();
    out.append(b.as_str());
    out
}

/// A string joined with a literal.
pub fn concat_str(a: &String, b: &str) -> (out: String)
    ensures
        out@ == a@.add(b@),
{
    let mut out = a.clone();
    out.append(b);
    out
}

/// A copy of a string.
pub fn clone_string(s: &String) -> (out: String)
    ensures
        out == *s,
{
    s.clone()
}

} // verus!
