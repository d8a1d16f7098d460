//! PathResolver: request-path decoding and the link paths shown in listings.
//!
//! A request path arrives slash-delimited with `%20` as its only decoded
//! escape (a deliberate, narrow decoder — other percent escapes pass through
//! untouched). Link paths handed back to clients are always relative to the
//! serving root, use forward slashes even on backslash-style hosts, and carry
//! no leading slash; the one exception is the parent link, which is rendered
//! as an absolute `/`-prefixed path.

use crate::text::{push_char, str_chars, string_of_chars};
use vstd::prelude::*;
use vstd::string::{StrSliceExecFns, StringExecFns};

verus! {

/// Every literal `%20` replaced by one space, scanning left to right without
/// overlap; all other characters, including other percent escapes, unchanged.
pub open spec fn decode_spaces(s: Seq<char>) -> Seq<char>
    decreases s.len(),
{
    if s.len() >= 3 && s[0] == '%' && s[1] == '2' && s[2] == '0' {
        seq![' '] + decode_spaces(s.skip(3))
    } else if s.len() == 0 {
        Seq::empty()
    } else {
        seq![s[0]] + decode_spaces(s.skip(1))
    }
}

/// Every backslash replaced by a forward slash.
pub open spec fn norm_slashes(s: Seq<char>) -> Seq<char> {
    s.map_values(|c: char| if c == '\\' { '/' } else { c })
}

/// The string with all leading slashes removed.
pub open spec fn trim_leading_slashes(s: Seq<char>) -> Seq<char>
    decreases s.len(),
{
    if s.len() > 0 && s[0] == '/' {
        trim_leading_slashes(s.skip(1))
    } else {
        s
    }
}

/// Everything before the last slash, or empty if the string has none: the
/// parent of a relative path whose separators are forward slashes.
pub open spec fn parent_of(s: Seq<char>) -> Seq<char>
    decreases s.len(),
{
    if s.len() == 0 {
        s
    } else if s.last() == '/' {
        s.drop_last()
    } else {
        parent_of(s.drop_last())
    }
}

/// The parent link for a directory at `rel`: the parent's relative path with
/// a leading slash, or bare `/` when the parent is the root itself.
pub open spec fn parent_link_spec(rel: Seq<char>) -> Seq<char> {
    let p = parent_of(norm_slashes(rel));
    if p.len() == 0 {
        seq!['/']
    } else if p[0] == '/' {
        p
    } else {
        seq!['/'] + p
    }
}

/// The link for a child named `name` of the directory at `rel`: the bare name
/// at the root, otherwise the normalized, slash-trimmed `rel` joined to the
/// name with one slash.
pub open spec fn child_link_spec(rel: Seq<char>, name: Seq<char>) -> Seq<char> {
    if rel.len() == 0 {
        name
    } else {
        trim_leading_slashes(norm_slashes(rel)) + seq!['/'] + name
    }
}

/// Decodes a raw request path: each literal `%20` becomes a space.
pub fn decode_request_path(raw: &str) -> (r: String)
    ensures
        r@ == decode_spaces(raw@),
{
    let n = raw.unicode_len();
    let mut out = String::new();
    let mut i: usize = 0;
    proof {
        assert(raw@.skip(0) =~= raw@);
        assert(out@ + decode_spaces(raw@) =~= decode_spaces(raw@));
    }
    while i < n
        invariant
            i <= n,
            n == raw@.len(),
            out@ + decode_spaces(raw@.skip(i as int)) == decode_spaces(raw@),
        decreases n - i,
    {
        let ghost rest = raw@.skip(i as int);
        if n - i >= 3 && raw.get_char(i) == '%' && raw.get_char(i + 1) == '2' && raw.get_char(i + 2)
            == '0' {
            push_char(&mut out, ' ');
            proof {
                assert(rest.skip(3) =~= raw@.skip(i + 3));
                assert(decode_spaces(rest) == seq![' '] + decode_spaces(raw@.skip(i + 3)));
                assert(out@ + decode_spaces(raw@.skip(i + 3)) =~= decode_spaces(raw@));
            }
            i = i + 3;
        } else {
            let c = raw.get_char(i);
            push_char(&mut out, c);
            proof {
                assert(rest.skip(1) =~= raw@.skip(i + 1));
                assert(decode_spaces(rest) == seq![rest[0]] + decode_spaces(raw@.skip(i + 1)));
                assert(out@ + decode_spaces(raw@.skip(i + 1)) =~= decode_spaces(raw@));
            }
            i = i + 1;
        }
    }
    proof {
        assert(raw@.skip(n as int) =~= Seq::<char>::empty());
        assert(out@ =~= out@ + decode_spaces(raw@.skip(n as int)));
    }
    out
}

/// Replaces every backslash with a forward slash.
fn normalize_separators(s: &str) -> (r: Vec<char>)
    ensures
        r@ == norm_slashes(s@),
{
    let n = s.unicode_len();
    let mut v: Vec<char> = Vec::new();
    let mut i: usize = 0;
    while i < n
        invariant
            i <= n,
            n == s@.len(),
            v@ == norm_slashes(s@).take(i as int),
        decreases n - i,
    {
        let c = s.get_char(i);
        if c == '\\' {
            v.push('/');
        } else {
            v.push(c);
        }
        proof {
            assert(v@ =~= norm_slashes(s@).take(i + 1));
        }
        i = i + 1;
    }
    proof {
        assert(v@ =~= norm_slashes(s@));
    }
    v
}

/// The index of the first character of `trim_leading_slashes` within a
/// normalized character vector.
fn trim_start(v: &Vec<char>) -> (i: usize)
    ensures
        i <= v@.len(),
        trim_leading_slashes(v@) == v@.skip(i as int),
{
    let n = v.len();
    let mut i: usize = 0;
    proof {
        assert(v@.skip(0) =~= v@);
    }
    while i < n && v[i] == '/'
        invariant
            i <= n,
            n == v@.len(),
            trim_leading_slashes(v@) == trim_leading_slashes(v@.skip(i as int)),
        decreases n - i,
    {
        proof {
            let rest = v@.skip(i as int);
            assert(rest[0] == '/');
            assert(rest.skip(1) =~= v@.skip(i + 1));
        }
        i = i + 1;
    }
    proof {
        if i < n {
            assert(v@.skip(i as int)[0] != '/');
        } else {
            assert(v@.skip(i as int) =~= Seq::<char>::empty());
        }
    }
    i
}

/// Computes the parent link for the non-root directory at `rel`, following
/// the host-independent rule: normalize separators, drop the last path
/// component, prefix one slash (bare `/` when the parent is the root).
pub fn parent_link(rel: &str) -> (r: String)
    ensures
        r@ == parent_link_spec(rel@),
{
    let mut v = normalize_separators(rel);
    let ghost nrm = v@;
    while v.len() > 0 && v[v.len() - 1] != '/'
        invariant
            parent_of(v@) == parent_of(nrm),
        decreases v@.len(),
    {
        proof {
            assert(v@.drop_last() =~= v@.subrange(0, v@.len() - 1));
            assert(parent_of(v@) == parent_of(v@.drop_last()));
        }
        let _ = v.pop();
    }
    if v.len() == 0 {
        let mut out = String::new();
        push_char(&mut out, '/');
        proof {
            assert(out@ =~= parent_link_spec(rel@));
        }
        out
    } else {
        proof {
            assert(v@.last() == '/');
            assert(parent_of(v@) == v@.drop_last());
            assert(v@.drop_last() =~= v@.subrange(0, v@.len() - 1));
        }
        let _ = v.pop();
        proof {
            assert(v@ == parent_of(nrm));
        }
        if v.len() == 0 {
            let mut out = String::new();
            push_char(&mut out, '/');
            proof {
                assert(out@ =~= parent_link_spec(rel@));
            }
            out
        } else if v[0] == '/' {
            let out = string_of_chars(&v);
            out
        } else {
            let mut out = String::new();
            push_char(&mut out, '/');
            let tail = string_of_chars(&v);
            let out = out.concat(tail.as_str());
            proof {
                assert(out@ =~= parent_link_spec(rel@));
            }
            out
        }
    }
}

/// Computes the link path for a child named `name` of the directory at `rel`.
pub fn child_link(rel: &str, name: &str) -> (r: String)
    ensures
        r@ == child_link_spec(rel@, name@),
{
    if rel.is_empty() {
        String::from_str(name)
    } else {
        let v = normalize_separators(rel);
        let i = trim_start(&v);
        let mut out = String::new();
        let mut j: usize = i;
        while j < v.len()
            invariant
                i <= j <= v@.len(),
                out@ == v@.skip(i as int).take(j - i),
            decreases v@.len() - j,
        {
            push_char(&mut out, v[j]);
            proof {
                assert(out@ =~= v@.skip(i as int).take(j + 1 - i));
            }
            j = j + 1;
        }
        proof {
            assert(out@ =~= trim_leading_slashes(norm_slashes(rel@)));
        }
        push_char(&mut out, '/');
        let out = out.concat(name);
        proof {
            assert(out@ =~= child_link_spec(rel@, name@));
        }
        out
    }
}

/// The display form of the current relative path: forward slashes, leading
/// slashes stripped.
pub fn display_path(rel: &str) -> (r: String)
    ensures
        r@ == trim_leading_slashes(norm_slashes(rel@)),
{
    let v = normalize_separators(rel);
    let i = trim_start(&v);
    let mut out = String::new();
    let mut j: usize = i;
    while j < v.len()
        invariant
            i <= j <= v@.len(),
            out@ == v@.skip(i as int).take(j - i),
        decreases v@.len() - j,
    {
        push_char(&mut out, v[j]);
        proof {
            assert(out@ =~= v@.skip(i as int).take(j + 1 - i));
        }
        j = j + 1;
    }
    proof {
        assert(out@ =~= trim_leading_slashes(norm_slashes(rel@)));
    }
    out
}

/// In `trim_leading_slashes(s)` the first character is never a slash, and no
/// character appears that was absent from `s`.
proof fn lemma_trim_props(s: Seq<char>)
    ensures
        trim_leading_slashes(s).len() > 0 ==> trim_leading_slashes(s)[0] != '/',
        forall|i: int|
            0 <= i < trim_leading_slashes(s).len() ==> s.contains(trim_leading_slashes(s)[i]),
    decreases s.len(),
{
    if s.len() > 0 && s[0] == '/' {
        lemma_trim_props(s.skip(1));
        assert forall|i: int|
            0 <= i < trim_leading_slashes(s).len() implies s.contains(
            trim_leading_slashes(s)[i],
        ) by {
            assert(s.skip(1).contains(trim_leading_slashes(s)[i]));
            let j = choose|j: int| 0 <= j < s.skip(1).len() && s.skip(1)[j] == trim_leading_slashes(
                s,
            )[i];
            assert(s[j + 1] == trim_leading_slashes(s)[i]);
        }
    } else {
        assert forall|i: int|
            0 <= i < trim_leading_slashes(s).len() implies s.contains(
            trim_leading_slashes(s)[i],
        ) by {
            assert(s[i] == trim_leading_slashes(s)[i]);
        }
    }
}

/// Child links are clean: as long as the child's name holds no slash of
/// either kind and the directory's relative path is not made of slashes
/// alone, the link never begins with a slash and never contains a backslash.
pub proof fn lemma_child_link_clean(rel: Seq<char>, name: Seq<char>)
    requires
        forall|i: int| 0 <= i < name.len() ==> name[i] != '/' && name[i] != '\\',
        rel.len() == 0 || trim_leading_slashes(norm_slashes(rel)).len() > 0,
    ensures
        child_link_spec(rel, name).len() > 0 ==> child_link_spec(rel, name)[0] != '/',
        forall|i: int|
            0 <= i < child_link_spec(rel, name).len() ==> child_link_spec(rel, name)[i] != '\\',
{
    let r = child_link_spec(rel, name);
    if rel.len() == 0 {
    } else {
        let nrm = norm_slashes(rel);
        let t = trim_leading_slashes(nrm);
        lemma_trim_props(nrm);
        assert(forall|i: int| 0 <= i < nrm.len() ==> nrm[i] != '\\');
        assert forall|i: int| 0 <= i < r.len() implies r[i] != '\\' by {
            if i < t.len() {
                assert(nrm.contains(t[i]));
            } else if i == t.len() {
                assert(r[i] == '/');
            } else {
                assert(r[i] == name[i - t.len() - 1]);
            }
        }
        assert(r[0] == t[0]);
    }
}

} // verus!
