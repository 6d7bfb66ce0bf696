//! The crates.io sparse index: where a crate's file lives, how the body of a
//! response splits into entries, and what each entry says.

use vstd::prelude::*;
use crate::model::{Availability, Version, VersionMetadata};
use crate::text::{chars_of, extend_chars, extend_str, string_of, sub_chars};
use crate::versioning::{is_prerelease, is_prerelease_spec};

verus! {

/// The lowercase equivalent of a text, as std's `str::to_lowercase` gives it.
pub uninterp spec fn lowercase(s: Seq<char>) -> Seq<char>;

/// Whether `c` is an ASCII capital letter.
pub open spec fn is_ascii_upper(c: char) -> bool {
    'A' <= c && c <= 'Z'
}

/// The ASCII lowercase of one character: capitals become small letters,
/// everything else stays.
pub open spec fn ascii_lower(c: char) -> char {
    if is_ascii_upper(c) { ((c as u32) + 32) as char } else { c }
}

/// std's `str::to_lowercase`. Its documentation maps every character to one
/// or more characters, so the result is no shorter; an ASCII text maps
/// character by character to its ASCII lowercase. What it does to other
/// characters (Unicode's lowercase tables) is left to the name.
#[verifier::external_body]
fn to_lowercase(s: &str) -> (r: String)
    ensures
        r@ == lowercase(s@),
        r@.len() >= s@.len(),
        (forall|i: int| 0 <= i < s@.len() ==> (#[trigger] s@[i] as u32) < 128) ==> r@ == s@.map_values(|c: char| ascii_lower(c)),
{
    s.to_lowercase()
}

/// The path of a crate's file in the sparse index: the lowercase name,
/// bucketed by its length: `1/{name}`, `2/{name}`, `3/{c0}/{name}`, else
/// `{c0c1}/{c2c3}/{name}`.
pub open spec fn index_path_spec(lower: Seq<char>) -> Seq<char> {
    if lower.len() == 1 {
        seq!['1', '/'] + lower
    } else if lower.len() == 2 {
        seq!['2', '/'] + lower
    } else if lower.len() == 3 {
        seq!['3', '/', lower[0], '/'] + lower
    } else {
        lower.subrange(0, 2) + seq!['/'] + lower.subrange(2, 4) + seq!['/'] + lower
    }
}

/// The sparse-index path of the crate `name`.
pub fn sparse_index_path(name: &str) -> (r: String)
    requires
        name@.len() > 0,
    ensures
        r@ == index_path_spec(lowercase(name@)),
        lowercase(name@).len() >= name@.len(),
        (forall|i: int| 0 <= i < name@.len() ==> (#[trigger] name@[i] as u32) < 128)
            ==> r@ == index_path_spec(name@.map_values(|c: char| ascii_lower(c))),
{
    let lower = to_lowercase(name);
    let cs = chars_of(lower.as_str());
    let len = cs.len();
    let mut out: Vec<char> = Vec::new();
    if len == 1 {
        out.push('1');
        out.push('/');
    } else if len == 2 {
        out.push('2');
        out.push('/');
    } else if len == 3 {
        out.push('3');
        out.push('/');
        out.push(cs[0]);
        out.push('/');
    } else {
        let first = sub_chars(&cs, 0, 2);
        let next = sub_chars(&cs, 2, 4);
        extend_chars(&mut out, &first);
        out.push('/');
        extend_chars(&mut out, &next);
        out.push('/');
    }
    extend_chars(&mut out, &cs);
    string_of(&out)
}

/// Whether `c` has Unicode's `White_Space` property, which std's
/// `char::is_whitespace` and `str::trim` go by.
pub open spec fn is_white_space_spec(c: char) -> bool {
    let v = c as u32;
    ||| 0x9 <= v <= 0xd
    ||| v == 0x20 || v == 0x85 || v == 0xa0 || v == 0x1680
    ||| 0x2000 <= v <= 0x200a
    ||| v == 0x2028 || v == 0x2029 || v == 0x202f || v == 0x205f || v == 0x3000
}

/// Whether `c` is white space.
pub fn is_white_space(c: char) -> (r: bool)
    ensures
        r == is_white_space_spec(c),
{
    let v = c as u32;
    (0x9 <= v && v <= 0xd) || v == 0x20 || v == 0x85 || v == 0xa0 || v == 0x1680
        || (0x2000 <= v && v <= 0x200a) || v == 0x2028 || v == 0x2029 || v == 0x202f
        || v == 0x205f || v == 0x3000
}

/// How many leading characters of `s` are white space.
pub open spec fn leading_space(s: Seq<char>) -> nat
    decreases s.len(),
{
    if s.len() > 0 && is_white_space_spec(s[0]) { 1 + leading_space(s.drop_first()) } else { 0 }
}

/// How many trailing characters of `s` are white space.
pub open spec fn trailing_space(s: Seq<char>) -> nat
    decreases s.len(),
{
    if s.len() > 0 && is_white_space_spec(s.last()) { 1 + trailing_space(s.drop_last()) } else { 0 }
}

/// `s` without its leading and trailing white space.
pub open spec fn trim_spec(s: Seq<char>) -> Seq<char> {
    let t = s.skip(leading_space(s) as int);
    t.take(t.len() - trailing_space(t))
}

/// The pieces of `s` between line feeds, in order: one more than it has line
/// feeds.
pub open spec fn split_lines(s: Seq<char>) -> Seq<Seq<char>>
    decreases s.len(),
{
    if s.len() == 0 {
        seq![Seq::<char>::empty()]
    } else {
        let rest = split_lines(s.drop_last());
        if s.last() == '\n' {
            rest.push(Seq::<char>::empty())
        } else {
            rest.update(rest.len() - 1, rest.last().push(s.last()))
        }
    }
}

} // verus!

verus! {

/// The trimmed pieces that are not empty, in order.
pub open spec fn kept_lines(pieces: Seq<Seq<char>>) -> Seq<Seq<char>>
    decreases pieces.len(),
{
    if pieces.len() == 0 {
        Seq::<Seq<char>>::empty()
    } else {
        let rest = kept_lines(pieces.drop_last());
        let t = trim_spec(pieces.last());
        if t.len() > 0 { rest.push(t) } else { rest }
    }
}

/// The entries of an index response body: its lines, trimmed, without the
/// empty ones.
pub open spec fn index_lines_spec(body: Seq<char>) -> Seq<Seq<char>> {
    kept_lines(split_lines(body))
}

/// `s` without leading and trailing white space.
pub fn trim_chars(s: &Vec<char>) -> (r: Vec<char>)
    ensures
        r@ == trim_spec(s@),
{
    let n = s.len();
    let mut lead: usize = 0;
    assert(s@.skip(0) == s@);
    while lead < n && is_white_space(s[lead])
        invariant
            n == s.len(),
            lead <= n,
            leading_space(s@) == lead + leading_space(s@.skip(lead as int)),
        decreases n - lead,
    {
        assert(s@.skip(lead as int).drop_first() == s@.skip(lead + 1));
        lead = lead + 1;
    }
    assert(leading_space(s@.skip(lead as int)) == 0) by {
        if lead < n {
            assert(s@.skip(lead as int)[0] == s@[lead as int]);
        }
    }
    let t = sub_chars(s, lead, n);
    assert(t@ == s@.skip(lead as int));
    let m = t.len();
    let mut end: usize = m;
    assert(t@.take(m as int) == t@);
    while end > 0 && is_white_space(t[end - 1])
        invariant
            m == t.len(),
            end <= m,
            trailing_space(t@) == (m - end) + trailing_space(t@.take(end as int)),
        decreases end,
    {
        assert(t@.take(end as int).drop_last() == t@.take(end - 1));
        assert(t@.take(end as int).last() == t@[end - 1]);
        end = end - 1;
    }
    assert(trailing_space(t@.take(end as int)) == 0) by {
        if end > 0 {
            assert(t@.take(end as int).last() == t@[end - 1]);
        }
    }
    sub_chars(&t, 0, end)
}

/// The entries of an index response body: each line trimmed, empty lines
/// left out.
pub fn index_lines(body: &str) -> (r: Vec<String>)
    ensures
        r@.map_values(|l: String| l@) == index_lines_spec(body@),
{
    let cs = chars_of(body);
    let n = cs.len();
    let mut out: Vec<String> = Vec::new();
    let mut current: Vec<char> = Vec::new();
    let ghost mut done: Seq<Seq<char>> = Seq::empty();
    assert(cs@.take(0) == Seq::<char>::empty());
    for i in 0..n
        invariant
            n == cs.len(),
            cs@ == body@,
            split_lines(cs@.take(i as int)) == done.push(current@),
            out@.map_values(|l: String| l@) == kept_lines(done),
    {
        assert(cs@.take(i + 1).drop_last() == cs@.take(i as int));
        assert(cs@.take(i + 1).last() == cs@[i as int]);
        if cs[i] == '\n' {
            let t = trim_chars(&current);
            let ghost before = out@;
            if t.len() > 0 {
                out.push(string_of(&t));
                assert(out@.map_values(|l: String| l@) == before.map_values(|l: String| l@).push(t@));
            }
            proof {
                assert(done.push(current@).drop_last() == done);
                assert(done.push(current@).last() == current@);
                done = done.push(current@);
            }
            current = Vec::new();
        } else {
            current.push(cs[i]);
        }
    }
    assert(cs@.take(n as int) == cs@);
    let t = trim_chars(&current);
    let ghost before = out@;
    if t.len() > 0 {
        out.push(string_of(&t));
        assert(out@.map_values(|l: String| l@) == before.map_values(|l: String| l@).push(t@));
    }
    assert(done.push(current@).drop_last() == done);
    out
}

/// A version entry of the index, with the pre-release flag that semver finds
/// in its text.
pub fn version_metadata(vers: String, yanked: bool) -> (r: VersionMetadata)
    ensures
        r.version.0 == vers,
        r.yanked == yanked,
        r.prerelease == is_prerelease_spec(vers@),
{
    let prerelease = is_prerelease(vers.as_str());
    VersionMetadata { version: Version(vers), yanked, prerelease }
}

/// The availability of a crate from its index entries (version text and
/// yanked flag), in order.
pub fn availability_from_entries(entries: Vec<(String, bool)>) -> (r: Availability)
    ensures
        r.versions@.len() == entries@.len(),
        forall|i: int| 0 <= i < entries@.len() ==> {
            &&& (#[trigger] r.versions@[i]).version.0 == entries@[i].0
            &&& r.versions@[i].yanked == entries@[i].1
            &&& r.versions@[i].prerelease == is_prerelease_spec(entries@[i].0@)
        },
{
    let mut versions: Vec<VersionMetadata> = Vec::new();
    let n = entries.len();
    for i in 0..n
        invariant
            n == entries.len(),
            versions@.len() == i,
            forall|k: int| 0 <= k < i ==> {
                &&& (#[trigger] versions@[k]).version.0 == entries@[k].0
                &&& versions@[k].yanked == entries@[k].1
                &&& versions@[k].prerelease == is_prerelease_spec(entries@[k].0@)
            },
    {
        let (vers, yanked) = &entries[i];
        versions.push(version_metadata(vers.clone(), *yanked));
    }
    Availability { versions }
}

/// What an index response means by its status: the crate is unknown (no
/// versions), the request failed, or the body lists the versions.
#[derive(Debug, Clone, Copy, PartialEq, Eq, Structural)]
pub enum IndexStatus {
    NotFound,
    Failed,
    Listed,
}

/// The meaning of an index response's HTTP status: 404 means no versions,
/// another status outside 200–299 is a failure.
pub fn index_status(status: u16) -> (r: IndexStatus)
    ensures
        status == 404 ==> r == IndexStatus::NotFound,
        status != 404 && !(200 <= status <= 299) ==> r == IndexStatus::Failed,
        200 <= status <= 299 ==> r == IndexStatus::Listed,
{
    if status == 404 {
        IndexStatus::NotFound
    } else if status < 200 || status > 299 {
        IndexStatus::Failed
    } else {
        IndexStatus::Listed
    }
}

/// The message for a failed index request: `HTTP error {status} for {name}`.
pub fn http_error_message(status: &str, coordinate: &str) -> (r: String)
    ensures
        r@ == "HTTP error "@ + status@ + " for "@ + coordinate@,
{
    let mut cs = chars_of("HTTP error ");
    extend_str(&mut cs, status);
    extend_str(&mut cs, " for ");
    extend_str(&mut cs, coordinate);
    string_of(&cs)
}

} // verus!
