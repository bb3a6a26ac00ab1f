//! Version stamping for the project's documentation: wherever one of the
//! known prefixes occurs in a document, the version number that follows it —
//! the longest run of ASCII digits and dots — is replaced with the current
//! version.  Everything else, changelog history included, stays untouched.

use vstd::prelude::*;

verus! {

/// A character a version number is made of: an ASCII digit or a dot.
pub open spec fn is_version_char(c: char) -> bool {
    (('0' as int) <= (c as int) && (c as int) <= ('9' as int)) || c == '.'
}

/// The length of the run of version characters at the head of `s`.
pub open spec fn version_run_len(s: Seq<char>) -> nat
    decreases s.len(),
{
    if s.len() == 0 {
        0
    } else if is_version_char(s[0]) {
        (1 + version_run_len(s.skip(1))) as nat
    } else {
        0
    }
}

/// The version run never outruns the text it heads.
pub proof fn lemma_version_run_len_bound(s: Seq<char>)
    ensures
        version_run_len(s) <= s.len(),
    decreases s.len(),
{
    if s.len() != 0 && is_version_char(s[0]) {
        lemma_version_run_len_bound(s.skip(1));
    }
}

/// The version run ends at the first index that holds no version character.
proof fn lemma_version_run_len_is(s: Seq<char>, e: int)
    requires
        0 <= e <= s.len(),
        forall|k: int| 0 <= k < e ==> is_version_char(#[trigger] s[k]),
        e == s.len() || !is_version_char(s[e]),
    ensures
        version_run_len(s) == e,
    decreases e,
{
    if e > 0 {
        lemma_version_run_len_is(s.skip(1), e - 1);
    }
}

/// Whether `p` occurs in `s` at position `i`.
pub open spec fn match_at(s: Seq<char>, p: Seq<char>, i: int) -> bool {
    0 <= i && i + p.len() <= s.len() && s.subrange(i, i + p.len()) == p
}

/// The first position at which `p` occurs in `s`, or `-1` if it never does.
pub open spec fn find_prefix(s: Seq<char>, p: Seq<char>) -> int
    decreases s.len(),
{
    if p.len() > s.len() {
        -1
    } else if s.len() == 0 {
        0
    } else if s.take(p.len() as int) == p {
        0
    } else {
        let r = find_prefix(s.skip(1), p);
        if r < 0 {
            -1
        } else {
            1 + r
        }
    }
}

/// Occurrences in the tail of `s` are occurrences in `s`, shifted by one.
proof fn lemma_match_at_shift(s: Seq<char>, p: Seq<char>, j: int)
    requires
        s.len() >= 1,
        j >= 0,
    ensures
        match_at(s, p, j + 1) == match_at(s.skip(1), p, j),
{
    if j + 1 + p.len() <= s.len() {
        assert(s.skip(1).subrange(j, j + p.len()) =~= s.subrange(j + 1, j + 1 + p.len()));
    }
}

/// `find_prefix` finds the first occurrence: a match stands where it points,
/// none before it, and none at all when it is negative.
pub proof fn lemma_find_prefix_spec(s: Seq<char>, p: Seq<char>)
    ensures
        find_prefix(s, p) >= 0 ==> match_at(s, p, find_prefix(s, p)) && (forall|j: int|
            0 <= j < find_prefix(s, p) ==> !match_at(s, p, j)),
        find_prefix(s, p) < 0 ==> (forall|j: int| 0 <= j ==> !match_at(s, p, j)),
    decreases s.len(),
{
    let i = find_prefix(s, p);
    if p.len() > s.len() {
    } else if s.len() == 0 {
        assert(s.subrange(0, p.len() as int) =~= p);
    } else if s.take(p.len() as int) == p {
        assert(s.subrange(0, p.len() as int) == s.take(p.len() as int));
    } else {
        assert(s.subrange(0, p.len() as int) == s.take(p.len() as int));
        assert(!match_at(s, p, 0));
        lemma_find_prefix_spec(s.skip(1), p);
        let r = find_prefix(s.skip(1), p);
        if r >= 0 {
            lemma_match_at_shift(s, p, r);
            assert forall|j: int| 0 <= j < i implies !match_at(s, p, j) by {
                if j > 0 {
                    lemma_match_at_shift(s, p, j - 1);
                }
            }
        } else {
            assert forall|j: int| 0 <= j implies !match_at(s, p, j) by {
                if j > 0 {
                    lemma_match_at_shift(s, p, j - 1);
                }
            }
        }
    }
}

/// The document with every version number that follows an occurrence of
/// `prefix` replaced by `newv`.  Scanning from the left: text before the
/// first occurrence is kept, the occurrence itself is kept, the version run
/// after it is replaced by `newv`, and the rest is processed the same way.
/// A degenerate empty prefix replaces nothing.
pub open spec fn replace_after_prefix_spec(
    content: Seq<char>,
    prefix: Seq<char>,
    newv: Seq<char>,
) -> Seq<char>
    decreases content.len(),
    via replace_after_prefix_spec_decreases
{
    if prefix.len() == 0 {
        content
    } else if content.len() < prefix.len() {
        content
    } else if content.take(prefix.len() as int) == prefix {
        let after = content.skip(prefix.len() as int);
        let run = version_run_len(after);
        prefix + newv + replace_after_prefix_spec(after.skip(run as int), prefix, newv)
    } else {
        seq![content[0]] + replace_after_prefix_spec(content.skip(1), prefix, newv)
    }
}

#[via_fn]
proof fn replace_after_prefix_spec_decreases(
    content: Seq<char>,
    prefix: Seq<char>,
    newv: Seq<char>,
) {
    if prefix.len() >= 1 && content.len() >= prefix.len() && content.take(prefix.len() as int)
        == prefix {
        let after = content.skip(prefix.len() as int);
        lemma_version_run_len_bound(after);
        assert(after.skip(version_run_len(after) as int).len() < content.len());
    }
}

/// Occurrences relative to a suffix of `s` are occurrences in `s`, shifted
/// by where the suffix starts.
proof fn lemma_match_at_shift_base(s: Seq<char>, p: Seq<char>, base: int, j: int)
    requires
        0 <= base <= s.len(),
        j >= 0,
    ensures
        match_at(s, p, base + j) == match_at(s.skip(base), p, j),
{
    if base + j + p.len() <= s.len() {
        assert(s.skip(base).subrange(j, j + p.len()) =~= s.subrange(base + j, base + j + p.len()));
    }
}

/// A first occurrence pins `find_prefix` down.
proof fn lemma_find_prefix_eq(s: Seq<char>, p: Seq<char>, i: int)
    requires
        match_at(s, p, i),
        forall|j: int| 0 <= j < i ==> !match_at(s, p, j),
    ensures
        find_prefix(s, p) == i,
{
    lemma_find_prefix_spec(s, p);
}

/// No occurrence at all makes `find_prefix` negative.
proof fn lemma_find_prefix_none(s: Seq<char>, p: Seq<char>)
    requires
        forall|j: int| 0 <= j ==> !match_at(s, p, j),
    ensures
        find_prefix(s, p) < 0,
{
    lemma_find_prefix_spec(s, p);
}

/// The replacement unfolds at the first occurrence: everything up to and
/// including it is kept, the version run after it becomes `newv`, and the
/// rest is processed recursively; without an occurrence nothing changes.
proof fn lemma_replace_jump(content: Seq<char>, prefix: Seq<char>, newv: Seq<char>)
    requires
        prefix.len() >= 1,
    ensures
        find_prefix(content, prefix) < 0 ==> replace_after_prefix_spec(content, prefix, newv)
            == content,
        find_prefix(content, prefix) >= 0 ==> replace_after_prefix_spec(content, prefix, newv)
            == content.take(find_prefix(content, prefix) + prefix.len()) + newv
            + replace_after_prefix_spec(
            content.skip(find_prefix(content, prefix) + prefix.len()).skip(
                version_run_len(
                    content.skip(find_prefix(content, prefix) + prefix.len()),
                ) as int,
            ),
            prefix,
            newv,
        ),
    decreases content.len(),
{
    let i = find_prefix(content, prefix);
    if content.len() < prefix.len() {
    } else if content.take(prefix.len() as int) == prefix {
        assert(i == 0);
        assert(content.take(i + prefix.len()) == content.take(prefix.len() as int));
        assert(content.skip(i + prefix.len()) == content.skip(prefix.len() as int));
    } else {
        lemma_replace_jump(content.skip(1), prefix, newv);
        lemma_find_prefix_spec(content.skip(1), prefix);
        let r = find_prefix(content.skip(1), prefix);
        if r < 0 {
            assert(seq![content[0]] + content.skip(1) =~= content);
        } else {
            assert(i == 1 + r);
            assert(match_at(content.skip(1), prefix, r));
            assert(r + prefix.len() <= content.skip(1).len());
            let plen = prefix.len() as int;
            assert(content.skip(1).skip(r + plen) =~= content.skip(i + plen));
            let after = content.skip(i + plen);
            let run = version_run_len(after) as int;
            let rest = replace_after_prefix_spec(after.skip(run), prefix, newv);
            assert(replace_after_prefix_spec(content.skip(1), prefix, newv) == content.skip(
                1,
            ).take(r + plen) + newv + rest);
            assert(content.take(i + plen) =~= seq![content[0]] + content.skip(1).take(r + plen));
            assert(seq![content[0]] + (content.skip(1).take(r + plen) + newv + rest)
                =~= content.take(i + plen) + newv + rest);
        }
    }
}

/// Whether `c` can be part of a version number.
fn char_is_version(c: char) -> (r: bool)
    ensures
        r == is_version_char(c),
{
    let u = c as u32;
    (48 <= u && u <= 57) || c == '.'
}

/// Whether `prefix` occurs in `content` at character position `j`.
fn occurs_at(content: &str, prefix: &str, j: usize) -> (r: bool)
    requires
        j + prefix@.len() <= content@.len(),
    ensures
        r == match_at(content@, prefix@, j as int),
{
    let clen = content.unicode_len();
    let plen = prefix.unicode_len();
    let mut t: usize = 0;
    while t < plen
        invariant
            clen == content@.len(),
            plen == prefix@.len(),
            j + plen <= clen,
            0 <= t <= plen,
            forall|u: int| 0 <= u < t ==> content@[j + u] == prefix@[u],
        decreases plen - t,
    {
        if content.get_char(j + t) != prefix.get_char(t) {
            proof {
                if match_at(content@, prefix@, j as int) {
                    assert(content@.subrange(j as int, j + prefix@.len())[t as int]
                        == content@[j + t]);
                }
            }
            return false;
        }
        t = t + 1;
    }
    proof {
        assert(content@.subrange(j as int, j + prefix@.len()) =~= prefix@);
    }
    true
}

/// The first character position at or past `from` at which `prefix` occurs
/// in `content`, if any.
fn find_from(content: &str, prefix: &str, from: usize) -> (r: Option<usize>)
    requires
        prefix@.len() >= 1,
        from <= content@.len(),
    ensures
        match r {
            Some(j) => {
                &&& from <= j
                &&& j + prefix@.len() <= content@.len()
                &&& match_at(content@, prefix@, j as int)
                &&& forall|k: int| from <= k < j ==> !match_at(content@, prefix@, k)
            },
            None => forall|k: int| from <= k ==> !match_at(content@, prefix@, k),
        },
{
    let clen = content.unicode_len();
    let plen = prefix.unicode_len();
    if plen > clen || from > clen - plen {
        return None;
    }
    let mut j: usize = from;
    while j <= clen - plen
        invariant
            clen == content@.len(),
            plen == prefix@.len(),
            1 <= plen <= clen,
            from <= j <= clen - plen + 1,
            forall|k: int| from <= k < j ==> !match_at(content@, prefix@, k),
        decreases clen - j,
    {
        if occurs_at(content, prefix, j) {
            return Some(j);
        }
        j = j + 1;
    }
    None
}

/// Replaces, after every occurrence of `prefix` in `content`, the version
/// number that follows — the longest run of ASCII digits and dots — with
/// `new_version`.  All other content is left untouched.
pub fn replace_version_after_prefix(content: &str, prefix: &str, new_version: &str) -> (r: String)
    requires
        prefix@.len() >= 1,
    ensures
        r@ == replace_after_prefix_spec(content@, prefix@, new_version@),
{
    let clen = content.unicode_len();
    let plen = prefix.unicode_len();
    let mut out = String::new();
    let mut pos: usize = 0;
    proof {
        assert(content@.skip(0) =~= content@);
        assert(Seq::<char>::empty() + replace_after_prefix_spec(content@, prefix@, new_version@)
            =~= replace_after_prefix_spec(content@, prefix@, new_version@));
    }
    loop
        invariant
            clen == content@.len(),
            plen == prefix@.len(),
            plen >= 1,
            0 <= pos <= clen,
            out@ + replace_after_prefix_spec(content@.skip(pos as int), prefix@, new_version@)
                == replace_after_prefix_spec(content@, prefix@, new_version@),
        decreases clen - pos,
    {
        let found = find_from(content, prefix, pos);
        proof {
            lemma_replace_jump(content@.skip(pos as int), prefix@, new_version@);
        }
        match found {
            None => {
                proof {
                    assert forall|t: int| 0 <= t implies !match_at(
                        content@.skip(pos as int),
                        prefix@,
                        t,
                    ) by {
                        lemma_match_at_shift_base(content@, prefix@, pos as int, t);
                    }
                    lemma_find_prefix_none(content@.skip(pos as int), prefix@);
                }
                let rest = content.substring_char(pos, clen);
                out.append(rest);
                proof {
                    assert(content@.subrange(pos as int, clen as int) == content@.skip(pos as int));
                }
                return out;
            },
            Some(j) => {
                proof {
                    lemma_match_at_shift_base(content@, prefix@, pos as int, j - pos);
                    assert forall|t: int| 0 <= t < j - pos implies !match_at(
                        content@.skip(pos as int),
                        prefix@,
                        t,
                    ) by {
                        lemma_match_at_shift_base(content@, prefix@, pos as int, t);
                    }
                    lemma_find_prefix_eq(content@.skip(pos as int), prefix@, j - pos);
                    lemma_replace_jump(content@.skip(pos as int), prefix@, new_version@);
                }
                let piece = content.substring_char(pos, j + plen);
                out.append(piece);
                out.append(new_version);
                let mut e: usize = j + plen;
                while e < clen && char_is_version(content.get_char(e))
                    invariant
                        clen == content@.len(),
                        j + plen <= e <= clen,
                        forall|k: int| j + plen <= k < e ==> is_version_char(#[trigger] content@[k]),
                    decreases clen - e,
                {
                    e = e + 1;
                }
                proof {
                    let after = content@.skip(j + plen);
                    assert forall|k: int| 0 <= k < e - j - plen implies is_version_char(
                        #[trigger] after[k],
                    ) by {
                        assert(after[k] == content@[j + plen + k]);
                    }
                    if e < clen {
                        assert(after[e - j - plen] == content@[e as int]);
                    }
                    lemma_version_run_len_is(after, e - j - plen);
                    assert(content@.skip(pos as int).take(j - pos + plen) =~= content@.subrange(
                        pos as int,
                        j + plen,
                    ));
                    assert(content@.skip(pos as int).skip(j - pos + plen) =~= content@.skip(
                        j + plen,
                    ));
                    assert(after.skip(e - j - plen) =~= content@.skip(e as int));
                }
                pos = e;
            },
        }
    }
}

/// The known version-bearing prefixes of the project's documentation, each
/// applied in turn: the title line, the JSON field, and the metadata bullet.
pub open spec fn sync_version_spec(content: Seq<char>, version: Seq<char>) -> Seq<char> {
    replace_after_prefix_spec(
        replace_after_prefix_spec(
            replace_after_prefix_spec(content, "# CCaps Layout Switcher v"@, version),
            "\"version\": \""@,
            version,
        ),
        "- **Version**: "@,
        version,
    )
}

/// Stamps `version` after every known version-bearing prefix of the
/// document: the title line, the JSON field, and the metadata bullet.
pub fn sync_version(content: &str, version: &str) -> (r: String)
    ensures
        r@ == sync_version_spec(content@, version@),
{
    proof {
        reveal_strlit("# CCaps Layout Switcher v");
        reveal_strlit("\"version\": \"");
        reveal_strlit("- **Version**: ");
    }
    let a = replace_version_after_prefix(content, "# CCaps Layout Switcher v", version);
    let b = replace_version_after_prefix(a.as_str(), "\"version\": \"", version);
    replace_version_after_prefix(b.as_str(), "- **Version**: ", version)
}

} // verus!
