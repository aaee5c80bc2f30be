use vstd::prelude::*;
use vstd::string::*;
use vstd::utf8::encode_utf8;

use crate::errors::TransferError;

verus! {

broadcast use vstd::string::group_string_axioms;

// ---------------------------------------------------------------------------
// The model: byte- and character-level views of client-supplied paths.
//
// A requested path is confined by construction: leading separators are
// stripped (so a request is never read as absolute), and any `..` segment --
// raw or percent-encoded -- is rejected before the request is joined under
// its storage root. The resulting path is the root itself or the root
// followed by a `/`-separated suffix, which keeps the prefix relation on a
// segment boundary. Canonical paths handed back by the filesystem are
// re-checked with the same boundary rule (`confined_to_root`).
// ---------------------------------------------------------------------------

/// A path-separator byte: `/` or `\`.
pub open spec fn is_sep_byte(b: u8) -> bool {
    b == 47 || b == 92
}

/// A path-separator character: `/` or `\`.
pub open spec fn is_sep_char(c: char) -> bool {
    c == '/' || c == '\\'
}

/// The two bytes at `i` spell a full `..` segment: `.` `.` delimited by the
/// ends of the path or by separators on both sides.
pub open spec fn dot_dot_at(s: Seq<u8>, i: int) -> bool {
    &&& 0 <= i
    &&& i + 2 <= s.len()
    &&& s[i] == 46
    &&& s[i + 1] == 46
    &&& (i == 0 || is_sep_byte(s[i - 1]))
    &&& (i + 2 == s.len() || is_sep_byte(s[i + 2]))
}

/// Some segment of the path is exactly `..`.
pub open spec fn has_dot_dot_segment(s: Seq<u8>) -> bool {
    exists|i: int| dot_dot_at(s, i)
}

pub open spec fn is_hex_digit(b: u8) -> bool {
    (48 <= b <= 57) || (65 <= b <= 70) || (97 <= b <= 102)
}

pub open spec fn hex_digit_value(b: u8) -> u8 {
    if 48 <= b <= 57 {
        (b - 48) as u8
    } else if 65 <= b <= 70 {
        (b - 65 + 10) as u8
    } else {
        (b - 97 + 10) as u8
    }
}

/// Percent-decoding of a byte string: every `%xy` triple with two hex digits
/// becomes the byte it names, everything else is copied through.
pub open spec fn percent_decoded(s: Seq<u8>) -> Seq<u8>
    decreases s.len(),
{
    if s.len() == 0 {
        Seq::empty()
    } else if s[0] == 37 && s.len() >= 3 && is_hex_digit(s[1]) && is_hex_digit(s[2]) {
        seq![(hex_digit_value(s[1]) * 16 + hex_digit_value(s[2])) as u8] + percent_decoded(
            s.skip(3),
        )
    } else {
        seq![s[0]] + percent_decoded(s.skip(1))
    }
}

/// The requested path with every leading separator removed.
pub open spec fn strip_leading_seps_spec(s: Seq<char>) -> Seq<char>
    decreases s.len(),
{
    if s.len() > 0 && is_sep_char(s[0]) {
        strip_leading_seps_spec(s.drop_first())
    } else {
        s
    }
}

/// `p` is the root itself, or a strict descendant: the root followed by `/`
/// on a segment boundary. `/data/foo2` is not confined to `/data/foo`.
pub open spec fn confined_to_root(root: Seq<char>, p: Seq<char>) -> bool {
    ||| p == root
    ||| (p.len() > root.len() && p.subrange(0, root.len() as int) == root && p[root.len() as int]
        == '/')
}

/// A request is rejected when, after stripping leading separators, it holds
/// a `..` segment either as written or after percent-decoding.
pub open spec fn request_rejected(q: Seq<char>) -> bool {
    let rel = encode_utf8(strip_leading_seps_spec(q));
    has_dot_dot_segment(rel) || has_dot_dot_segment(percent_decoded(rel))
}

/// What `resolve` returns, at the specification level.
pub open spec fn spec_resolve(root: Seq<char>, requested: Option<Seq<char>>) -> Result<
    Seq<char>,
    TransferError,
> {
    match requested {
        None => Ok(root),
        Some(q) => if request_rejected(q) {
            Err(TransferError::PathViolation)
        } else {
            let rel = strip_leading_seps_spec(q);
            if rel.len() == 0 {
                Ok(root)
            } else {
                Ok(root + seq!['/'] + rel)
            }
        },
    }
}

pub open spec fn opt_str_view(o: Option<&str>) -> Option<Seq<char>> {
    match o {
        Some(s) => Some(s@),
        None => None,
    }
}

// ---------------------------------------------------------------------------
// Laws.
// ---------------------------------------------------------------------------

/// Whatever the client requests -- `..` sequences, percent-encodings,
/// absolute overrides -- a path that the resolver returns is the storage
/// root or a strict descendant of it, never a path outside the root.
pub proof fn lemma_resolve_never_escapes(root: Seq<char>, requested: Option<Seq<char>>)
    ensures
        spec_resolve(root, requested) matches Ok(p) ==> confined_to_root(root, p),
{
    if let Some(q) = requested {
        if !request_rejected(q) {
            let rel = strip_leading_seps_spec(q);
            if rel.len() > 0 {
                let p = root + seq!['/'] + rel;
                assert(p.subrange(0, root.len() as int) =~= root);
                assert(p[root.len() as int] == '/');
            }
        }
    }
}

// ---------------------------------------------------------------------------
// Executable resolver.
// ---------------------------------------------------------------------------

fn hex_value(b: u8) -> (r: u8)
    requires
        is_hex_digit(b),
    ensures
        r == hex_digit_value(b),
        r <= 15,
{
    if 48 <= b && b <= 57 {
        b - 48
    } else if 65 <= b && b <= 70 {
        b - 65 + 10
    } else {
        b - 97 + 10
    }
}

fn is_hex(b: u8) -> (r: bool)
    ensures
        r == is_hex_digit(b),
{
    (48 <= b && b <= 57) || (65 <= b && b <= 70) || (97 <= b && b <= 102)
}

/// Decode every `%xy` hex triple of `v` to the byte it names.
pub fn percent_decode(v: &[u8]) -> (r: Vec<u8>)
    ensures
        r@ == percent_decoded(v@),
{
    let mut out: Vec<u8> = Vec::new();
    let mut i: usize = 0;
    proof {
        assert(v@.skip(0) =~= v@);
    }
    while i < v.len()
        invariant
            i <= v@.len(),
            out@ + percent_decoded(v@.skip(i as int)) == percent_decoded(v@),
        decreases v@.len() - i,
    {
        let b = v[i];
        if b == 37 && v.len() - i >= 3 && is_hex(v[i + 1]) && is_hex(v[i + 2]) {
            let d = hex_value(v[i + 1]) * 16 + hex_value(v[i + 2]);
            proof {
                let rest = v@.skip(i as int);
                assert(rest[0] == v@[i as int]);
                assert(rest[1] == v@[i as int + 1]);
                assert(rest[2] == v@[i as int + 2]);
                assert(rest.skip(3) =~= v@.skip(i as int + 3));
                assert(out@ + seq![d] + percent_decoded(v@.skip(i as int + 3)) == out@
                    + percent_decoded(v@.skip(i as int)));
            }
            out.push(d);
            i += 3;
        } else {
            proof {
                let rest = v@.skip(i as int);
                assert(rest[0] == v@[i as int]);
                if rest[0] == 37 && rest.len() >= 3 {
                    assert(rest[1] == v@[i as int + 1]);
                    assert(rest[2] == v@[i as int + 2]);
                }
                assert(rest.skip(1) =~= v@.skip(i as int + 1));
                assert(out@ + seq![v@[i as int]] + percent_decoded(v@.skip(i as int + 1)) == out@
                    + percent_decoded(v@.skip(i as int)));
            }
            out.push(b);
            i += 1;
        }
    }
    proof {
        assert(v@.skip(i as int) =~= Seq::<u8>::empty());
        assert(out@ + percent_decoded(v@.skip(i as int)) =~= out@);
    }
    out
}

/// Does `v` hold a whole `..` segment?
pub fn contains_dot_dot_segment(v: &[u8]) -> (r: bool)
    ensures
        r == has_dot_dot_segment(v@),
{
    let mut i: usize = 0;
    while i < v.len()
        invariant
            i <= v@.len(),
            forall|j: int| 0 <= j < i ==> !dot_dot_at(v@, j),
        decreases v@.len() - i,
    {
        if v.len() - i >= 2 && v[i] == 46 && v[i + 1] == 46 && (i == 0 || v[i - 1] == 47 || v[i - 1]
            == 92) && (i + 2 == v.len() || v[i + 2] == 47 || v[i + 2] == 92) {
            proof {
                assert(dot_dot_at(v@, i as int));
            }
            return true;
        }
        i += 1;
    }
    proof {
        assert forall|j: int| !dot_dot_at(v@, j) by {
            if 0 <= j && j + 2 <= v@.len() {
                assert(j < i as int);
            }
        }
    }
    false
}

/// Remove every leading `/` or `\` from `s`, so that a request is never
/// interpreted as an absolute path.
pub fn strip_leading_separators(s: &str) -> (r: &str)
    ensures
        r@ == strip_leading_seps_spec(s@),
{
    let n = s.unicode_len();
    let mut k: usize = 0;
    proof {
        assert(s@.skip(0) =~= s@);
    }
    loop
        invariant_except_break
            k <= n,
            n == s@.len(),
            strip_leading_seps_spec(s@) == strip_leading_seps_spec(s@.skip(k as int)),
        ensures
            k <= n,
            n == s@.len(),
            strip_leading_seps_spec(s@) == s@.skip(k as int),
        decreases n - k,
    {
        if k < n {
            let c = s.get_char(k);
            if c == '/' || c == '\\' {
                proof {
                    let rest = s@.skip(k as int);
                    assert(rest[0] == s@[k as int]);
                    assert(rest.drop_first() =~= s@.skip(k as int + 1));
                }
                k += 1;
            } else {
                proof {
                    let rest = s@.skip(k as int);
                    assert(rest[0] == s@[k as int]);
                }
                break ;
            }
        } else {
            proof {
                assert(s@.skip(k as int) =~= Seq::<char>::empty());
            }
            break ;
        }
    }
    let r = s.substring_char(k, n);
    proof {
        assert(r@ =~= s@.skip(k as int));
    }
    r
}

/// Decide whether the resolver would reject this request: after stripping
/// leading separators it holds a `..` segment, raw or percent-encoded.
/// `init_upload` applies the same predicate to a session's target
/// directory, so a target the resolver would refuse is refused up front.
pub fn request_is_rejected(q: &str) -> (r: bool)
    ensures
        r == request_rejected(q@),
{
    let rel = strip_leading_separators(q);
    let raw = rel.as_bytes();
    if contains_dot_dot_segment(raw) {
        return true;
    }
    let decoded = percent_decode(raw);
    contains_dot_dot_segment(decoded.as_slice())
}

/// Resolve a client-supplied relative path under a storage root.
///
/// The request is never read as absolute (leading separators are stripped),
/// and any `..` segment -- raw or percent-encoded -- is rejected as a
/// `PathViolation`. On success the returned path is the root itself or the
/// root followed by `/` and the stripped request, so it is confined to the
/// root by construction. The caller remains responsible for re-checking the
/// canonical form against symlink escapes with [`is_within_root`] once the
/// filesystem has been consulted.
pub fn resolve(root: &str, requested: Option<&str>) -> (r: Result<String, TransferError>)
    ensures
        match r {
            Ok(p) => spec_resolve(root@, opt_str_view(requested)) == Ok::<_, TransferError>(p@),
            Err(e) => spec_resolve(root@, opt_str_view(requested)) == Err::<Seq<char>, _>(e),
        },
        r matches Ok(p) ==> confined_to_root(root@, p@),
{
    proof {
        lemma_resolve_never_escapes(root@, opt_str_view(requested));
    }
    match requested {
        None => Ok(root.to_owned()),
        Some(q) => {
            let rel = strip_leading_separators(q);
            if rel.unicode_len() == 0 {
                proof {
                    assert(encode_utf8(rel@) =~= Seq::<u8>::empty());
                    assert(!has_dot_dot_segment(encode_utf8(rel@)));
                    assert(percent_decoded(encode_utf8(rel@)) =~= Seq::<u8>::empty());
                }
                Ok(root.to_owned())
            } else {
                let raw = rel.as_bytes();
                if contains_dot_dot_segment(raw) {
                    return Err(TransferError::PathViolation);
                }
                let decoded = percent_decode(raw);
                if contains_dot_dot_segment(decoded.as_slice()) {
                    return Err(TransferError::PathViolation);
                }
                let mut out = root.to_owned();
                out.append("/");
                out.append(rel);
                proof {
                    reveal_strlit("/");
                    assert("/"@ =~= seq!['/']);
                }
                Ok(out)
            }
        },
    }
}

/// Decide whether an already-canonical path lies within a canonical root:
/// equal to it, or extending it with `/` on a segment boundary. This is the
/// re-validation applied after the filesystem resolves symlinks.
pub fn is_within_root(root: &str, candidate: &str) -> (r: bool)
    ensures
        r == confined_to_root(root@, candidate@),
{
    let nr = root.unicode_len();
    let nc = candidate.unicode_len();
    if nc < nr {
        return false;
    }
    let mut i: usize = 0;
    while i < nr
        invariant
            i <= nr,
            nr == root@.len(),
            nc == candidate@.len(),
            nc >= nr,
            forall|j: int| 0 <= j < i ==> root@[j] == candidate@[j],
        decreases nr - i,
    {
        if root.get_char(i) != candidate.get_char(i) {
            proof {
                assert(candidate@ != root@);
                if candidate@.subrange(0, nr as int) == root@ {
                    assert(candidate@.subrange(0, nr as int)[i as int] == candidate@[i as int]);
                }
            }
            return false;
        }
        i += 1;
    }
    if nc == nr {
        proof {
            assert(candidate@ =~= root@);
        }
        true
    } else {
        let c = candidate.get_char(nr);
        proof {
            assert(candidate@.subrange(0, nr as int) =~= root@);
        }
        c == '/'
    }
}

} // verus!
