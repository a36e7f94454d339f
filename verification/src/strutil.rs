//! Verified string helpers: the link sentinel check on text and on bytes,
//! the `category.key` placeholder, and placeholder substitution.

use vstd::prelude::*;
use vstd::string::StringSliceAdditionalSpecFns;

verus! {

/// The six characters of the link sentinel, `_link:`.
pub open spec fn link_prefix() -> Seq<char> {
    seq!['_', 'l', 'i', 'n', 'k', ':']
}

/// The six bytes of the link sentinel, `_link:`, in ASCII.
pub open spec fn link_prefix_bytes() -> Seq<u8> {
    seq![95u8, 108u8, 105u8, 110u8, 107u8, 58u8]
}

/// A text payload denotes a link exactly when its first six characters are
/// the sentinel.
pub open spec fn is_link_payload(s: Seq<char>) -> bool {
    s.len() >= 6 && s.subrange(0, 6) == link_prefix()
}

/// The link target: everything after the sentinel, with no trimming.
pub open spec fn link_target(s: Seq<char>) -> Seq<char> {
    s.skip(6)
}

/// A byte payload denotes a link exactly when its first six bytes are the
/// sentinel.
pub open spec fn is_link_payload_bytes(b: Seq<u8>) -> bool {
    b.len() >= 6 && b.subrange(0, 6) == link_prefix_bytes()
}

/// The link target bytes: everything after the sentinel.
pub open spec fn link_target_bytes(b: Seq<u8>) -> Seq<u8> {
    b.skip(6)
}

/// If a payload starts with the `_link:` sentinel, returns the rest of the
/// payload as the link target.
pub fn strip_link_prefix(s: &str) -> (r: Option<String>)
    ensures
        r is Some <==> is_link_payload(s@),
        r matches Some(t) ==> t@ == link_target(s@),
{
    let n = s.unicode_len();
    if n < 6 {
        return None;
    }
    if s.get_char(0) == '_' && s.get_char(1) == 'l' && s.get_char(2) == 'i' && s.get_char(3) == 'n'
        && s.get_char(4) == 'k' && s.get_char(5) == ':' {
        assert(s@.subrange(0, 6) =~= link_prefix());
        Some(s.substring_char(6, n).to_owned())
    } else {
        assert(s@.subrange(0, 6) != link_prefix()) by {
            if s@.subrange(0, 6) == link_prefix() {
                assert(s@.subrange(0, 6)[0] == s@[0]);
                assert(s@.subrange(0, 6)[1] == s@[1]);
                assert(s@.subrange(0, 6)[2] == s@[2]);
                assert(s@.subrange(0, 6)[3] == s@[3]);
                assert(s@.subrange(0, 6)[4] == s@[4]);
                assert(s@.subrange(0, 6)[5] == s@[5]);
            }
        }
        None
    }
}

/// If a byte payload starts with the `_link:` sentinel, returns the bytes
/// after it.
pub fn strip_link_prefix_bytes<'a>(b: &'a [u8]) -> (r: Option<&'a [u8]>)
    ensures
        r is Some <==> is_link_payload_bytes(b@),
        r matches Some(t) ==> t@ == link_target_bytes(b@),
{
    let n = b.len();
    if n < 6 {
        return None;
    }
    if b[0] == 95u8 && b[1] == 108u8 && b[2] == 105u8 && b[3] == 110u8 && b[4] == 107u8 && b[5]
        == 58u8 {
        assert(b@.subrange(0, 6) =~= link_prefix_bytes());
        let tail = vstd::slice::slice_subrange(b, 6, n);
        assert(tail@ =~= link_target_bytes(b@));
        Some(tail)
    } else {
        assert(b@.subrange(0, 6) != link_prefix_bytes()) by {
            if b@.subrange(0, 6) == link_prefix_bytes() {
                assert(b@.subrange(0, 6)[0] == b@[0]);
                assert(b@.subrange(0, 6)[1] == b@[1]);
                assert(b@.subrange(0, 6)[2] == b@[2]);
                assert(b@.subrange(0, 6)[3] == b@[3]);
                assert(b@.subrange(0, 6)[4] == b@[4]);
                assert(b@.subrange(0, 6)[5] == b@[5]);
            }
        }
        None
    }
}

/// Relies on `std::str::from_utf8`: it succeeds exactly on valid UTF-8, and
/// the returned string re-encodes to the input bytes.
#[verifier::external_body]
pub(crate) fn utf8_str(b: &[u8]) -> (r: Option<&str>)
    ensures
        r is Some <==> vstd::utf8::valid_utf8(b@),
        r matches Some(s) ==> s.spec_bytes() == b@,
{
    std::str::from_utf8(b).ok()
}

/// The `category.key` placeholder synthesized for a missing translation.
pub open spec fn placeholder_view(category: Seq<char>, key: Seq<char>) -> Seq<char> {
    category + seq!['.'] + key
}

/// Synthesizes the `category.key` placeholder string.
pub fn placeholder(category: &str, key: &str) -> (r: String)
    ensures
        r@ == placeholder_view(category@, key@),
{
    proof {
        reveal_strlit(".");
    }
    let mut r = category.to_owned();
    r.append(".");
    r.append(key);
    proof {
        assert(r@ =~= placeholder_view(category@, key@));
    }
    r
}

/// `s` with every occurrence of `pat` replaced by `to`: occurrences are
/// found left to right and do not overlap, as `str::replace` finds them.
pub open spec fn replace_all(s: Seq<char>, pat: Seq<char>, to: Seq<char>) -> Seq<char>
    decreases s.len(),
    when pat.len() > 0
{
    if s.len() < pat.len() {
        s
    } else if s.subrange(0, pat.len() as int) == pat {
        to + replace_all(s.skip(pat.len() as int), pat, to)
    } else {
        s.take(1) + replace_all(s.skip(1), pat, to)
    }
}

/// True when `pat` occurs in `s` at position `i`.
fn match_at(s: &str, pat: &str, i: usize, n: usize, m: usize) -> (r: bool)
    requires
        n == s@.len(),
        m == pat@.len(),
        i + m <= n,
    ensures
        r == (s@.subrange(i as int, i + pat@.len()) == pat@),
{
    let mut j: usize = 0;
    while j < m
        invariant
            j <= m,
            n == s@.len(),
            m == pat@.len(),
            i + m <= n,
            forall|x: int| 0 <= x < j ==> s@[i + x] == pat@[x],
        decreases m - j,
    {
        if s.get_char(i + j) != pat.get_char(j) {
            assert(s@.subrange(i as int, i + pat@.len())[j as int] != pat@[j as int]);
            return false;
        }
        j = j + 1;
    }
    assert(s@.subrange(i as int, i + pat@.len()) =~= pat@);
    true
}

/// `s` with every occurrence of `pat` replaced by `to`.
pub fn replace_all_str(s: &str, pat: &str, to: &str) -> (r: String)
    requires
        pat@.len() > 0,
    ensures
        r@ == replace_all(s@, pat@, to@),
{
    let n = s.unicode_len();
    let m = pat.unicode_len();
    let mut out = String::new();
    let mut i: usize = 0;
    proof {
        assert(s@.skip(0) =~= s@);
        assert(out@ + replace_all(s@, pat@, to@) =~= replace_all(s@, pat@, to@));
    }
    while i < n
        invariant
            i <= n,
            n == s@.len(),
            m == pat@.len(),
            m > 0,
            replace_all(s@, pat@, to@) == out@ + replace_all(s@.skip(i as int), pat@, to@),
        decreases n - i,
    {
        let ghost rest = s@.skip(i as int);
        if m <= n - i && match_at(s, pat, i, n, m) {
            proof {
                assert(rest.subrange(0, pat@.len() as int) =~= s@.subrange(i as int, i + m));
                assert(rest.skip(m as int) =~= s@.skip(i + m));
            }
            out.append(to);
            i = i + m;
        } else {
            proof {
                if i + m <= n {
                    assert(rest.subrange(0, pat@.len() as int) =~= s@.subrange(i as int, i + m));
                } else {
                    assert(rest.len() < pat@.len());
                }
                assert(rest.take(1) =~= s@.subrange(i as int, i + 1));
                assert(rest.skip(1) =~= s@.skip(i + 1));
                if rest.len() < pat@.len() {
                    assert(rest =~= rest.take(1) + rest.skip(1));
                    assert(rest.skip(1).len() < pat@.len());
                }
            }
            let piece = s.substring_char(i, i + 1);
            out.append(piece);
            i = i + 1;
        }
    }
    proof {
        assert(s@.skip(n as int) =~= Seq::<char>::empty());
        assert(out@ + Seq::<char>::empty() =~= out@);
    }
    out
}

/// The pattern `{key}` that marks an argument inside a translation.
pub open spec fn brace_pattern(key: Seq<char>) -> Seq<char> {
    seq!['{'] + key + seq!['}']
}

/// Builds the `{key}` pattern for an argument.
pub fn brace_wrap(key: &str) -> (r: String)
    ensures
        r@ == brace_pattern(key@),
        r@.len() > 0,
{
    proof {
        reveal_strlit("{");
        reveal_strlit("}");
    }
    let mut r = String::new();
    r.append("{");
    r.append(key);
    r.append("}");
    proof {
        assert(r@ =~= brace_pattern(key@));
    }
    r
}

/// `s` with each argument applied in order: for every (key, value) pair,
/// every occurrence of `{key}` is replaced by the value.
pub open spec fn apply_args(s: Seq<char>, args: Seq<(String, String)>) -> Seq<char>
    decreases args.len(),
{
    if args.len() == 0 {
        s
    } else {
        apply_args(replace_all(s, brace_pattern(args[0].0@), args[0].1@), args.drop_first())
    }
}

/// Applies every (key, value) argument to `s` in order, replacing each
/// occurrence of `{key}` by the value.
pub fn apply_args_str(s: String, args: &Vec<(String, String)>) -> (r: String)
    ensures
        r@ == apply_args(s@, args@),
{
    let mut out = s;
    let n = args.len();
    let mut i: usize = 0;
    proof {
        assert(args@.skip(0) =~= args@);
    }
    while i < n
        invariant
            i <= n,
            n == args@.len(),
            apply_args(out@, args@.skip(i as int)) == apply_args(s@, args@),
        decreases n - i,
    {
        let ghost rest = args@.skip(i as int);
        proof {
            assert(rest[0] == args@[i as int]);
            assert(rest.drop_first() =~= args@.skip(i + 1));
        }
        let pattern = brace_wrap(args[i].0.as_str());
        out = replace_all_str(out.as_str(), pattern.as_str(), args[i].1.as_str());
        i = i + 1;
    }
    proof {
        assert(args@.skip(n as int) =~= Seq::<(String, String)>::empty());
    }
    out
}

} // verus!
