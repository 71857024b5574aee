//! URI parsing and manipulation, with the portable runtime's rules: the
//! scheme, the authority (user, password, host, port), the path, the query
//! and the fragment; host names in brackets for IPv6; default ports by
//! scheme; and the reverse, a URI put back together under flags.
//!
//! A URI is read as bytes; a part is handed out as a string.

use vstd::prelude::*;
use vstd::string::StringSliceAdditionalSpecFns;
use vstd::utf8::{decode_utf8, valid_utf8};
use crate::base64::has_nul;
use crate::date::{cbyte, decimal_value, is_digit, leading_digits, skip_spaces};
use crate::pool::Pool;
use crate::status::Status;
use crate::text::{
    ascii_lower, bytes_from, bytes_prefix, find_byte, first_index, lemma_first_index_bounds,
    string_from_utf8_lossy, text_of, to_ascii_lower,
};

verus! {

/// The parts of a URI, as bytes; a part that is not there is `None`.
pub struct UriModel {
    pub scheme: Option<Seq<u8>>,
    pub hostinfo: Option<Seq<u8>>,
    pub user: Option<Seq<u8>>,
    pub password: Option<Seq<u8>>,
    pub hostname: Option<Seq<u8>>,
    pub port_str: Option<Seq<u8>>,
    pub path: Option<Seq<u8>>,
    pub query: Option<Seq<u8>>,
    pub fragment: Option<Seq<u8>>,
    pub port: u16,
}

/// A URI with no parts.
pub open spec fn empty_uri() -> UriModel {
    UriModel {
        scheme: None,
        hostinfo: None,
        user: None,
        password: None,
        hostname: None,
        port_str: None,
        path: None,
        query: None,
        fragment: None,
        port: 0,
    }
}

/// An ASCII letter.
pub open spec fn is_alpha(b: u8) -> bool {
    (65 <= b <= 90) || (97 <= b <= 122)
}

/// A character of a scheme after its first: a letter, a digit, `+`, `-`
/// or `.`.
pub open spec fn is_scheme_char(b: u8) -> bool {
    is_alpha(b) || is_digit(b) || b == 43 || b == 45 || b == 46
}

/// The length of the run of scheme characters that starts a text.
pub open spec fn scheme_len(s: Seq<u8>) -> int
    decreases s.len(),
{
    if s.len() > 0 && is_scheme_char(s[0]) {
        1 + scheme_len(s.skip(1))
    } else {
        0
    }
}

/// The length of the path that starts a text: up to `?` or `#`.
pub open spec fn path_len(s: Seq<u8>) -> int
    decreases s.len(),
{
    if s.len() == 0 || s[0] == 63 || s[0] == 35 {
        0
    } else {
        1 + path_len(s.skip(1))
    }
}

/// The length of the authority that starts a text: up to `/`, `?` or `#`.
pub open spec fn hostinfo_len(s: Seq<u8>) -> int
    decreases s.len(),
{
    if s.len() == 0 || s[0] == 47 || s[0] == 63 || s[0] == 35 {
        0
    } else {
        1 + hostinfo_len(s.skip(1))
    }
}

/// The index of the last `@`, or -1.
pub open spec fn last_at(s: Seq<u8>) -> int
    decreases s.len(),
{
    if s.len() == 0 {
        -1
    } else if s.last() == 64 {
        s.len() - 1
    } else {
        last_at(s.drop_last())
    }
}

/// The schemes with a default port, and their ports.
pub open spec fn scheme_table() -> Seq<(Seq<u8>, u16)> {
    seq![
        (seq![104u8, 116u8, 116u8, 112u8], 80u16),
        (seq![102u8, 116u8, 112u8], 21u16),
        (seq![104u8, 116u8, 116u8, 112u8, 115u8], 443u16),
        (seq![103u8, 111u8, 112u8, 104u8, 101u8, 114u8], 70u16),
        (seq![108u8, 100u8, 97u8, 112u8], 389u16),
        (seq![110u8, 110u8, 116u8, 112u8], 119u16),
        (seq![115u8, 110u8, 101u8, 119u8, 115u8], 563u16),
        (seq![105u8, 109u8, 97u8, 112u8], 143u16),
        (seq![112u8, 111u8, 112u8], 110u16),
        (seq![115u8, 105u8, 112u8], 5060u16),
        (seq![114u8, 116u8, 115u8, 112u8], 554u16),
        (seq![119u8, 97u8, 105u8, 115u8], 210u16),
        (seq![122u8, 51u8, 57u8, 46u8, 53u8, 48u8, 114u8], 210u16),
        (seq![122u8, 51u8, 57u8, 46u8, 53u8, 48u8, 115u8], 210u16),
        (seq![112u8, 114u8, 111u8, 115u8, 112u8, 101u8, 114u8, 111u8], 191u16),
        (seq![110u8, 102u8, 115u8], 2049u16),
        (seq![116u8, 105u8, 112u8], 3372u16),
        (seq![97u8, 99u8, 97u8, 112u8], 674u16),
        (seq![116u8, 101u8, 108u8, 110u8, 101u8, 116u8], 23u16),
        (seq![115u8, 115u8, 104u8], 22u16),
    ]
}

/// A text with its ASCII letters in lowercase.
pub open spec fn lower_bytes(s: Seq<u8>) -> Seq<u8> {
    Seq::new(s.len(), |i: int| ascii_lower(s[i]))
}

/// The default port of a scheme, compared without regard to ASCII case,
/// from the table entry `k` on; 0 for an unknown scheme.
pub open spec fn scheme_port_from(s: Seq<u8>, k: int) -> u16
    decreases 20 - k,
{
    if k >= 20 {
        0
    } else if lower_bytes(s) == scheme_table()[k].0 {
        scheme_table()[k].1
    } else {
        scheme_port_from(s, k + 1)
    }
}

/// The default port of a scheme; 0 for an unknown scheme or none.
pub open spec fn scheme_port(s: Option<Seq<u8>>) -> u16 {
    match s {
        None => 0,
        Some(b) => scheme_port_from(b, 0),
    }
}

/// The value that C's `strtol` reads in base 10 (held to the range of a
/// 64-bit `long`), and whether it read the whole text.
pub open spec fn strtol(s: Seq<u8>) -> (int, bool) {
    let i = skip_spaces(s, 0);
    let signed = cbyte(s, i) == 45 || cbyte(s, i) == 43;
    let j = if signed {
        i + 1
    } else {
        i
    };
    let ds = leading_digits(s.skip(j));
    let v = if cbyte(s, i) == 45 {
        -decimal_value(ds)
    } else {
        decimal_value(ds)
    };
    if ds.len() == 0 {
        (0, s.len() == 0)
    } else {
        (
            if v > i64::MAX {
                i64::MAX as int
            } else if v < i64::MIN {
                i64::MIN as int
            } else {
                v
            },
            j + ds.len() == s.len(),
        )
    }
}

/// The path, query and fragment of a text.
pub open spec fn with_path(u: UriModel, s: Seq<u8>) -> UriModel {
    let p = path_len(s);
    let u1 = if p > 0 {
        UriModel { path: Some(s.take(p)), ..u }
    } else {
        u
    };
    if p >= s.len() {
        u1
    } else if s[p] == 63 {
        let rest = s.skip(p + 1);
        let h = first_index(rest, 35);
        if h < rest.len() {
            UriModel { fragment: Some(rest.skip(h + 1)), query: Some(rest.take(h)), ..u1 }
        } else {
            UriModel { query: Some(rest), ..u1 }
        }
    } else {
        UriModel { fragment: Some(s.skip(p + 1)), ..u1 }
    }
}

/// The port after the host: its number where there is one (the whole text
/// must be a number), else the scheme's default port.
pub open spec fn with_port(u: UriModel, ps: Seq<u8>, rest: Seq<u8>) -> Result<UriModel, ()> {
    let u1 = UriModel { port_str: Some(ps), ..u };
    if ps.len() > 0 {
        if strtol(ps).1 {
            Ok(with_path(UriModel { port: strtol(ps).0 as u16, ..u1 }, rest))
        } else {
            Err(())
        }
    } else {
        Ok(with_path(UriModel { port: scheme_port(u.scheme), ..u1 }, rest))
    }
}

/// The host and port of an authority `h`, then the rest of the URI: an
/// IPv6 host is in brackets.
pub open spec fn with_host(u: UriModel, h: Seq<u8>, rest: Seq<u8>) -> Result<UriModel, ()> {
    if cbyte(h, 0) == 91 {
        let k = first_index(h, 93);
        if k >= h.len() {
            Err(())
        } else if cbyte(h, k + 1) != 58 {
            Ok(with_path(UriModel { hostname: Some(h.subrange(1, h.len() - 1)), ..u }, rest))
        } else {
            with_port(UriModel { hostname: Some(h.subrange(1, k)), ..u }, h.skip(k + 2), rest)
        }
    } else {
        let c = first_index(h, 58);
        if c >= h.len() {
            Ok(with_path(UriModel { hostname: Some(h), ..u }, rest))
        } else {
            with_port(UriModel { hostname: Some(h.take(c)), ..u }, h.skip(c + 1), rest)
        }
    }
}

/// The authority that starts a text (user and password before the last
/// `@`), then the rest of the URI.
pub open spec fn with_authority(u: UriModel, s: Seq<u8>) -> Result<UriModel, ()> {
    let e = hostinfo_len(s);
    let h = s.take(e);
    let rest = s.skip(e);
    let u1 = UriModel { hostinfo: Some(h), ..u };
    let a = last_at(h);
    if a < 0 {
        with_host(u1, h, rest)
    } else {
        let ui = h.take(a);
        let c = first_index(ui, 58);
        let u2 = if c < ui.len() {
            UriModel { user: Some(ui.take(c)), password: Some(ui.skip(c + 1)), ..u1 }
        } else {
            UriModel { user: Some(ui), ..u1 }
        };
        with_host(u2, h.skip(a + 1), rest)
    }
}

/// What `apr_uri_parse` makes of a URI: a scheme is a letter followed by
/// scheme characters and `:`; `//` starts an authority (a path that starts
/// with `///` has none).
pub open spec fn spec_uri_parse(s: Seq<u8>) -> Result<UriModel, ()> {
    let u = empty_uri();
    if cbyte(s, 0) == 47 {
        if cbyte(s, 1) == 47 && cbyte(s, 2) != 47 {
            with_authority(u, s.skip(2))
        } else {
            Ok(with_path(u, s))
        }
    } else if !is_alpha(cbyte(s, 0)) {
        Ok(with_path(u, s))
    } else {
        let j = 1 + scheme_len(s.skip(1));
        if cbyte(s, j) != 58 {
            Ok(with_path(u, s))
        } else {
            let u1 = UriModel { scheme: Some(s.take(j)), ..u };
            if cbyte(s, j + 1) != 47 || cbyte(s, j + 2) != 47 {
                Ok(with_path(u1, s.skip(j + 1)))
            } else {
                with_authority(u1, s.skip(j + 3))
            }
        }
    }
}

/// What `apr_uri_parse_hostinfo` makes of `host:port`: the port must be
/// there and be a number; an IPv6 host is in brackets.
pub open spec fn spec_parse_hostinfo(h: Seq<u8>) -> Result<UriModel, ()> {
    let u = UriModel { hostinfo: Some(h), ..empty_uri() };
    let (hostname, ps) = if cbyte(h, 0) == 91 {
        let k = first_index(h, 93);
        (h.subrange(1, k), h.skip(k + 2))
    } else {
        let c = first_index(h, 58);
        (h.take(c), h.skip(c + 1))
    };
    let found = if cbyte(h, 0) == 91 {
        first_index(h, 93) < h.len() && cbyte(h, first_index(h, 93) + 1) == 58
    } else {
        first_index(h, 58) < h.len()
    };
    if !found || ps.len() == 0 || !strtol(ps).1 {
        Err(())
    } else {
        Ok(
            UriModel {
                hostname: Some(hostname),
                port_str: Some(ps),
                port: strtol(ps).0 as u16,
                ..u
            },
        )
    }
}


/// Whether a text is `a`, a `#`, then `f`, where `a` holds no `#`.
pub open spec fn split_at_hash(t: Seq<u8>, a: Seq<u8>, f: Seq<u8>) -> bool {
    t == a + seq![35u8] + f && !a.contains(35u8)
}

/// What follows a prefix of the part before the `#` still splits there.
proof fn lemma_split_skip(t: Seq<u8>, a: Seq<u8>, f: Seq<u8>, k: int)
    requires
        split_at_hash(t, a, f),
        0 <= k <= a.len(),
    ensures
        split_at_hash(t.skip(k), a.skip(k), f),
{
    assert(t.skip(k) =~= a.skip(k) + seq![35u8] + f);
    if a.skip(k).contains(35u8) {
        let i = choose|i: int| 0 <= i < a.skip(k).len() && a.skip(k)[i] == 35u8;
        assert(a[i + k] == 35u8);
    }
}

/// The path, the authority and the scheme stop before the `#`; the path
/// stops either at the `#` or at a `?` before it.
proof fn lemma_scans_stop(t: Seq<u8>, a: Seq<u8>, f: Seq<u8>)
    requires
        split_at_hash(t, a, f),
    ensures
        0 <= path_len(t) <= a.len(),
        path_len(t) < a.len() ==> t[path_len(t)] == 63,
        0 <= hostinfo_len(t),
        0 <= scheme_len(t),
        hostinfo_len(t) <= a.len(),
        scheme_len(t) <= a.len(),
    decreases a.len(),
{
    assert(t[a.len() as int] == 35);
    if a.len() > 0 {
        assert(t[0] == a[0]);
        assert(a[0] != 35) by {
            if a[0] == 35 {
                assert(a.contains(35u8));
            }
        }
        lemma_split_skip(t, a, f, 1);
        lemma_scans_stop(t.skip(1), a.skip(1), f);
        if t[0] != 63 && t[0] != 35 {
            assert(path_len(t) == 1 + path_len(t.skip(1)));
            if path_len(t) < a.len() {
                assert(t[path_len(t)] == t.skip(1)[path_len(t.skip(1))]);
            }
        }
    }
}

/// With the text after the path split at a `#`, the fragment is what
/// follows the `#`, whatever the parts before.
proof fn lemma_path_fragment(v: UriModel, t: Seq<u8>, a: Seq<u8>, f: Seq<u8>)
    requires
        split_at_hash(t, a, f),
    ensures
        with_path(v, t).fragment == Some(f),
{
    lemma_scans_stop(t, a, f);
    let p = path_len(t);
    assert(t[a.len() as int] == 35);
    if p < a.len() {
        assert(t[p] == 63);
        lemma_split_skip(t, a, f, p + 1);
        let rest = t.skip(p + 1);
        let ar = a.skip(p + 1);
        assert forall|j: int| 0 <= j < ar.len() implies rest[j] != 35 by {
            assert(rest[j] == ar[j]);
            if ar[j] == 35 {
                assert(ar.contains(35u8));
            }
        }
        assert(rest[ar.len() as int] == 35);
        crate::text::lemma_first_index(rest, 35u8, ar.len() as int);
        assert(rest.skip(ar.len() as int + 1) =~= f);
    } else {
        assert(p == a.len());
        assert(t.skip(p + 1) =~= f);
    }
}

/// Whether a reading, when it succeeds, has the fragment `f`.
pub open spec fn fragment_is(r: Result<UriModel, ()>, f: Seq<u8>) -> bool {
    r matches Ok(m) ==> m.fragment == Some(f)
}

/// A host and port, then a rest split at a `#`: whatever is read, the
/// fragment is what follows the `#`.
proof fn lemma_host_fragment(u: UriModel, h: Seq<u8>, rest: Seq<u8>, a: Seq<u8>, f: Seq<u8>)
    requires
        split_at_hash(rest, a, f),
    ensures
        fragment_is(with_host(u, h, rest), f),
        forall|v: UriModel, ps: Seq<u8>| fragment_is(#[trigger] with_port(v, ps, rest), f),
{
    assert forall|v: UriModel, ps: Seq<u8>| fragment_is(#[trigger] with_port(v, ps, rest), f) by {
        let u1 = UriModel { port_str: Some(ps), ..v };
        lemma_path_fragment(UriModel { port: strtol(ps).0 as u16, ..u1 }, rest, a, f);
        lemma_path_fragment(UriModel { port: scheme_port(v.scheme), ..u1 }, rest, a, f);
    }
    lemma_path_fragment(UriModel { hostname: Some(h.subrange(1, h.len() - 1)), ..u }, rest, a, f);
    lemma_path_fragment(UriModel { hostname: Some(h), ..u }, rest, a, f);
}

/// An authority, then a rest split at a `#`: the fragment is what follows
/// the `#`.
proof fn lemma_authority_fragment(u: UriModel, t: Seq<u8>, a: Seq<u8>, f: Seq<u8>)
    requires
        split_at_hash(t, a, f),
    ensures
        fragment_is(with_authority(u, t), f),
{
    lemma_scans_stop(t, a, f);
    let e = hostinfo_len(t);
    lemma_split_skip(t, a, f, e);
    let h = t.take(e);
    let rest = t.skip(e);
    let u1 = UriModel { hostinfo: Some(h), ..u };
    let at = last_at(h);
    lemma_host_fragment(u1, h, rest, a.skip(e), f);
    if at >= 0 {
        let ui = h.take(at);
        let c = first_index(ui, 58);
        let u2 = if c < ui.len() {
            UriModel { user: Some(ui.take(c)), password: Some(ui.skip(c + 1)), ..u1 }
        } else {
            UriModel { user: Some(ui), ..u1 }
        };
        lemma_host_fragment(u2, h.skip(at + 1), rest, a.skip(e), f);
    }
}

/// A URI whose text is `a#f`, where `a` holds no `#`, has the fragment
/// `f`: exactly what follows the first `#`, without it, whether or not a
/// query comes before.
pub proof fn law_uri_fragment(a: Seq<u8>, f: Seq<u8>)
    requires
        !a.contains(35u8),
    ensures
        spec_uri_parse(a + seq![35u8] + f) matches Ok(m) ==> m.fragment == Some(f),
        spec_uri_parse(a + seq![35u8] + f) matches Ok(m) ==> exists|x: Seq<u8>|
            #[trigger] unparse_bytes(m, 0) == x + seq![35u8] + f,
{
    let s = a + seq![35u8] + f;
    assert(split_at_hash(s, a, f));
    assert(s[a.len() as int] == 35);
    let u = empty_uri();
    lemma_path_fragment(u, s, a, f);
    if cbyte(s, 0) == 47 {
        if cbyte(s, 1) == 47 && cbyte(s, 2) != 47 {
            assert(a.len() >= 2);
            lemma_split_skip(s, a, f, 2);
            lemma_authority_fragment(u, s.skip(2), a.skip(2), f);
        }
    } else if is_alpha(cbyte(s, 0)) {
        assert(a.len() >= 1);
        lemma_split_skip(s, a, f, 1);
        lemma_scans_stop(s.skip(1), a.skip(1), f);
        let j = 1 + scheme_len(s.skip(1));
        if cbyte(s, j) == 58 {
            assert(j < a.len());
            let u1 = UriModel { scheme: Some(s.take(j)), ..u };
            if cbyte(s, j + 1) != 47 || cbyte(s, j + 2) != 47 {
                lemma_split_skip(s, a, f, j + 1);
                lemma_path_fragment(u1, s.skip(j + 1), a.skip(j + 1), f);
            } else {
                assert(j + 2 < a.len());
                lemma_split_skip(s, a, f, j + 3);
                lemma_authority_fragment(u1, s.skip(j + 3), a.skip(j + 3), f);
            }
        }
    }
    if spec_uri_parse(s) is Ok {
        let m = spec_uri_parse(s)->Ok_0;
        assert(0u32 & APR_URI_UNP_OMITQUERY == 0) by (bit_vector);
        assert(0u32 & APR_URI_UNP_OMITSITEPART == 0) by (bit_vector);
        assert(0u32 & APR_URI_UNP_OMITPATHINFO == 0) by (bit_vector);
        let x = site_bytes(m, 0) + or_empty(m.path) + (if m.query is Some {
            seq![63u8] + or_empty(m.query)
        } else {
            seq![]
        });
        assert(unparse_bytes(m, 0) =~= x + seq![35u8] + f);
    }
}

/// Whether a reading, when it succeeds, has a property.
pub open spec fn holds_for(r: Result<UriModel, ()>, p: spec_fn(UriModel) -> bool) -> bool {
    r matches Ok(m) ==> p(m)
}

/// The authority and the scheme stop at or before a `?` or `#`.
proof fn lemma_scans_before(t: Seq<u8>, i: int)
    requires
        0 <= i < t.len(),
        t[i] == 63 || t[i] == 35,
    ensures
        0 <= hostinfo_len(t) <= i,
        0 <= scheme_len(t) <= i,
    decreases i,
{
    if i > 0 && t[0] != 47 && t[0] != 63 && t[0] != 35 {
        lemma_scans_before(t.skip(1), i - 1);
    }
}

/// The path stops at the first `?` or `#`.
proof fn lemma_path_len_at(t: Seq<u8>, i: int)
    requires
        0 <= i < t.len(),
        t[i] == 63 || t[i] == 35,
        forall|j: int| 0 <= j < i ==> t[j] != 63 && t[j] != 35,
    ensures
        path_len(t) == i,
    decreases i,
{
    if i > 0 {
        lemma_path_len_at(t.skip(1), i - 1);
    }
}

/// A host and port, then a rest whose reading has a property whatever
/// came before: the reading of the whole has it.
proof fn lemma_host_holds(u: UriModel, h: Seq<u8>, rest: Seq<u8>, p: spec_fn(UriModel) -> bool)
    requires
        forall|v: UriModel| #[trigger] p(with_path(v, rest)),
    ensures
        holds_for(with_host(u, h, rest), p),
        forall|v: UriModel, ps: Seq<u8>| holds_for(#[trigger] with_port(v, ps, rest), p),
{
    assert forall|v: UriModel, ps: Seq<u8>| holds_for(#[trigger] with_port(v, ps, rest), p) by {
        let u1 = UriModel { port_str: Some(ps), ..v };
        assert(p(with_path(UriModel { port: strtol(ps).0 as u16, ..u1 }, rest)));
        assert(p(with_path(UriModel { port: scheme_port(v.scheme), ..u1 }, rest)));
    }
    assert(p(with_path(UriModel { hostname: Some(h.subrange(1, h.len() - 1)), ..u }, rest)));
    assert(p(with_path(UriModel { hostname: Some(h), ..u }, rest)));
}

/// An authority, then a rest whose reading has a property whatever came
/// before: the reading of the whole has it.
proof fn lemma_authority_holds(u: UriModel, t: Seq<u8>, p: spec_fn(UriModel) -> bool)
    requires
        0 <= hostinfo_len(t) <= t.len(),
        forall|v: UriModel| #[trigger] p(with_path(v, t.skip(hostinfo_len(t)))),
    ensures
        holds_for(with_authority(u, t), p),
{
    let e = hostinfo_len(t);
    let h = t.take(e);
    let rest = t.skip(e);
    let u1 = UriModel { hostinfo: Some(h), ..u };
    let at = last_at(h);
    lemma_host_holds(u1, h, rest, p);
    if at >= 0 {
        let ui = h.take(at);
        let c = first_index(ui, 58);
        let u2 = if c < ui.len() {
            UriModel { user: Some(ui.take(c)), password: Some(ui.skip(c + 1)), ..u1 }
        } else {
            UriModel { user: Some(ui), ..u1 }
        };
        lemma_host_holds(u2, h.skip(at + 1), rest, p);
    }
}

/// The reading of a URI `a?q#f`, where `a` holds no `?` and no `#` and `q`
/// no `#`: its query is `q` and its fragment `f`, each without the mark
/// before it.
pub proof fn law_uri_query(a: Seq<u8>, q: Seq<u8>, f: Seq<u8>)
    requires
        !a.contains(63u8),
        !a.contains(35u8),
        !q.contains(35u8),
    ensures
        spec_uri_parse(a + seq![63u8] + q + seq![35u8] + f) matches Ok(m) ==> m.query == Some(q)
            && m.fragment == Some(f),
{
    let s = a + seq![63u8] + q + seq![35u8] + f;
    let pr = |m: UriModel| m.query == Some(q) && m.fragment == Some(f);
    assert(s[a.len() as int] == 63);
    assert forall|k: int, v: UriModel| 0 <= k <= a.len() implies #[trigger] pr(
        with_path(v, s.skip(k)),
    ) by {
        let t = s.skip(k);
        let i = a.len() - k;
        assert(t[i] == 63);
        assert forall|j: int| 0 <= j < i implies t[j] != 63 && t[j] != 35 by {
            assert(t[j] == a[j + k]);
            if a[j + k] == 63 {
                assert(a.contains(63u8));
            }
            if a[j + k] == 35 {
                assert(a.contains(35u8));
            }
        }
        lemma_path_len_at(t, i);
        let rest = t.skip(i + 1);
        assert(rest =~= q + seq![35u8] + f);
        assert forall|j: int| 0 <= j < q.len() implies rest[j] != 35 by {
            assert(rest[j] == q[j]);
            if q[j] == 35 {
                assert(q.contains(35u8));
            }
        }
        crate::text::lemma_first_index(rest, 35u8, q.len() as int);
        assert(rest.take(q.len() as int) =~= q);
        assert(rest.skip(q.len() as int + 1) =~= f);
    }
    assert(s.skip(0) =~= s);
    let u = empty_uri();
    assert(pr(with_path(u, s.skip(0))));
    if cbyte(s, 0) == 47 {
        if cbyte(s, 1) == 47 && cbyte(s, 2) != 47 {
            assert(a.len() >= 2);
            let t = s.skip(2);
            assert(t[a.len() - 2] == 63);
            lemma_scans_before(t, a.len() - 2);
            assert(t.skip(hostinfo_len(t)) =~= s.skip(2 + hostinfo_len(t)));
            assert forall|v: UriModel| #[trigger] pr(with_path(v, t.skip(hostinfo_len(t)))) by {
                assert(pr(with_path(v, s.skip(2 + hostinfo_len(t)))));
            }
            lemma_authority_holds(u, t, pr);
        }
    } else if is_alpha(cbyte(s, 0)) {
        assert(a.len() >= 1);
        let t1 = s.skip(1);
        assert(t1[a.len() - 1] == 63);
        lemma_scans_before(t1, a.len() - 1);
        let j = 1 + scheme_len(t1);
        if cbyte(s, j) == 58 {
            assert(j < a.len());
            let u1 = UriModel { scheme: Some(s.take(j)), ..u };
            if cbyte(s, j + 1) != 47 || cbyte(s, j + 2) != 47 {
                assert(pr(with_path(u1, s.skip(j + 1))));
            } else {
                assert(j + 2 < a.len());
                let t = s.skip(j + 3);
                assert(t[a.len() - j - 3] == 63);
                lemma_scans_before(t, a.len() - j - 3);
                assert(t.skip(hostinfo_len(t)) =~= s.skip(j + 3 + hostinfo_len(t)));
                assert forall|v: UriModel| #[trigger] pr(with_path(v, t.skip(hostinfo_len(t)))) by {
                    assert(pr(with_path(v, s.skip(j + 3 + hostinfo_len(t)))));
                }
                lemma_authority_holds(u1, t, pr);
            }
        }
    }
}

/// The run of scheme characters ends at the first byte that is not one.
proof fn lemma_scheme_len_at(t: Seq<u8>, i: int)
    requires
        0 <= i < t.len(),
        forall|j: int| 0 <= j < i ==> is_scheme_char(#[trigger] t[j]),
        !is_scheme_char(t[i]),
    ensures
        scheme_len(t) == i,
    decreases i,
{
    if i > 0 {
        lemma_scheme_len_at(t.skip(1), i - 1);
    }
}

/// The authority ends at the first `/`, `?` or `#`.
proof fn lemma_hostinfo_len_at(t: Seq<u8>, i: int)
    requires
        0 <= i < t.len(),
        forall|j: int| 0 <= j < i ==> #[trigger] t[j] != 47 && t[j] != 63 && t[j] != 35,
        t[i] == 47 || t[i] == 63 || t[i] == 35,
    ensures
        hostinfo_len(t) == i,
    decreases i,
{
    if i > 0 {
        lemma_hostinfo_len_at(t.skip(1), i - 1);
    }
}

/// A text with no `@` has none to be found.
proof fn lemma_no_at(h: Seq<u8>)
    requires
        !h.contains(64u8),
    ensures
        last_at(h) == -1,
    decreases h.len(),
{
    if h.len() > 0 {
        assert(h.last() != 64) by {
            if h.last() == 64 {
                assert(h[h.len() - 1] == 64);
            }
        }
        assert(!h.drop_last().contains(64u8)) by {
            if h.drop_last().contains(64u8) {
                let k = choose|k: int| 0 <= k < h.drop_last().len() && h.drop_last()[k] == 64u8;
                assert(h[k] == 64);
            }
        }
        lemma_no_at(h.drop_last());
    }
}

/// A URI `scheme://host:port/path` gives each part as written: the scheme,
/// the host name, the port as its number, and the path (with its `/`),
/// and no query and no fragment.
pub proof fn law_uri_authority(sc: Seq<u8>, h: Seq<u8>, ds: Seq<u8>, p: Seq<u8>)
    requires
        sc.len() > 0,
        is_alpha(sc[0]),
        forall|i: int| 0 <= i < sc.len() ==> is_scheme_char(#[trigger] sc[i]),
        h.len() > 0,
        h[0] != 91,
        forall|i: int|
            0 <= i < h.len() ==> #[trigger] h[i] != 58 && h[i] != 47 && h[i] != 63 && h[i] != 35
                && h[i] != 64,
        0 < ds.len() <= 5,
        forall|i: int| 0 <= i < ds.len() ==> is_digit(#[trigger] ds[i]),
        decimal_value(ds) < 0x10000,
        p.len() > 0,
        p[0] == 47,
        forall|i: int| 0 <= i < p.len() ==> #[trigger] p[i] != 63 && p[i] != 35,
    ensures
        spec_uri_parse(sc + seq![58u8, 47u8, 47u8] + h + seq![58u8] + ds + p) == Ok::<UriModel, ()>(
            UriModel {
                scheme: Some(sc),
                hostinfo: Some(h + seq![58u8] + ds),
                hostname: Some(h),
                port_str: Some(ds),
                port: decimal_value(ds) as u16,
                path: Some(p),
                ..empty_uri()
            },
        ),
{
    let s = sc + seq![58u8, 47u8, 47u8] + h + seq![58u8] + ds + p;
    let n = sc.len() as int;
    assert(s[0] == sc[0]);
    let t1 = s.skip(1);
    assert forall|j: int| 0 <= j < n - 1 implies is_scheme_char(#[trigger] t1[j]) by {
        assert(t1[j] == sc[j + 1]);
    }
    assert(t1[n - 1] == 58);
    lemma_scheme_len_at(t1, n - 1);
    assert(cbyte(s, n) == 58);
    assert(cbyte(s, n + 1) == 47);
    assert(cbyte(s, n + 2) == 47);
    assert(s.take(n) =~= sc);
    let t = s.skip(n + 3);
    assert(t =~= h + seq![58u8] + ds + p);
    let e = h.len() + 1 + ds.len() as int;
    assert forall|j: int| 0 <= j < e implies #[trigger] t[j] != 47 && t[j] != 63 && t[j] != 35 by {
        if j < h.len() {
            assert(t[j] == h[j]);
        } else if j > h.len() {
            assert(t[j] == ds[j - h.len() - 1]);
        }
    }
    assert(t[e] == p[0]);
    lemma_hostinfo_len_at(t, e);
    let hi = t.take(e);
    assert(hi =~= h + seq![58u8] + ds);
    assert(t.skip(e) =~= p);
    assert(!hi.contains(64u8)) by {
        if hi.contains(64u8) {
            let k = choose|k: int| 0 <= k < hi.len() && hi[k] == 64u8;
            if k < h.len() {
                assert(hi[k] == h[k]);
            } else if k > h.len() {
                assert(hi[k] == ds[k - h.len() - 1]);
            }
        }
    }
    lemma_no_at(hi);
    assert(cbyte(hi, 0) == h[0]);
    assert forall|j: int| 0 <= j < h.len() implies hi[j] != 58 by {
        assert(hi[j] == h[j]);
    }
    crate::text::lemma_first_index(hi, 58u8, h.len() as int);
    assert(hi.take(h.len() as int) =~= h);
    assert(hi.skip(h.len() as int + 1) =~= ds);
    assert(skip_spaces(ds, 0) == 0);
    assert(ds.skip(0) =~= ds);
    crate::date::lemma_leading_exact(ds, ds.len() as int);
    assert(ds.take(ds.len() as int) =~= ds);
    crate::date::lemma_decimal_nonneg(ds);
    assert(strtol(ds) == (decimal_value(ds), true));
    assert forall|j: int| 0 <= j < p.len() implies p[j] != 63 && p[j] != 35 by {
    }
    lemma_path_len_all(p);
    assert(p.take(p.len() as int) =~= p);
}

/// A text with no `?` and no `#` is all path.
proof fn lemma_path_len_all(p: Seq<u8>)
    requires
        forall|i: int| 0 <= i < p.len() ==> #[trigger] p[i] != 63 && p[i] != 35,
    ensures
        path_len(p) == p.len(),
    decreases p.len(),
{
    if p.len() > 0 {
        lemma_path_len_all(p.skip(1));
    }
}

// ---------------------------------------------------------------------------
// Scanning, as code
// ---------------------------------------------------------------------------

/// The length of the run of scheme characters that starts a text, as code.
fn scheme_len_exec(s: &[u8], from: usize) -> (r: usize)
    requires
        from <= s@.len(),
    ensures
        r == scheme_len(s@.skip(from as int)),
        from + r <= s@.len(),
{
    let mut i: usize = from;
    while i < s.len() && (is_alpha_exec(s[i]) || (48 <= s[i] && s[i] <= 57) || s[i] == 43 || s[i]
        == 45 || s[i] == 46)
        invariant
            from <= i <= s@.len(),
            scheme_len(s@.skip(from as int)) == (i - from) + scheme_len(s@.skip(i as int)),
        decreases s@.len() - i,
    {
        proof {
            assert(s@.skip(i as int).skip(1) =~= s@.skip(i + 1));
        }
        i = i + 1;
    }
    i - from
}

/// Whether a byte is an ASCII letter, as code.
fn is_alpha_exec(b: u8) -> (r: bool)
    ensures
        r == is_alpha(b),
{
    (65 <= b && b <= 90) || (97 <= b && b <= 122)
}

/// The length of the path that starts a text, as code.
fn path_len_exec(s: &[u8]) -> (r: usize)
    ensures
        r == path_len(s@),
        r <= s@.len(),
{
    let mut i: usize = 0;
    assert(s@.skip(0) =~= s@);
    while i < s.len() && s[i] != 63 && s[i] != 35
        invariant
            i <= s@.len(),
            path_len(s@) == i + path_len(s@.skip(i as int)),
        decreases s@.len() - i,
    {
        proof {
            assert(s@.skip(i as int).skip(1) =~= s@.skip(i + 1));
        }
        i = i + 1;
    }
    i
}

/// The length of the authority that starts a text, as code.
fn hostinfo_len_exec(s: &[u8]) -> (r: usize)
    ensures
        r == hostinfo_len(s@),
        r <= s@.len(),
{
    let mut i: usize = 0;
    assert(s@.skip(0) =~= s@);
    while i < s.len() && s[i] != 47 && s[i] != 63 && s[i] != 35
        invariant
            i <= s@.len(),
            hostinfo_len(s@) == i + hostinfo_len(s@.skip(i as int)),
        decreases s@.len() - i,
    {
        proof {
            assert(s@.skip(i as int).skip(1) =~= s@.skip(i + 1));
        }
        i = i + 1;
    }
    i
}

/// The index of the last `@`, as code; the length when there is none.
fn last_at_exec(s: &[u8]) -> (r: usize)
    ensures
        r < s@.len() ==> r == last_at(s@),
        r >= s@.len() ==> last_at(s@) == -1,
        r <= s@.len(),
{
    let mut i: usize = s.len();
    assert(s@.take(i as int) =~= s@);
    while i > 0 && s[i - 1] != 64
        invariant
            i <= s@.len(),
            last_at(s@) == last_at(s@.take(i as int)),
        decreases i,
    {
        proof {
            assert(s@.take(i as int).drop_last() =~= s@.take(i - 1));
        }
        i = i - 1;
    }
    if i == 0 {
        proof {
            assert(s@.take(0) =~= Seq::<u8>::empty());
        }
        s.len()
    } else {
        i - 1
    }
}

/// What `strtol` reads, as code.
fn strtol_exec(s: &[u8]) -> (r: (i64, bool))
    ensures
        r.0 == strtol(s@).0,
        r.1 == strtol(s@).1,
{
    let mut i: usize = 0;
    while i < s.len() && (s[i] == 32 || (9 <= s[i] && s[i] <= 13))
        invariant
            i <= s@.len(),
            skip_spaces(s@, 0) == skip_spaces(s@, i as int),
        decreases s@.len() - i,
    {
        i = i + 1;
    }
    let c = crate::date::cbyte_exec(s, i);
    let j: usize = if c == 45 || c == 43 {
        i + 1
    } else {
        i
    };
    let ghost u = s@.skip(j as int);
    let ghost ds = leading_digits(u);
    let cap: i128 = 0x8000_0000_0000_0000;
    let mut k: usize = j;
    let mut acc: i128 = 0;
    while k < s.len() && 48 <= s[k] && s[k] <= 57
        invariant
            j <= k <= s@.len(),
            u == s@.skip(j as int),
            forall|m: int| 0 <= m < k - j ==> is_digit(#[trigger] u[m]),
            acc == (if decimal_value(u.take(k - j)) > cap {
                cap as int
            } else {
                decimal_value(u.take(k - j))
            }),
            0 <= acc <= cap,
            cap == 0x8000_0000_0000_0000,
        decreases s@.len() - k,
    {
        proof {
            assert(u.take(k - j + 1).drop_last() =~= u.take(k - j));
            assert(u[k - j] == s@[k as int]);
            assert(all_digits_prefix(u, k - j + 1));
            crate::date::lemma_decimal_nonneg(u.take(k - j));
        }
        let d = (s[k] - 48) as i128;
        acc = if acc >= cap {
            cap
        } else {
            let n = acc * 10 + d;
            if n > cap {
                cap
            } else {
                n
            }
        };
        k = k + 1;
    }
    proof {
        crate::date::lemma_leading_exact(u, k - j);
    }
    if k == j {
        return (0, s.len() == 0);
    }
    let v: i64 = if c == 45 {
        if acc >= cap {
            i64::MIN
        } else {
            -(acc as i64)
        }
    } else {
        if acc >= cap {
            i64::MAX
        } else {
            acc as i64
        }
    };
    (v, k == s.len())
}

/// Whether the first bytes of a text are digits.
spec fn all_digits_prefix(u: Seq<u8>, n: int) -> bool {
    forall|m: int| 0 <= m < n ==> is_digit(#[trigger] u[m])
}

/// An entry of the table of schemes, as code.
fn scheme_entry(k: usize) -> (r: (Vec<u8>, u16))
    requires
        k < 20,
    ensures
        r.0@ == scheme_table()[k as int].0,
        r.1 == scheme_table()[k as int].1,
{
    if k == 0 {
        let a: [u8; 4] = [104u8, 116u8, 116u8, 112u8];
        proof {
            assert(a@ =~= scheme_table()[0].0);
        }
        (bytes_from(&a, 0), 80u16)
    } else if k == 1 {
        let a: [u8; 3] = [102u8, 116u8, 112u8];
        proof {
            assert(a@ =~= scheme_table()[1].0);
        }
        (bytes_from(&a, 0), 21u16)
    } else if k == 2 {
        let a: [u8; 5] = [104u8, 116u8, 116u8, 112u8, 115u8];
        proof {
            assert(a@ =~= scheme_table()[2].0);
        }
        (bytes_from(&a, 0), 443u16)
    } else if k == 3 {
        let a: [u8; 6] = [103u8, 111u8, 112u8, 104u8, 101u8, 114u8];
        proof {
            assert(a@ =~= scheme_table()[3].0);
        }
        (bytes_from(&a, 0), 70u16)
    } else if k == 4 {
        let a: [u8; 4] = [108u8, 100u8, 97u8, 112u8];
        proof {
            assert(a@ =~= scheme_table()[4].0);
        }
        (bytes_from(&a, 0), 389u16)
    } else if k == 5 {
        let a: [u8; 4] = [110u8, 110u8, 116u8, 112u8];
        proof {
            assert(a@ =~= scheme_table()[5].0);
        }
        (bytes_from(&a, 0), 119u16)
    } else if k == 6 {
        let a: [u8; 5] = [115u8, 110u8, 101u8, 119u8, 115u8];
        proof {
            assert(a@ =~= scheme_table()[6].0);
        }
        (bytes_from(&a, 0), 563u16)
    } else if k == 7 {
        let a: [u8; 4] = [105u8, 109u8, 97u8, 112u8];
        proof {
            assert(a@ =~= scheme_table()[7].0);
        }
        (bytes_from(&a, 0), 143u16)
    } else if k == 8 {
        let a: [u8; 3] = [112u8, 111u8, 112u8];
        proof {
            assert(a@ =~= scheme_table()[8].0);
        }
        (bytes_from(&a, 0), 110u16)
    } else if k == 9 {
        let a: [u8; 3] = [115u8, 105u8, 112u8];
        proof {
            assert(a@ =~= scheme_table()[9].0);
        }
        (bytes_from(&a, 0), 5060u16)
    } else if k == 10 {
        let a: [u8; 4] = [114u8, 116u8, 115u8, 112u8];
        proof {
            assert(a@ =~= scheme_table()[10].0);
        }
        (bytes_from(&a, 0), 554u16)
    } else if k == 11 {
        let a: [u8; 4] = [119u8, 97u8, 105u8, 115u8];
        proof {
            assert(a@ =~= scheme_table()[11].0);
        }
        (bytes_from(&a, 0), 210u16)
    } else if k == 12 {
        let a: [u8; 7] = [122u8, 51u8, 57u8, 46u8, 53u8, 48u8, 114u8];
        proof {
            assert(a@ =~= scheme_table()[12].0);
        }
        (bytes_from(&a, 0), 210u16)
    } else if k == 13 {
        let a: [u8; 7] = [122u8, 51u8, 57u8, 46u8, 53u8, 48u8, 115u8];
        proof {
            assert(a@ =~= scheme_table()[13].0);
        }
        (bytes_from(&a, 0), 210u16)
    } else if k == 14 {
        let a: [u8; 8] = [112u8, 114u8, 111u8, 115u8, 112u8, 101u8, 114u8, 111u8];
        proof {
            assert(a@ =~= scheme_table()[14].0);
        }
        (bytes_from(&a, 0), 191u16)
    } else if k == 15 {
        let a: [u8; 3] = [110u8, 102u8, 115u8];
        proof {
            assert(a@ =~= scheme_table()[15].0);
        }
        (bytes_from(&a, 0), 2049u16)
    } else if k == 16 {
        let a: [u8; 3] = [116u8, 105u8, 112u8];
        proof {
            assert(a@ =~= scheme_table()[16].0);
        }
        (bytes_from(&a, 0), 3372u16)
    } else if k == 17 {
        let a: [u8; 4] = [97u8, 99u8, 97u8, 112u8];
        proof {
            assert(a@ =~= scheme_table()[17].0);
        }
        (bytes_from(&a, 0), 674u16)
    } else if k == 18 {
        let a: [u8; 6] = [116u8, 101u8, 108u8, 110u8, 101u8, 116u8];
        proof {
            assert(a@ =~= scheme_table()[18].0);
        }
        (bytes_from(&a, 0), 23u16)
    } else {
        let a: [u8; 3] = [115u8, 115u8, 104u8];
        proof {
            assert(a@ =~= scheme_table()[19].0);
        }
        (bytes_from(&a, 0), 22u16)
    }
}

/// The bytes of a range of a slice.
fn bytes_range(s: &[u8], a: usize, b: usize) -> (r: Vec<u8>)
    requires
        a <= b <= s@.len(),
    ensures
        r@ == s@.subrange(a as int, b as int),
{
    let t = bytes_from(s, a);
    let r = bytes_prefix(t.as_slice(), b - a);
    assert(r@ =~= s@.subrange(a as int, b as int));
    r
}

/// A text with its ASCII letters in lowercase, as code.
fn lower_bytes_exec(s: &[u8]) -> (r: Vec<u8>)
    ensures
        r@ == lower_bytes(s@),
{
    let mut r: Vec<u8> = Vec::new();
    let mut i: usize = 0;
    while i < s.len()
        invariant
            i <= s@.len(),
            r@ == lower_bytes(s@).take(i as int),
        decreases s@.len() - i,
    {
        r.push(to_ascii_lower(s[i]));
        proof {
            assert(lower_bytes(s@).take(i + 1) =~= lower_bytes(s@).take(i as int).push(
                ascii_lower(s@[i as int]),
            ));
        }
        i = i + 1;
    }
    assert(r@ =~= lower_bytes(s@));
    r
}

/// Whether two byte slices are equal.
fn same_bytes(a: &[u8], b: &[u8]) -> (r: bool)
    ensures
        r == (a@ == b@),
{
    if a.len() != b.len() {
        return false;
    }
    let mut i: usize = 0;
    while i < a.len()
        invariant
            i <= a@.len() == b@.len(),
            forall|j: int| 0 <= j < i ==> a@[j] == b@[j],
        decreases a@.len() - i,
    {
        if a[i] != b[i] {
            return false;
        }
        i = i + 1;
    }
    assert(a@ =~= b@);
    true
}

/// The default port of a scheme, as code.
fn scheme_port_exec(s: &[u8]) -> (r: u16)
    ensures
        r == scheme_port_from(s@, 0),
{
    let l = lower_bytes_exec(s);
    let mut k: usize = 0;
    while k < 20
        invariant
            k <= 20,
            l@ == lower_bytes(s@),
            scheme_port_from(s@, 0) == scheme_port_from(s@, k as int),
        decreases 20 - k,
    {
        let (name, port) = scheme_entry(k);
        if same_bytes(l.as_slice(), name.as_slice()) {
            return port;
        }
        k = k + 1;
    }
    0
}

/// The parts of a URI being read, as code.
struct Parts {
    scheme: Option<Vec<u8>>,
    hostinfo: Option<Vec<u8>>,
    user: Option<Vec<u8>>,
    password: Option<Vec<u8>>,
    hostname: Option<Vec<u8>>,
    port_str: Option<Vec<u8>>,
    path: Option<Vec<u8>>,
    query: Option<Vec<u8>>,
    fragment: Option<Vec<u8>>,
    port: u16,
}

/// The bytes of an optional vector.
pub open spec fn opt_bytes(o: Option<Vec<u8>>) -> Option<Seq<u8>> {
    match o {
        Some(v) => Some(v@),
        None => None,
    }
}

impl Parts {
    spec fn model(&self) -> UriModel {
        UriModel {
            scheme: opt_bytes(self.scheme),
            hostinfo: opt_bytes(self.hostinfo),
            user: opt_bytes(self.user),
            password: opt_bytes(self.password),
            hostname: opt_bytes(self.hostname),
            port_str: opt_bytes(self.port_str),
            path: opt_bytes(self.path),
            query: opt_bytes(self.query),
            fragment: opt_bytes(self.fragment),
            port: self.port,
        }
    }

    fn empty() -> (r: Parts)
        ensures
            r.model() == empty_uri(),
    {
        Parts {
            scheme: None,
            hostinfo: None,
            user: None,
            password: None,
            hostname: None,
            port_str: None,
            path: None,
            query: None,
            fragment: None,
            port: 0,
        }
    }
}

/// The path, query and fragment of a text, as code.
fn with_path_exec(u: Parts, s: &[u8]) -> (r: Parts)
    ensures
        r.model() == with_path(u.model(), s@),
{
    let mut u = u;
    let p = path_len_exec(s);
    if p > 0 {
        u.path = Some(bytes_prefix(s, p));
    }
    if p >= s.len() {
        return u;
    }
    if s[p] == 63 {
        let rest = bytes_from(s, p + 1);
        let h = find_byte(rest.as_slice(), 35u8);
        proof {
            lemma_first_index_bounds(rest@, 35u8);
        }
        if h < rest.len() {
            u.fragment = Some(bytes_from(rest.as_slice(), h + 1));
            u.query = Some(bytes_prefix(rest.as_slice(), h));
        } else {
            u.query = Some(rest);
        }
    } else {
        u.fragment = Some(bytes_from(s, p + 1));
    }
    u
}

/// The port after the host, then the rest, as code.
fn with_port_exec(u: Parts, ps: Vec<u8>, rest: &[u8]) -> (r: Result<Parts, ()>)
    ensures
        match with_port(u.model(), ps@, rest@) {
            Ok(m) => r matches Ok(p) && p.model() == m,
            Err(_) => r is Err,
        },
{
    let mut u = u;
    let port = if ps.len() > 0 {
        let (v, all) = strtol_exec(ps.as_slice());
        if !all {
            return Err(());
        }
        v as u16
    } else {
        match &u.scheme {
            Some(sc) => scheme_port_exec(sc.as_slice()),
            None => 0,
        }
    };
    u.port_str = Some(ps);
    u.port = port;
    Ok(with_path_exec(u, rest))
}

/// The host and port of an authority, then the rest, as code.
fn with_host_exec(u: Parts, h: &[u8], rest: &[u8]) -> (r: Result<Parts, ()>)
    ensures
        match with_host(u.model(), h@, rest@) {
            Ok(m) => r matches Ok(p) && p.model() == m,
            Err(_) => r is Err,
        },
{
    let mut u = u;
    proof {
        lemma_first_index_bounds(h@, 93u8);
        lemma_first_index_bounds(h@, 58u8);
    }
    if h.len() > 0 && h[0] == 91 {
        let k = find_byte(h, 93u8);
        if k >= h.len() {
            return Err(());
        }
        if crate::date::cbyte_exec(h, k + 1) != 58 {
            u.hostname = Some(bytes_range(h, 1, h.len() - 1));
            Ok(with_path_exec(u, rest))
        } else {
            u.hostname = Some(bytes_range(h, 1, k));
            let ps = bytes_from(h, k + 2);
            with_port_exec(u, ps, rest)
        }
    } else {
        let c = find_byte(h, 58u8);
        if c >= h.len() {
            u.hostname = Some(bytes_from(h, 0));
            proof {
                assert(h@.skip(0) =~= h@);
            }
            Ok(with_path_exec(u, rest))
        } else {
            u.hostname = Some(bytes_prefix(h, c));
            let ps = bytes_from(h, c + 1);
            with_port_exec(u, ps, rest)
        }
    }
}

/// The authority that starts a text, then the rest, as code.
fn with_authority_exec(u: Parts, s: &[u8]) -> (r: Result<Parts, ()>)
    ensures
        match with_authority(u.model(), s@) {
            Ok(m) => r matches Ok(p) && p.model() == m,
            Err(_) => r is Err,
        },
{
    let mut u = u;
    let e = hostinfo_len_exec(s);
    let h = bytes_prefix(s, e);
    let rest = bytes_from(s, e);
    u.hostinfo = Some(bytes_prefix(s, e));
    let a = last_at_exec(h.as_slice());
    if a >= h.len() {
        return with_host_exec(u, h.as_slice(), rest.as_slice());
    }
    let ui = bytes_prefix(h.as_slice(), a);
    let c = find_byte(ui.as_slice(), 58u8);
    proof {
        lemma_first_index_bounds(ui@, 58u8);
    }
    if c < ui.len() {
        u.user = Some(bytes_prefix(ui.as_slice(), c));
        u.password = Some(bytes_from(ui.as_slice(), c + 1));
    } else {
        u.user = Some(ui);
    }
    let host = bytes_from(h.as_slice(), a + 1);
    with_host_exec(u, host.as_slice(), rest.as_slice())
}

/// What `apr_uri_parse` makes of a URI, as code.
fn uri_parse_bytes(s: &[u8]) -> (r: Result<Parts, ()>)
    ensures
        match spec_uri_parse(s@) {
            Ok(m) => r matches Ok(p) && p.model() == m,
            Err(_) => r is Err,
        },
{
    let u = Parts::empty();
    let c0 = crate::date::cbyte_exec(s, 0);
    if c0 == 47 {
        if crate::date::cbyte_exec(s, 1) == 47 && crate::date::cbyte_exec(s, 2) != 47 {
            let t = bytes_from(s, 2);
            return with_authority_exec(u, t.as_slice());
        }
        return Ok(with_path_exec(u, s));
    }
    if !is_alpha_exec(c0) {
        return Ok(with_path_exec(u, s));
    }
    let n = s.len();
    assert(n > 0);
    let sl = scheme_len_exec(s, 1);
    assert(1 + sl <= s@.len());
    let j = 1 + sl;
    if crate::date::cbyte_exec(s, j) != 58 {
        return Ok(with_path_exec(u, s));
    }
    let mut u = u;
    assert(j < s@.len());
    u.scheme = Some(bytes_prefix(s, j));
    if crate::date::cbyte_exec(s, j + 1) != 47 || crate::date::cbyte_exec(s, j + 2) != 47 {
        let t = bytes_from(s, j + 1);
        return Ok(with_path_exec(u, t.as_slice()));
    }
    let t = bytes_from(s, j + 3);
    with_authority_exec(u, t.as_slice())
}

/// What `apr_uri_parse_hostinfo` makes of `host:port`, as code.
fn hostinfo_parse_bytes(h: &[u8]) -> (r: Result<Parts, ()>)
    ensures
        match spec_parse_hostinfo(h@) {
            Ok(m) => r matches Ok(p) && p.model() == m,
            Err(_) => r is Err,
        },
{
    let mut u = Parts::empty();
    u.hostinfo = Some(bytes_from(h, 0));
    proof {
        assert(h@.skip(0) =~= h@);
        lemma_first_index_bounds(h@, 93u8);
        lemma_first_index_bounds(h@, 58u8);
    }
    let (hostname, ps) = if h.len() > 0 && h[0] == 91 {
        let k = find_byte(h, 93u8);
        if k >= h.len() || crate::date::cbyte_exec(h, k + 1) != 58 {
            return Err(());
        }
        (bytes_range(h, 1, k), bytes_from(h, k + 2))
    } else {
        let c = find_byte(h, 58u8);
        if c >= h.len() {
            return Err(());
        }
        (bytes_prefix(h, c), bytes_from(h, c + 1))
    };
    if ps.len() == 0 {
        return Err(());
    }
    let (v, all) = strtol_exec(ps.as_slice());
    if !all {
        return Err(());
    }
    u.hostname = Some(hostname);
    u.port_str = Some(ps);
    u.port = v as u16;
    Ok(u)
}


// ---------------------------------------------------------------------------
// Putting a URI back together
// ---------------------------------------------------------------------------

/// Leave out the scheme, user, password, host and port.
pub const APR_URI_UNP_OMITSITEPART: u32 = 1;
/// Leave out the user.
pub const APR_URI_UNP_OMITUSER: u32 = 2;
/// Leave out the password.
pub const APR_URI_UNP_OMITPASSWORD: u32 = 4;
/// Leave out the user and the password.
pub const APR_URI_UNP_OMITUSERINFO: u32 = 6;
/// Show the password instead of `XXXXXXXX`.
pub const APR_URI_UNP_REVEALPASSWORD: u32 = 8;
/// Leave out the path, query and fragment.
pub const APR_URI_UNP_OMITPATHINFO: u32 = 16;
/// Leave out the query and fragment.
pub const APR_URI_UNP_OMITQUERY: u32 = 32;

/// A part, or nothing.
pub open spec fn or_empty(b: Option<Seq<u8>>) -> Seq<u8> {
    match b {
        Some(x) => x,
        None => seq![],
    }
}

/// The `user:password@` of a URI under the flags.
pub open spec fn userinfo_bytes(m: UriModel, flags: u32) -> Seq<u8> {
    let show_user = m.user is Some && flags & APR_URI_UNP_OMITUSER == 0;
    let show_pw = m.password is Some && flags & APR_URI_UNP_OMITPASSWORD == 0;
    if m.user is Some || m.password is Some {
        (if show_user {
            or_empty(m.user)
        } else {
            seq![]
        }) + (if show_pw {
            seq![58u8] + if flags & APR_URI_UNP_REVEALPASSWORD != 0 {
                or_empty(m.password)
            } else {
                seq![88u8, 88u8, 88u8, 88u8, 88u8, 88u8, 88u8, 88u8]
            }
        } else {
            seq![]
        }) + (if show_user || show_pw {
            seq![64u8]
        } else {
            seq![]
        })
    } else {
        seq![]
    }
}

/// The `scheme://user@host:port` of a URI under the flags: an IPv6 host
/// goes in brackets, and a default port is left out.
pub open spec fn site_bytes(m: UriModel, flags: u32) -> Seq<u8> {
    let ui = userinfo_bytes(m, flags);
    let hosted = match m.hostname {
        Some(hn) => {
            let v6 = first_index(hn, 58) < hn.len();
            let is_default = m.port_str is None || m.port == 0 || m.port == scheme_port(m.scheme);
            seq![47u8, 47u8] + ui + (if v6 {
                seq![91u8]
            } else {
                seq![]
            }) + hn + (if v6 {
                seq![93u8]
            } else {
                seq![]
            }) + (if is_default {
                seq![]
            } else {
                seq![58u8] + or_empty(m.port_str)
            })
        },
        None => ui,
    };
    match m.scheme {
        Some(sc) => sc + seq![58u8] + hosted,
        None => hosted,
    }
}

/// The path, `?query` and `#fragment` of a URI under the flags.
pub open spec fn pathinfo_bytes(m: UriModel, flags: u32) -> Seq<u8> {
    let show_q = flags & APR_URI_UNP_OMITQUERY == 0;
    or_empty(m.path) + (if m.query is Some && show_q {
        seq![63u8] + or_empty(m.query)
    } else {
        seq![]
    }) + (if m.fragment is Some && show_q {
        seq![35u8] + or_empty(m.fragment)
    } else {
        seq![]
    })
}

/// What `apr_uri_unparse` makes of a URI under the flags.
pub open spec fn unparse_bytes(m: UriModel, flags: u32) -> Seq<u8> {
    (if flags & APR_URI_UNP_OMITSITEPART == 0 {
        site_bytes(m, flags)
    } else {
        seq![]
    }) + (if flags & APR_URI_UNP_OMITPATHINFO == 0 {
        pathinfo_bytes(m, flags)
    } else {
        seq![]
    })
}

/// Appends bytes.
fn append_bytes(out: &mut Vec<u8>, b: &[u8])
    ensures
        final(out)@ == old(out)@ + b@,
{
    let mut i: usize = 0;
    while i < b.len()
        invariant
            i <= b@.len(),
            out@ == old(out)@ + b@.take(i as int),
        decreases b@.len() - i,
    {
        out.push(b[i]);
        proof {
            assert(b@.take(i + 1) =~= b@.take(i as int).push(b@[i as int]));
        }
        i = i + 1;
    }
    assert(b@.take(b@.len() as int) =~= b@);
}

/// Appends an optional part.
fn append_opt(out: &mut Vec<u8>, b: &Option<Vec<u8>>)
    ensures
        final(out)@ == old(out)@ + or_empty(opt_bytes(*b)),
{
    match b {
        Some(v) => append_bytes(out, v.as_slice()),
        None => {
            assert(old(out)@ + Seq::<u8>::empty() =~= old(out)@);
        },
    }
}

/// The `user:password@` of a URI, as code.
fn userinfo_exec(u: &Parts, flags: u32) -> (r: Vec<u8>)
    ensures
        r@ == userinfo_bytes(u.model(), flags),
{
    let mut ui: Vec<u8> = Vec::new();
    if u.user.is_some() || u.password.is_some() {
        let show_user = u.user.is_some() && flags & APR_URI_UNP_OMITUSER == 0;
        let show_pw = u.password.is_some() && flags & APR_URI_UNP_OMITPASSWORD == 0;
        if show_user {
            append_opt(&mut ui, &u.user);
        }
        let ghost after_user = ui@;
        if show_pw {
            ui.push(58u8);
            if flags & APR_URI_UNP_REVEALPASSWORD != 0 {
                append_opt(&mut ui, &u.password);
            } else {
                let x: [u8; 8] = [88u8, 88u8, 88u8, 88u8, 88u8, 88u8, 88u8, 88u8];
                append_bytes(&mut ui, &x);
                assert(x@ =~= seq![88u8, 88u8, 88u8, 88u8, 88u8, 88u8, 88u8, 88u8]);
            }
        }
        let ghost after_pw = ui@;
        if show_user || show_pw {
            ui.push(64u8);
        }
        assert(ui@ =~= userinfo_bytes(u.model(), flags));
    }
    ui
}

/// The `scheme://user@host:port` of a URI, as code.
fn site_exec(u: &Parts, flags: u32) -> (r: Vec<u8>)
    ensures
        r@ == site_bytes(u.model(), flags),
{
    let ui = userinfo_exec(u, flags);
    let mut hosted: Vec<u8> = Vec::new();
    match &u.hostname {
        Some(hn) => {
            let v6 = find_byte(hn.as_slice(), 58u8) < hn.len();
            let default_port = match &u.scheme {
                Some(sc) => scheme_port_exec(sc.as_slice()),
                None => 0,
            };
            let is_default = u.port_str.is_none() || u.port == 0 || u.port == default_port;
            hosted.push(47u8);
            hosted.push(47u8);
            append_bytes(&mut hosted, ui.as_slice());
            if v6 {
                hosted.push(91u8);
            }
            append_bytes(&mut hosted, hn.as_slice());
            if v6 {
                hosted.push(93u8);
            }
            if !is_default {
                hosted.push(58u8);
                append_opt(&mut hosted, &u.port_str);
            }
            let ghost m = u.model();
            assert(hosted@ =~= seq![47u8, 47u8] + ui@ + (if v6 {
                seq![91u8]
            } else {
                seq![]
            }) + hn@ + (if v6 {
                seq![93u8]
            } else {
                seq![]
            }) + (if is_default {
                seq![]
            } else {
                seq![58u8] + or_empty(m.port_str)
            }));
        },
        None => {
            append_bytes(&mut hosted, ui.as_slice());
        },
    }
    let mut out: Vec<u8> = Vec::new();
    match &u.scheme {
        Some(sc) => {
            append_bytes(&mut out, sc.as_slice());
            out.push(58u8);
        },
        None => {},
    }
    append_bytes(&mut out, hosted.as_slice());
    assert(out@ =~= site_bytes(u.model(), flags));
    out
}

/// The path, query and fragment of a URI, as code.
fn pathinfo_exec(u: &Parts, flags: u32) -> (r: Vec<u8>)
    ensures
        r@ == pathinfo_bytes(u.model(), flags),
{
    let mut out: Vec<u8> = Vec::new();
    let show_q = flags & APR_URI_UNP_OMITQUERY == 0;
    append_opt(&mut out, &u.path);
    let ghost p = out@;
    if u.query.is_some() && show_q {
        out.push(63u8);
        append_opt(&mut out, &u.query);
    }
    let ghost q = out@;
    if u.fragment.is_some() && show_q {
        out.push(35u8);
        append_opt(&mut out, &u.fragment);
    }
    assert(out@ =~= pathinfo_bytes(u.model(), flags));
    out
}

/// A URI put back together, as code.
fn unparse_exec(u: &Parts, flags: u32) -> (r: Vec<u8>)
    ensures
        r@ == unparse_bytes(u.model(), flags),
{
    let mut out: Vec<u8> = if flags & APR_URI_UNP_OMITSITEPART == 0 {
        site_exec(u, flags)
    } else {
        Vec::new()
    };
    if flags & APR_URI_UNP_OMITPATHINFO == 0 {
        let p = pathinfo_exec(u, flags);
        append_bytes(&mut out, p.as_slice());
    }
    assert(out@ =~= unparse_bytes(u.model(), flags));
    out
}

// ---------------------------------------------------------------------------
// The URI
// ---------------------------------------------------------------------------

/// Whether a handed-out string stands for a part: its decoding, where the
/// part's bytes are UTF-8.
pub open spec fn part_matches(s: Option<String>, b: Option<Seq<u8>>) -> bool {
    match b {
        None => s is None,
        Some(x) => s matches Some(t) && (valid_utf8(x) ==> t@ == decode_utf8(x)),
    }
}

/// What a part's accessor hands out: its decoding.
pub open spec fn part_out(r: Option<&str>, b: Option<Seq<u8>>) -> bool {
    match b {
        None => r is None,
        Some(x) => r matches Some(t) && t@ == decode_utf8(x),
    }
}

/// Whether a part, where there is one, is UTF-8.
pub open spec fn part_is_text(b: Option<Seq<u8>>) -> bool {
    b matches Some(x) ==> valid_utf8(x)
}

/// A structure to represent a URI.
pub struct Uri {
    parts: Parts,
    scheme: Option<String>,
    hostinfo: Option<String>,
    user: Option<String>,
    password: Option<String>,
    hostname: Option<String>,
    port_str: Option<String>,
    path: Option<String>,
    query: Option<String>,
    fragment: Option<String>,
    is_initialized: bool,
}

impl View for Uri {
    type V = UriModel;

    closed spec fn view(&self) -> UriModel {
        self.parts.model()
    }
}

/// A part as a string, with what is not UTF-8 replaced.
fn part_string(b: &Option<Vec<u8>>) -> (r: Option<String>)
    ensures
        part_matches(r, opt_bytes(*b)),
{
    match b {
        Some(v) => Some(string_from_utf8_lossy(v.as_slice())),
        None => None,
    }
}

impl Uri {
    #[verifier::type_invariant]
    spec fn inv(&self) -> bool {
        &&& part_matches(self.scheme, self.parts.model().scheme)
        &&& part_matches(self.hostinfo, self.parts.model().hostinfo)
        &&& part_matches(self.user, self.parts.model().user)
        &&& part_matches(self.password, self.parts.model().password)
        &&& part_matches(self.hostname, self.parts.model().hostname)
        &&& part_matches(self.port_str, self.parts.model().port_str)
        &&& part_matches(self.path, self.parts.model().path)
        &&& part_matches(self.query, self.parts.model().query)
        &&& part_matches(self.fragment, self.parts.model().fragment)
        &&& self.is_initialized
    }

    fn from_parts(parts: Parts) -> (r: Uri)
        ensures
            r@ == parts.model(),
    {
        let scheme = part_string(&parts.scheme);
        let hostinfo = part_string(&parts.hostinfo);
        let user = part_string(&parts.user);
        let password = part_string(&parts.password);
        let hostname = part_string(&parts.hostname);
        let port_str = part_string(&parts.port_str);
        let path = part_string(&parts.path);
        let query = part_string(&parts.query);
        let fragment = part_string(&parts.fragment);
        Uri {
            parts,
            scheme,
            hostinfo,
            user,
            password,
            hostname,
            port_str,
            path,
            query,
            fragment,
            is_initialized: true,
        }
    }

    /// A part as a string slice.
    fn part_str(s: &Option<String>, Ghost(b): Ghost<Option<Seq<u8>>>) -> (r: Option<&str>)
        requires
            part_matches(*s, b),
            part_is_text(b),
        ensures
            part_out(r, b),
    {
        match s {
            Some(t) => Some(t.as_str()),
            None => None,
        }
    }

    /// Return the scheme of the URI.
    pub fn scheme(&self) -> (r: Option<&str>)
        requires
            part_is_text(self@.scheme),
        ensures
            part_out(r, self@.scheme),
    {
        proof {
            use_type_invariant(self);
        }
        Self::part_str(&self.scheme, Ghost(self@.scheme))
    }

    /// Return the hostinfo of the URI.
    pub fn hostinfo(&self) -> (r: Option<&str>)
        requires
            part_is_text(self@.hostinfo),
        ensures
            part_out(r, self@.hostinfo),
    {
        proof {
            use_type_invariant(self);
        }
        Self::part_str(&self.hostinfo, Ghost(self@.hostinfo))
    }

    /// Return the username of the URI.
    pub fn user(&self) -> (r: Option<&str>)
        requires
            part_is_text(self@.user),
        ensures
            part_out(r, self@.user),
    {
        proof {
            use_type_invariant(self);
        }
        Self::part_str(&self.user, Ghost(self@.user))
    }

    /// Return the password of the URI.
    pub fn password(&self) -> (r: Option<&str>)
        requires
            part_is_text(self@.password),
        ensures
            part_out(r, self@.password),
    {
        proof {
            use_type_invariant(self);
        }
        Self::part_str(&self.password, Ghost(self@.password))
    }

    /// Return the hostname of the URI.
    pub fn hostname(&self) -> (r: Option<&str>)
        requires
            part_is_text(self@.hostname),
        ensures
            part_out(r, self@.hostname),
    {
        proof {
            use_type_invariant(self);
        }
        Self::part_str(&self.hostname, Ghost(self@.hostname))
    }

    /// Return the port of the URI.
    pub fn port(&self) -> (r: u16)
        ensures
            r == self@.port,
    {
        self.parts.port
    }

    /// Return the path of the URI.
    pub fn path(&self) -> (r: Option<&str>)
        requires
            part_is_text(self@.path),
        ensures
            part_out(r, self@.path),
    {
        proof {
            use_type_invariant(self);
        }
        Self::part_str(&self.path, Ghost(self@.path))
    }

    /// Return the query of the URI.
    pub fn query(&self) -> (r: Option<&str>)
        requires
            part_is_text(self@.query),
        ensures
            part_out(r, self@.query),
    {
        proof {
            use_type_invariant(self);
        }
        Self::part_str(&self.query, Ghost(self@.query))
    }

    /// Return the fragment of the URI.
    pub fn fragment(&self) -> (r: Option<&str>)
        requires
            part_is_text(self@.fragment),
        ensures
            part_out(r, self@.fragment),
    {
        proof {
            use_type_invariant(self);
        }
        Self::part_str(&self.fragment, Ghost(self@.fragment))
    }

    /// Return the port as a string
    pub fn port_str(&self) -> (r: Option<&str>)
        requires
            part_is_text(self@.port_str),
        ensures
            part_out(r, self@.port_str),
    {
        proof {
            use_type_invariant(self);
        }
        Self::part_str(&self.port_str, Ghost(self@.port_str))
    }

    /// Return whether the URI has been initialized: a parsed URI is.
    pub fn is_initialized(&self) -> (r: bool)
        ensures
            r,
    {
        proof {
            use_type_invariant(self);
        }
        self.is_initialized
    }

    /// Return whether the DNS has been looked up: parsing does not look it
    /// up.
    pub fn dns_looked_up(&self) -> (r: bool)
        ensures
            !r,
    {
        false
    }

    /// Return whether the DNS has been resolved: parsing does not resolve
    /// it.
    pub fn dns_resolved(&self) -> (r: bool)
        ensures
            !r,
    {
        false
    }

    /// Unparse the URI, returning a string; the bytes it is made of must be
    /// UTF-8.
    pub fn unparse(&self, flags: u32) -> (r: String)
        requires
            valid_utf8(unparse_bytes(self@, flags)),
        ensures
            r@ == decode_utf8(unparse_bytes(self@, flags)),
    {
        let bytes = unparse_exec(&self.parts, flags);
        text_of(bytes)
    }

    /// Unparse the URI as [`Uri::unparse`] does, or nothing when the bytes
    /// it is made of are not UTF-8 (where `unparse` may not be called).
    pub fn try_unparse(&self, flags: u32) -> (r: Option<String>)
        ensures
            r is Some <==> valid_utf8(unparse_bytes(self@, flags)),
            r matches Some(s) ==> s@ == decode_utf8(unparse_bytes(self@, flags)),
    {
        let bytes = unparse_exec(&self.parts, flags);
        match crate::text::string_from_utf8(bytes) {
            Ok(s) => Some(s),
            Err(_) => None,
        }
    }

    /// Parse a hostinfo string `host:port`: the port must be there and be a
    /// number. The string is a C string (no NUL).
    pub fn parse_hostinfo(pool: &Pool, hostinfo: &str) -> (r: Result<Self, Status>)
        requires
            !has_nul(hostinfo.spec_bytes()),
        ensures
            match spec_parse_hostinfo(hostinfo.spec_bytes()) {
                Ok(m) => r matches Ok(u) && u@ == m,
                Err(_) => r == Err::<Uri, Status>(Status::General),
            },
    {
        match hostinfo_parse_bytes(hostinfo.as_bytes()) {
            Ok(p) => Ok(Uri::from_parts(p)),
            Err(_) => Err(Status::General),
        }
    }

    /// Parse a URI string. The string is a C string (no NUL).
    pub fn parse(pool: &Pool, url: &str) -> (r: Result<Self, Status>)
        requires
            !has_nul(url.spec_bytes()),
        ensures
            match spec_uri_parse(url.spec_bytes()) {
                Ok(m) => r matches Ok(u) && u@ == m,
                Err(_) => r == Err::<Uri, Status>(Status::General),
            },
    {
        match uri_parse_bytes(url.as_bytes()) {
            Ok(p) => Ok(Uri::from_parts(p)),
            Err(_) => Err(Status::General),
        }
    }
}

/// Return the default port for a given scheme, compared without regard to
/// ASCII case; 0 for an unknown scheme. The scheme is a C string (no NUL).
pub fn port_of_scheme(scheme: &str) -> (r: u16)
    requires
        !has_nul(scheme.spec_bytes()),
    ensures
        r == scheme_port(Some(scheme.spec_bytes())),
{
    scheme_port_exec(scheme.as_bytes())
}

} // verus!
