//! Path handling: the portable runtime's merging of a path onto a root
//! (with its rules for `.`, `..` and the flags that keep a result within
//! its root), joining, and the test for an absolute path.
//!
//! Paths are read as bytes, as C strings. Where a merge needs the working
//! directory, the caller hands it over.

use vstd::prelude::*;
use vstd::string::StringSliceAdditionalSpecFns;
use vstd::utf8::{encode_utf8, valid_utf8};
use crate::base64::has_nul;
use crate::pool::Pool;
use crate::status::{status_from_code, status_of_code, Status};
use crate::strings::{pstrdup, PoolString};
use crate::text::{first_index, lemma_first_index, lemma_first_index_bounds, string_from_utf8_lossy, utf8_lossy};

verus! {

/// Fail a result that would lie above the root (whether or not it comes
/// back under it).
pub const APR_FILEPATH_SECUREROOTTEST: i32 = 0x01;
/// Fail a result that lies above the root.
pub const APR_FILEPATH_NOTABOVEROOT: i32 = 0x02;
/// Both tests of the root.
pub const APR_FILEPATH_SECUREROOT: i32 = 0x03;
/// Fail a result that is relative.
pub const APR_FILEPATH_NOTRELATIVE: i32 = 0x04;
/// Fail a result that is absolute.
pub const APR_FILEPATH_NOTABSOLUTE: i32 = 0x08;
/// The longest path, with its NUL.
pub const APR_PATH_MAX: usize = 4096;
/// The number of the error that a path too long gives.
pub const APR_ENAMETOOLONG: u32 = 36;

/// Whether the flags hold a flag.
pub open spec fn flag(flags: i32, f: i32) -> bool {
    flags & f != 0
}

/// A `..` segment with its slash: `../`.
pub open spec fn dotdot_slash() -> Seq<u8> {
    seq![46u8, 46u8, 47u8]
}

/// Whether a path ends in a `..` already (it is `../` or ends in `/../`).
pub open spec fn ends_backpath(p: Seq<u8>) -> bool {
    (p.len() == 3 && p == dotdot_slash()) || (p.len() > 3 && p.skip(p.len() - 4) == seq![
        47u8,
        46u8,
        46u8,
        47u8,
    ])
}

/// The index of the last `/` before position `n`, or -1.
pub open spec fn last_slash_before(p: Seq<u8>, n: int) -> int
    decreases n,
{
    if n <= 0 {
        -1
    } else if p[n - 1] == 47 {
        n - 1
    } else {
        last_slash_before(p, n - 1)
    }
}

/// A path with its last segment cropped: up to and with the `/` before it.
pub open spec fn crop(p: Seq<u8>) -> Seq<u8> {
    p.take(last_slash_before(p, p.len() - 1) + 1)
}

/// The state of a merge: the path so far and how much of the root it
/// keeps.
pub struct MergeState {
    pub path: Seq<u8>,
    pub kept: int,
}

/// One `..` segment: above the root it stays at the root (or fails under
/// the test of the root), after another `..` or at the start it is kept,
/// else it crops the last segment.
pub open spec fn back_step(s: MergeState, has_next: bool, flags: i32) -> Result<MergeState, u32> {
    let r: Result<MergeState, u32> = if s.path == seq![47u8] {
        if flag(flags, APR_FILEPATH_SECUREROOTTEST) {
            Err(crate::status::APR_EABOVEROOT)
        } else {
            Ok(MergeState { path: s.path, kept: 0 })
        }
    } else if s.path.len() == 0 || ends_backpath(s.path) {
        if flag(flags, APR_FILEPATH_SECUREROOTTEST) {
            Err(crate::status::APR_EABOVEROOT)
        } else {
            Ok(
                MergeState {
                    path: s.path + (if has_next {
                        dotdot_slash()
                    } else {
                        seq![46u8, 46u8]
                    }),
                    kept: s.kept,
                },
            )
        }
    } else {
        Ok(MergeState { path: crop(s.path), kept: s.kept })
    };
    match r {
        Err(e) => Err(e),
        Ok(t) => if t.path.len() < t.kept {
            if flag(flags, APR_FILEPATH_SECUREROOTTEST) {
                Err(crate::status::APR_EABOVEROOT)
            } else {
                Ok(MergeState { path: t.path, kept: t.path.len() as int })
            }
        } else {
            Ok(t)
        },
    }
}

/// The segments of `add` merged onto the state: empty and `.` segments are
/// passed over, `..` goes back, any other segment is appended with its
/// `/`.
pub open spec fn merge_segments(s: MergeState, add: Seq<u8>, flags: i32) -> Result<
    MergeState,
    u32,
>
    decreases add.len(),
{
    if add.len() == 0 {
        Ok(s)
    } else {
        proof {
            lemma_first_index_bounds(add, 47u8);
        }
        let seglen = first_index(add, 47u8);
        let has_next = seglen < add.len();
        let adv = if has_next {
            seglen + 1
        } else {
            seglen
        };
        let seg = add.take(seglen);
        let step = if seglen == 0 || seg == seq![46u8] {
            Ok(s)
        } else if seg == seq![46u8, 46u8] {
            back_step(s, has_next, flags)
        } else {
            Ok(MergeState { path: s.path + add.take(adv), kept: s.kept })
        };
        match step {
            Err(e) => Err(e),
            Ok(t) => merge_segments(t, add.skip(adv), flags),
        }
    }
}

/// The number of leading `/` of a path.
pub open spec fn leading_slashes(s: Seq<u8>) -> int
    decreases s.len(),
{
    if s.len() > 0 && s[0] == 47 {
        1 + leading_slashes(s.skip(1))
    } else {
        0
    }
}

/// Whether a merge needs the working directory: no root is given, and the
/// flags and the added path do not settle the result without it.
pub open spec fn needs_cwd(root_given: bool, add: Seq<u8>, flags: i32) -> bool {
    !root_given && if add.len() > 0 && add[0] == 47 {
        !flag(flags, APR_FILEPATH_SECUREROOTTEST) && !flag(flags, APR_FILEPATH_NOTABSOLUTE)
            && flag(flags, APR_FILEPATH_NOTABOVEROOT)
    } else {
        !flag(flags, APR_FILEPATH_NOTABSOLUTE)
    }
}

/// What `apr_filepath_merge` makes of a root (none meaning the working
/// directory `cwd`), an added path and flags: the merged path, or the
/// number of the error.
pub open spec fn spec_merge(root: Option<Seq<u8>>, add: Seq<u8>, flags: i32, cwd: Seq<u8>) -> Result<
    Seq<u8>,
    u32,
> {
    let absolute = add.len() > 0 && add[0] == 47;
    if absolute && flag(flags, APR_FILEPATH_SECUREROOTTEST) {
        Err(crate::status::APR_EABOVEROOT)
    } else if absolute && flag(flags, APR_FILEPATH_NOTABSOLUTE) {
        Err(crate::status::APR_EABSOLUTE)
    } else if !absolute && flag(flags, APR_FILEPATH_NOTABSOLUTE) && (root matches Some(r) && r.len()
        > 0 && r[0] == 47) {
        Err(crate::status::APR_EABSOLUTE)
    } else {
        let rootpath = match root {
            Some(r) => r,
            None => if needs_cwd(false, add, flags) {
                cwd
            } else {
                seq![]
            },
        };
        if rootpath.len() + add.len() + 4 > APR_PATH_MAX {
            Err(APR_ENAMETOOLONG)
        } else if !absolute && !(rootpath.len() > 0 && rootpath[0] == 47) && flag(
            flags,
            APR_FILEPATH_NOTRELATIVE,
        ) {
            Err(crate::status::APR_ERELATIVE)
        } else {
            let start = if absolute {
                MergeState { path: seq![47u8], kept: 0 }
            } else if rootpath.len() > 0 && rootpath.last() != 47 {
                MergeState { path: rootpath.push(47u8), kept: rootpath.len() + 1int }
            } else {
                MergeState { path: rootpath, kept: rootpath.len() as int }
            };
            let rest = if absolute {
                add.skip(leading_slashes(add))
            } else {
                add
            };
            match merge_segments(start, rest, flags) {
                Err(e) => Err(e),
                Ok(t) => if flag(flags, APR_FILEPATH_NOTABOVEROOT) && t.kept < rootpath.len() && (
                !(t.path.len() >= rootpath.len() && t.path.take(rootpath.len() as int)
                    == rootpath) || (rootpath.last() != 47 && t.path.len() > rootpath.len()
                    && t.path[rootpath.len() as int] != 47)) {
                    Err(crate::status::APR_EABOVEROOT)
                } else {
                    Ok(t.path)
                },
            }
        }
    }
}

/// A merge in progress, as its executable values, set against the state
/// that the model gives.
pub open spec fn agrees(r: Result<(Vec<u8>, usize), u32>, s: Result<MergeState, u32>) -> bool {
    match r {
        Ok((p, k)) => s == Ok::<MergeState, u32>(MergeState { path: p@, kept: k as int }),
        Err(e) => s == Err::<MergeState, u32>(e),
    }
}

/// Whether the flags hold a bit.
fn has_flag(flags: i32, f: i32) -> (r: bool)
    ensures
        r == flag(flags, f),
{
    flags & f != 0
}

/// Whether a path ends in `..` with its slash.
fn ends_backpath_exec(p: &Vec<u8>) -> (r: bool)
    ensures
        r == ends_backpath(p@),
{
    let n = p.len();
    if n == 3 {
        let r = p[0] == 46 && p[1] == 46 && p[2] == 47;
        proof {
            if r {
                assert(p@ =~= dotdot_slash());
            } else if p@ == dotdot_slash() {
                assert(p@[0] == dotdot_slash()[0] && p@[1] == dotdot_slash()[1] && p@[2]
                    == dotdot_slash()[2]);
            }
        }
        r
    } else if n > 3 {
        let r = p[n - 4] == 47 && p[n - 3] == 46 && p[n - 2] == 46 && p[n - 1] == 47;
        proof {
            let t = p@.skip(n - 4);
            let w = seq![47u8, 46u8, 46u8, 47u8];
            if r {
                assert(t =~= w);
            } else if t == w {
                assert(t[0] == w[0] && t[1] == w[1] && t[2] == w[2] && t[3] == w[3]);
            }
        }
        r
    } else {
        false
    }
}

/// Crops the last segment of a path, keeping the `/` before it.
fn crop_exec(p: &mut Vec<u8>)
    requires
        old(p)@.len() > 0,
    ensures
        final(p)@ == crop(old(p)@),
        final(p)@.len() < old(p)@.len(),
{
    let len = p.len();
    let mut n: usize = len - 1;
    while n > 0 && p[n - 1] != 47
        invariant
            len == p@.len(),
            n < len,
            last_slash_before(p@, n as int) == last_slash_before(p@, len - 1),
        decreases n,
    {
        n = n - 1;
    }
    assert(last_slash_before(p@, n as int) == n - 1);
    p.truncate(n);
}

/// One `..` segment on the path so far.
fn back_step_exec(path: Vec<u8>, kept: usize, has_next: bool, flags: i32) -> (r: Result<
    (Vec<u8>, usize),
    u32,
>)
    requires
        path@.len() + 3 <= usize::MAX,
    ensures
        agrees(r, back_step(MergeState { path: path@, kept: kept as int }, has_next, flags)),
        r matches Ok((p, k)) ==> p@.len() <= path@.len() + (if has_next {
            3int
        } else {
            2int
        }),
{
    let ghost old_path = path@;
    let mut path = path;
    let mut kept = kept;
    let is_root = path.len() == 1 && path[0] == 47;
    proof {
        if is_root {
            assert(path@ =~= seq![47u8]);
        } else if path@ == seq![47u8] {
            assert(path@[0] == seq![47u8][0]);
        }
    }
    if is_root {
        if has_flag(flags, APR_FILEPATH_SECUREROOTTEST) {
            return Err(crate::status::APR_EABOVEROOT);
        }
        kept = 0;
    } else if path.len() == 0 || ends_backpath_exec(&path) {
        if has_flag(flags, APR_FILEPATH_SECUREROOTTEST) {
            return Err(crate::status::APR_EABOVEROOT);
        }
        path.push(46);
        path.push(46);
        if has_next {
            path.push(47);
            assert(path@ =~= old_path + dotdot_slash());
        } else {
            assert(path@ =~= old_path + seq![46u8, 46u8]);
        }
    } else {
        crop_exec(&mut path);
    }
    if path.len() < kept {
        if has_flag(flags, APR_FILEPATH_SECUREROOTTEST) {
            return Err(crate::status::APR_EABOVEROOT);
        }
        kept = path.len();
    }
    Ok((path, kept))
}

/// The segments of `add` merged onto a path and its kept length.
fn merge_segments_exec(start: Vec<u8>, start_kept: usize, add: &[u8], flags: i32) -> (r: Result<
    (Vec<u8>, usize),
    u32,
>)
    requires
        start@.len() + add@.len() <= APR_PATH_MAX,
    ensures
        agrees(r, merge_segments(MergeState { path: start@, kept: start_kept as int }, add@, flags)),
{
    let ghost goal = merge_segments(
        MergeState { path: start@, kept: start_kept as int },
        add@,
        flags,
    );
    let ghost init_len = start@.len();
    let mut path = start;
    let mut kept = start_kept;
    let n = add.len();
    let mut i: usize = 0;
    assert(add@.skip(0) =~= add@);
    while i < n
        invariant
            n == add@.len(),
            i <= n,
            init_len + n <= APR_PATH_MAX,
            path@.len() <= init_len + i,
            merge_segments(MergeState { path: path@, kept: kept as int }, add@.skip(i as int), flags)
                == goal,
            goal == merge_segments(MergeState { path: start@, kept: start_kept as int }, add@, flags),
        decreases n - i,
    {
        let mut j: usize = i;
        while j < n && add[j] != 47
            invariant
                n == add@.len(),
                i <= j <= n,
                forall|k: int| i <= k < j ==> add@[k] != 47,
            decreases n - j,
        {
            j = j + 1;
        }
        let ghost rest = add@.skip(i as int);
        let seglen = j - i;
        let has_next = j < n;
        proof {
            assert forall|k: int| 0 <= k < seglen implies rest[k] != 47 by {
                assert(rest[k] == add@[i + k]);
            }
            if has_next {
                assert(rest[seglen as int] == add@[j as int]);
            }
            lemma_first_index(rest, 47u8, seglen as int);
        }
        let adv = if has_next {
            seglen + 1
        } else {
            seglen
        };
        let ghost seg = rest.take(seglen as int);
        let ghost state = MergeState { path: path@, kept: kept as int };
        let noop = seglen == 0 || (seglen == 1 && add[i] == 46);
        let back = seglen == 2 && add[i] == 46 && add[i + 1] == 46;
        proof {
            if seglen == 1 {
                assert(seg[0] == add@[i as int]);
                if add@[i as int] == 46 {
                    assert(seg =~= seq![46u8]);
                } else if seg == seq![46u8] {
                    assert(seg[0] == seq![46u8][0]);
                }
            } else if seg == seq![46u8] {
                assert(seg.len() == seq![46u8].len());
            }
            if seglen == 2 {
                assert(seg[0] == add@[i as int]);
                assert(seg[1] == add@[i + 1]);
                if back {
                    assert(seg =~= seq![46u8, 46u8]);
                } else if seg == seq![46u8, 46u8] {
                    assert(seg[0] == seq![46u8, 46u8][0] && seg[1] == seq![46u8, 46u8][1]);
                }
            } else if seg == seq![46u8, 46u8] {
                assert(seg.len() == seq![46u8, 46u8].len());
            }
            assert(add@.skip(i as int).skip(adv as int) =~= add@.skip(i + adv));
        }
        if noop {
        } else if back {
            match back_step_exec(path, kept, has_next, flags) {
                Err(e) => {
                    assert(rest.len() > 0);
                    assert(merge_segments(state, rest, flags) == Err::<MergeState, u32>(e));
                    return Err(e);
                },
                Ok((p, k)) => {
                    path = p;
                    kept = k;
                },
            }
        } else {
            let ghost before = path@;
            let mut k: usize = i;
            while k < i + adv
                invariant
                    n == add@.len(),
                    i + adv <= n,
                    i <= k <= i + adv,
                    before.len() + adv <= init_len + i + adv,
                    init_len + n <= APR_PATH_MAX,
                    path@ == before + add@.subrange(i as int, k as int),
                decreases i + adv - k,
            {
                path.push(add[k]);
                proof {
                    assert(add@.subrange(i as int, k + 1) =~= add@.subrange(i as int, k as int).push(
                        add@[k as int],
                    ));
                }
                k = k + 1;
            }
            assert(add@.subrange(i as int, i + adv) =~= rest.take(adv as int));
        }
        i = i + adv;
    }
    assert(add@.skip(n as int) =~= Seq::<u8>::empty());
    Ok((path, kept))
}

/// The number of leading `/` found by scanning is the number of them.
pub proof fn lemma_leading_slashes(s: Seq<u8>, i: int)
    requires
        0 <= i <= s.len(),
        forall|j: int| 0 <= j < i ==> s[j] == 47,
        i == s.len() || s[i] != 47,
    ensures
        leading_slashes(s) == i,
    decreases i,
{
    if i > 0 {
        assert forall|j: int| 0 <= j < i - 1 implies s.skip(1)[j] == 47 by {
            assert(s.skip(1)[j] == s[j + 1]);
        }
        if i < s.len() {
            assert(s.skip(1)[i - 1] == s[i]);
        }
        lemma_leading_slashes(s.skip(1), i - 1);
    }
}

/// A root as the model reads it.
pub open spec fn root_view(r: Option<&[u8]>) -> Option<Seq<u8>> {
    match r {
        Some(x) => Some(x@),
        None => None,
    }
}

/// Whether a merge needs the working directory (see [`needs_cwd`]): the
/// caller fetches it only then.
pub fn merge_needs_cwd(root_given: bool, addpath: &[u8], flags: i32) -> (r: bool)
    ensures
        r == needs_cwd(root_given, addpath@, flags),
{
    if root_given {
        false
    } else if addpath.len() > 0 && addpath[0] == 47 {
        !has_flag(flags, APR_FILEPATH_SECUREROOTTEST) && !has_flag(flags, APR_FILEPATH_NOTABSOLUTE)
            && has_flag(flags, APR_FILEPATH_NOTABOVEROOT)
    } else {
        !has_flag(flags, APR_FILEPATH_NOTABSOLUTE)
    }
}

/// Whether a path begins with a root.
fn begins_with(p: &Vec<u8>, root: &[u8]) -> (r: bool)
    ensures
        r == (p@.len() >= root@.len() && p@.take(root@.len() as int) == root@),
{
    let n = root.len();
    if p.len() < n {
        return false;
    }
    let mut i: usize = 0;
    while i < n
        invariant
            n == root@.len(),
            n <= p@.len(),
            i <= n,
            forall|j: int| 0 <= j < i ==> p@[j] == root@[j],
        decreases n - i,
    {
        if p[i] != root[i] {
            proof {
                if p@.take(n as int) == root@ {
                    assert(p@.take(n as int)[i as int] == p@[i as int]);
                }
            }
            return false;
        }
        i = i + 1;
    }
    assert(p@.take(n as int) =~= root@);
    true
}

/// Merges a path onto a root, as `apr_filepath_merge` does: a root of
/// `None` stands for the working directory, `cwd`, where the merge needs
/// it. The result is the merged path, or the number of the error (see
/// [`spec_merge`]).
pub fn filepath_merge(rootpath: Option<&[u8]>, addpath: &[u8], flags: i32, cwd: &[u8]) -> (r: Result<
    Vec<u8>,
    u32,
>)
    ensures
        match r {
            Ok(p) => spec_merge(root_view(rootpath), addpath@, flags, cwd@) == Ok::<Seq<u8>, u32>(
                p@,
            ),
            Err(e) => spec_merge(root_view(rootpath), addpath@, flags, cwd@) == Err::<Seq<u8>, u32>(
                e,
            ),
        },
{
    let absolute = addpath.len() > 0 && addpath[0] == 47;
    if absolute && has_flag(flags, APR_FILEPATH_SECUREROOTTEST) {
        return Err(crate::status::APR_EABOVEROOT);
    }
    if absolute && has_flag(flags, APR_FILEPATH_NOTABSOLUTE) {
        return Err(crate::status::APR_EABSOLUTE);
    }
    if !absolute && has_flag(flags, APR_FILEPATH_NOTABSOLUTE) {
        if let Some(r) = rootpath {
            if r.len() > 0 && r[0] == 47 {
                return Err(crate::status::APR_EABSOLUTE);
            }
        }
    }
    let empty: Vec<u8> = Vec::new();
    let root: &[u8] = match rootpath {
        Some(r) => r,
        None => if merge_needs_cwd(false, addpath, flags) {
            cwd
        } else {
            empty.as_slice()
        },
    };
    let rootlen = root.len();
    if rootlen > APR_PATH_MAX || addpath.len() > APR_PATH_MAX || rootlen + addpath.len() + 4
        > APR_PATH_MAX {
        return Err(APR_ENAMETOOLONG);
    }
    let root_absolute = rootlen > 0 && root[0] == 47;
    if !absolute && !root_absolute && has_flag(flags, APR_FILEPATH_NOTRELATIVE) {
        return Err(crate::status::APR_ERELATIVE);
    }
    let mut start: Vec<u8> = Vec::new();
    let kept: usize;
    let rest: Vec<u8>;
    if absolute {
        start.push(47);
        kept = 0;
        let n = addpath.len();
        let mut i: usize = 0;
        while i < n && addpath[i] == 47
            invariant
                n == addpath@.len(),
                i <= n,
                forall|j: int| 0 <= j < i ==> addpath@[j] == 47,
            decreases n - i,
        {
            i = i + 1;
        }
        proof {
            lemma_leading_slashes(addpath@, i as int);
        }
        rest = crate::text::bytes_from(addpath, i);
    } else {
        let mut i: usize = 0;
        while i < rootlen
            invariant
                rootlen == root@.len(),
                i <= rootlen,
                start@ == root@.take(i as int),
            decreases rootlen - i,
        {
            start.push(root[i]);
            proof {
                assert(root@.take(i + 1) =~= root@.take(i as int).push(root@[i as int]));
            }
            i = i + 1;
        }
        assert(root@.take(rootlen as int) =~= root@);
        if rootlen > 0 && root[rootlen - 1] != 47 {
            start.push(47);
            kept = rootlen + 1;
        } else {
            kept = rootlen;
        }
        rest = crate::text::copy_bytes(addpath);
    }
    match merge_segments_exec(start, kept, rest.as_slice(), flags) {
        Err(e) => Err(e),
        Ok((p, k)) => {
            if has_flag(flags, APR_FILEPATH_NOTABOVEROOT) && k < rootlen {
                if !begins_with(&p, root) {
                    return Err(crate::status::APR_EABOVEROOT);
                }
                if root[rootlen - 1] != 47 && p.len() > rootlen && p[rootlen] != 47 {
                    return Err(crate::status::APR_EABOVEROOT);
                }
            }
            Ok(p)
        },
    }
}

/// The bytes that a path becomes as text: itself when it is UTF-8, else
/// with each invalid sequence replaced.
pub open spec fn path_text(path: Seq<u8>) -> Seq<u8> {
    encode_utf8(utf8_lossy(path))
}

/// A merge's outcome with its error number read as a status.
pub open spec fn merge_status(m: Result<Seq<u8>, u32>) -> Result<Seq<u8>, Status> {
    match m {
        Ok(p) => Ok(p),
        Err(e) => Err(status_of_code(e)),
    }
}

/// A result of bytes as the model reads it.
pub open spec fn bytes_result(r: Result<Vec<u8>, Status>) -> Result<Seq<u8>, Status> {
    match r {
        Ok(v) => Ok(v@),
        Err(e) => Err(e),
    }
}

/// A path (its bytes, as the system holds them) as a C string for the
/// runtime: its text, which must not hold a NUL.
pub fn path_to_cstring(path: &[u8], pool: &Pool) -> (r: Result<PoolString, Status>)
    ensures
        match r {
            Ok(p) => !has_nul(path_text(path@)) && p@ == path_text(path@),
            Err(e) => has_nul(path_text(path@)) && e == Status::BadArgument,
        },
        valid_utf8(path@) ==> (r is Ok <==> !has_nul(path@)),
        valid_utf8(path@) ==> (r matches Ok(p) ==> p@ == path@),
{
    let text = string_from_utf8_lossy(path);
    proof {
        if valid_utf8(path@) {
            vstd::utf8::decode_utf8_encode_utf8(path@);
        }
    }
    match pstrdup(text.as_str(), pool) {
        Ok(p) => Ok(p),
        Err(_) => Err(Status::BadArgument),
    }
}

/// A merge whose error number becomes a status.
fn merge_to_status(rootpath: Option<&[u8]>, addpath: &[u8], flags: i32, cwd: &[u8]) -> (r: Result<
    Vec<u8>,
    Status,
>)
    ensures
        bytes_result(r) == merge_status(spec_merge(root_view(rootpath), addpath@, flags, cwd@)),
{
    match filepath_merge(rootpath, addpath, flags, cwd) {
        Ok(p) => Ok(p),
        Err(code) => Err(status_from_code(code)),
    }
}

/// Normalizes a path, as `apr_filepath_merge` does with no root and the
/// tests of the root: `.` and empty segments go, `..` crops, and a result
/// above the working directory `cwd` (or an absolute path) is refused.
/// The caller hands over the working directory where [`merge_needs_cwd`]
/// asks for it.
pub fn normalize_path(path: &[u8], cwd: &[u8], pool: &Pool) -> (r: Result<Vec<u8>, Status>)
    ensures
        has_nul(path_text(path@)) ==> r == Err::<Vec<u8>, Status>(Status::BadArgument),
        !has_nul(path_text(path@)) ==> bytes_result(r) == merge_status(
            spec_merge(None, path_text(path@), APR_FILEPATH_SECUREROOT, cwd@),
        ),
        valid_utf8(path@) && !has_nul(path@) ==> bytes_result(r) == merge_status(
            spec_merge(None, path@, APR_FILEPATH_SECUREROOT, cwd@),
        ),
{
    let c = match path_to_cstring(path, pool) {
        Ok(c) => c,
        Err(e) => {
            return Err(e);
        },
    };
    merge_to_status(None, c.as_bytes(), APR_FILEPATH_SECUREROOT, cwd)
}

/// Whether a path is absolute: whether it begins with `/`.
pub fn is_absolute(path: &[u8], pool: &Pool) -> (r: Result<bool, Status>)
    ensures
        r == Ok::<bool, Status>(path@.len() > 0 && path@[0] == 47),
{
    Ok(path.len() > 0 && path[0] == 47)
}

/// Joins a path onto a base, as `apr_filepath_merge` does with no flags.
pub fn join_paths(base: &[u8], path: &[u8], pool: &Pool) -> (r: Result<Vec<u8>, Status>)
    ensures
        (has_nul(path_text(base@)) || has_nul(path_text(path@))) ==> r == Err::<Vec<u8>, Status>(
            Status::BadArgument,
        ),
        (!has_nul(path_text(base@)) && !has_nul(path_text(path@))) ==> bytes_result(r)
            == merge_status(spec_merge(Some(path_text(base@)), path_text(path@), 0, seq![])),
        (valid_utf8(base@) && valid_utf8(path@) && !has_nul(base@) && !has_nul(path@))
            ==> bytes_result(r) == merge_status(spec_merge(Some(base@), path@, 0, seq![])),
{
    let b = match path_to_cstring(base, pool) {
        Ok(c) => c,
        Err(e) => {
            return Err(e);
        },
    };
    let p = match path_to_cstring(path, pool) {
        Ok(c) => c,
        Err(e) => {
            return Err(e);
        },
    };
    let none: Vec<u8> = Vec::new();
    merge_to_status(Some(b.as_bytes()), p.as_bytes(), 0, none.as_slice())
}

/// `k` segments `../` in a row.
pub open spec fn dotdots(k: nat) -> Seq<u8>
    decreases k,
{
    if k == 0 {
        seq![]
    } else {
        dotdots((k - 1) as nat) + dotdot_slash()
    }
}

/// A run of `../` segments: its length, its last byte, and that it ends
/// in a `..` already.
proof fn lemma_dotdots(k: nat)
    requires
        k >= 1,
    ensures
        dotdots(k).len() == 3 * k,
        dotdots(k).last() == 47,
        ends_backpath(dotdots(k)),
        dotdots(k) != seq![47u8],
    decreases k,
{
    let d = dotdots(k);
    if k == 1 {
        assert(dotdots(0) =~= Seq::<u8>::empty());
        assert(d =~= dotdot_slash());
    } else {
        lemma_dotdots((k - 1) as nat);
        let e = dotdots((k - 1) as nat);
        assert(d == e + dotdot_slash());
        assert(d.skip(d.len() - 4) =~= seq![47u8, 46u8, 46u8, 47u8]);
    }
}

/// A `..` merged onto a path that is only `..` segments goes one more
/// level up: it is appended, and never cancels a `..` before it. So `..`
/// joined with `..` gives `../..`, and `../` joined with `../` gives
/// `../../`.
pub proof fn law_dotdot_onto_dotdots(k: nat)
    requires
        k >= 1,
        3 * k + 7 <= APR_PATH_MAX,
    ensures
        spec_merge(Some(dotdots(k)), seq![46u8, 46u8], 0, seq![]) == Ok::<Seq<u8>, u32>(
            dotdots(k) + seq![46u8, 46u8],
        ),
        spec_merge(Some(dotdots(k)), dotdot_slash(), 0, seq![]) == Ok::<Seq<u8>, u32>(
            dotdots(k + 1),
        ),
        spec_merge(Some(dotdots(k).drop_last()), seq![46u8, 46u8], 0, seq![]) == Ok::<
            Seq<u8>,
            u32,
        >(dotdots(k) + seq![46u8, 46u8]),
{
    lemma_dotdots(k);
    let d = dotdots(k);
    assert(!flag(0, APR_FILEPATH_SECUREROOTTEST)) by {
        assert(0i32 & 1i32 == 0) by (bit_vector);
    }
    assert(!flag(0, APR_FILEPATH_NOTABSOLUTE)) by {
        assert(0i32 & 8i32 == 0) by (bit_vector);
    }
    assert(!flag(0, APR_FILEPATH_NOTRELATIVE)) by {
        assert(0i32 & 4i32 == 0) by (bit_vector);
    }
    assert(!flag(0, APR_FILEPATH_NOTABOVEROOT)) by {
        assert(0i32 & 2i32 == 0) by (bit_vector);
    }
    let s0 = MergeState { path: d, kept: d.len() as int };
    let two = seq![46u8, 46u8];
    lemma_first_index(two, 47u8, 2);
    assert(two.take(2) =~= two);
    assert(two.skip(2) =~= Seq::<u8>::empty());
    assert(two != seq![46u8]);
    assert(back_step(s0, false, 0) == Ok::<MergeState, u32>(
        MergeState { path: d + two, kept: d.len() as int },
    ));
    assert(merge_segments(MergeState { path: d + two, kept: d.len() as int }, Seq::<u8>::empty(), 0)
        == Ok::<MergeState, u32>(MergeState { path: d + two, kept: d.len() as int }));
    assert(merge_segments(s0, two, 0) == Ok::<MergeState, u32>(
        MergeState { path: d + two, kept: d.len() as int },
    ));
    let ds = dotdot_slash();
    lemma_first_index(ds, 47u8, 2);
    assert(ds.take(2) =~= two);
    assert(ds.skip(3) =~= Seq::<u8>::empty());
    assert(back_step(s0, true, 0) == Ok::<MergeState, u32>(
        MergeState { path: d + ds, kept: d.len() as int },
    ));
    assert(merge_segments(MergeState { path: d + ds, kept: d.len() as int }, Seq::<u8>::empty(), 0)
        == Ok::<MergeState, u32>(MergeState { path: d + ds, kept: d.len() as int }));
    assert(merge_segments(s0, ds, 0) == Ok::<MergeState, u32>(
        MergeState { path: d + ds, kept: d.len() as int },
    ));
    assert(dotdots(k + 1) == d + ds);
    let dl = d.drop_last();
    assert(dl.len() > 0 && dl.last() != 47) by {
        if k == 1 {
            assert(dotdots(0) =~= Seq::<u8>::empty());
            assert(d =~= dotdot_slash());
        } else {
            let e = dotdots((k - 1) as nat);
            assert(d == e + dotdot_slash());
            assert(dl.last() == d[d.len() - 2]);
        }
    }
    assert(dl.push(47u8) =~= d);
}

/// A `..` merged onto a root whose last segment is a name (not `..`)
/// takes that segment off: the result is the root up to the `/` before
/// it, and nothing for a root of one segment.
pub proof fn law_dotdot_crops_name(r: Seq<u8>, n: Seq<u8>)
    requires
        r.len() == 0 || r.last() == 47,
        n.len() > 0,
        !n.contains(47u8),
        n != seq![46u8, 46u8],
        r.len() + n.len() + 7 <= APR_PATH_MAX,
    ensures
        spec_merge(Some(r + n + seq![47u8]), seq![46u8, 46u8], 0, seq![]) == Ok::<Seq<u8>, u32>(r),
{
    let p = r + n + seq![47u8];
    assert(!flag(0, APR_FILEPATH_SECUREROOTTEST)) by {
        assert(0i32 & 1i32 == 0) by (bit_vector);
    }
    assert(!flag(0, APR_FILEPATH_NOTABSOLUTE)) by {
        assert(0i32 & 8i32 == 0) by (bit_vector);
    }
    assert(!flag(0, APR_FILEPATH_NOTRELATIVE)) by {
        assert(0i32 & 4i32 == 0) by (bit_vector);
    }
    assert(!flag(0, APR_FILEPATH_NOTABOVEROOT)) by {
        assert(0i32 & 2i32 == 0) by (bit_vector);
    }
    assert(p.last() == 47);
    assert(p != seq![47u8]) by {
        assert(p.len() >= 2);
    }
    assert(!ends_backpath(p)) by {
        if p.len() == 3 && p == dotdot_slash() {
            assert(r.len() == 0) by {
                if r.len() > 0 {
                    assert(r.last() == 47 && p[r.len() - 1] == 47);
                }
            }
            assert(n =~= seq![46u8, 46u8]);
        }
        if p.len() > 3 && p.skip(p.len() - 4) == seq![47u8, 46u8, 46u8, 47u8] {
            if n.len() >= 3 {
                assert(n[n.len() - 3] == p[p.len() - 4]);
                assert(n.contains(47u8));
            } else if n.len() == 2 {
                assert(n =~= seq![46u8, 46u8]);
            } else {
                assert(n[0] == p[p.len() - 2]);
                assert(p[p.len() - 3] == 46);
                assert(r.last() == p[p.len() - 3]);
            }
        }
    }
    let m = p.len() - 1;
    assert forall|j: int| r.len() <= j < m implies p[j] != 47 by {
        assert(p[j] == n[j - r.len()]);
        if n[j - r.len()] == 47 {
            assert(n.contains(47u8));
        }
    }
    lemma_last_slash_run(p, r.len() as int, m);
    if r.len() > 0 {
        assert(p[r.len() - 1] == 47);
        assert(last_slash_before(p, r.len() as int) == r.len() - 1);
    } else {
        assert(last_slash_before(p, 0) == -1);
    }
    assert(crop(p) =~= r);
    let two = seq![46u8, 46u8];
    lemma_first_index(two, 47u8, 2);
    assert(two.take(2) =~= two);
    assert(two.skip(2) =~= Seq::<u8>::empty());
    assert(two != seq![46u8]);
    let s0 = MergeState { path: p, kept: p.len() as int };
    assert(back_step(s0, false, 0) == Ok::<MergeState, u32>(
        MergeState { path: r, kept: r.len() as int },
    ));
    assert(merge_segments(MergeState { path: r, kept: r.len() as int }, Seq::<u8>::empty(), 0)
        == Ok::<MergeState, u32>(MergeState { path: r, kept: r.len() as int }));
    assert(merge_segments(s0, two, 0) == Ok::<MergeState, u32>(
        MergeState { path: r, kept: r.len() as int },
    ));
}

/// Within a run of bytes that are not `/`, the last `/` before any
/// position is the one before the run.
proof fn lemma_last_slash_run(p: Seq<u8>, a: int, j: int)
    requires
        0 <= a <= j < p.len(),
        forall|i: int| a <= i < j ==> p[i] != 47,
    ensures
        last_slash_before(p, j) == last_slash_before(p, a),
    decreases j - a,
{
    if j > a {
        assert(p[j - 1] != 47);
        lemma_last_slash_run(p, a, j - 1);
    }
}

/// A name merged onto a root is appended to it, after a `/` that is added
/// where the root does not end in one: `a` joined with `b` gives `a/b`, and
/// `a/` joined with `b/` gives `a/b/`.
pub proof fn law_name_appended(r: Seq<u8>, n: Seq<u8>)
    requires
        n.len() > 0,
        !n.contains(47u8),
        n != seq![46u8],
        n != seq![46u8, 46u8],
        r.len() + n.len() + 8 <= APR_PATH_MAX,
    ensures
        spec_merge(Some(r), n, 0, seq![]) == Ok::<Seq<u8>, u32>(
            if r.len() > 0 && r.last() != 47 {
                r.push(47u8) + n
            } else {
                r + n
            },
        ),
        spec_merge(Some(r), n.push(47u8), 0, seq![]) == Ok::<Seq<u8>, u32>(
            if r.len() > 0 && r.last() != 47 {
                r.push(47u8) + n.push(47u8)
            } else {
                r + n.push(47u8)
            },
        ),
{
    assert(!flag(0, APR_FILEPATH_SECUREROOTTEST)) by {
        assert(0i32 & 1i32 == 0) by (bit_vector);
    }
    assert(!flag(0, APR_FILEPATH_NOTABSOLUTE)) by {
        assert(0i32 & 8i32 == 0) by (bit_vector);
    }
    assert(!flag(0, APR_FILEPATH_NOTRELATIVE)) by {
        assert(0i32 & 4i32 == 0) by (bit_vector);
    }
    assert(!flag(0, APR_FILEPATH_NOTABOVEROOT)) by {
        assert(0i32 & 2i32 == 0) by (bit_vector);
    }
    assert(n[0] != 47) by {
        if n[0] == 47 {
            assert(n.contains(47u8));
        }
    }
    let start = if r.len() > 0 && r.last() != 47 {
        MergeState { path: r.push(47u8), kept: r.len() + 1int }
    } else {
        MergeState { path: r, kept: r.len() as int }
    };
    assert forall|j: int| 0 <= j < n.len() implies n[j] != 47 by {
        if n[j] == 47 {
            assert(n.contains(47u8));
        }
    }
    lemma_first_index(n, 47u8, n.len() as int);
    assert(n.take(n.len() as int) =~= n);
    assert(n.skip(n.len() as int) =~= Seq::<u8>::empty());
    let e = MergeState { path: start.path + n, kept: start.kept };
    assert(merge_segments(e, Seq::<u8>::empty(), 0) == Ok::<MergeState, u32>(e));
    assert(merge_segments(start, n, 0) == Ok::<MergeState, u32>(e));
    let ns = n.push(47u8);
    assert forall|j: int| 0 <= j < n.len() implies ns[j] != 47 by {
        assert(ns[j] == n[j]);
    }
    lemma_first_index(ns, 47u8, n.len() as int);
    assert(ns.take(n.len() as int) =~= n);
    assert(ns.take(n.len() as int + 1) =~= ns);
    assert(ns.skip(n.len() as int + 1) =~= Seq::<u8>::empty());
    let e2 = MergeState { path: start.path + ns, kept: start.kept };
    assert(merge_segments(e2, Seq::<u8>::empty(), 0) == Ok::<MergeState, u32>(e2));
    assert(merge_segments(start, ns, 0) == Ok::<MergeState, u32>(e2));
    if r.len() > 0 && r.last() != 47 {
        assert((r.push(47u8) + n).take(r.len() as int) =~= r);
        assert((r.push(47u8) + ns).take(r.len() as int) =~= r);
    } else {
        assert((r + n).take(r.len() as int) =~= r);
        assert((r + ns).take(r.len() as int) =~= r);
    }
}

} // verus!
