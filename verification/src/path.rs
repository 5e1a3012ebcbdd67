//! The path model: platform-neutral separator normalization, prefix
//! handling, joining a relative path under a root, and the rule that keeps a
//! relative path from escaping that root. All of it is pure path
//! arithmetic; nothing here touches a filesystem.

use vstd::prelude::*;

use crate::model::PathError;
use crate::scan::{bytes_eq, split_bytes, split_on, views_of};
use vstd::string::StrSliceExecFns;
use vstd::string::StringSliceAdditionalSpecFns;

verus! {

/// `s` with every backslash (92) replaced by a forward slash (47).
pub open spec fn normalize_seps(s: Seq<u8>) -> Seq<u8> {
    Seq::new(
        s.len(),
        |i: int|
            if s[i] == 92 {
                47u8
            } else {
                s[i]
            },
    )
}

/// Convert backslash separators to the canonical forward-slash form, so
/// displayed paths are deterministic across platforms.
pub fn format_path_namespace(path: Vec<u8>) -> (r: Vec<u8>)
    ensures
        r@ == normalize_seps(path@),
{
    let mut r: Vec<u8> = Vec::new();
    let mut i: usize = 0;
    while i < path.len()
        invariant
            i <= path@.len(),
            r@.len() == i,
            forall|k: int| 0 <= k < i ==> r@[k] == normalize_seps(path@)[k],
        decreases path@.len() - i,
    {
        let b = path[i];
        if b == 92 {
            r.push(47);
        } else {
            r.push(b);
        }
        i = i + 1;
    }
    proof {
        assert(r@ =~= normalize_seps(path@));
    }
    r
}

/// Accept a directory string only if it holds no backslash; backslash
/// separators are invalid syntax for a destination directory.
pub fn valid_directory_path(directory: &str) -> (r: Result<(), PathError>)
    ensures
        r is Ok <==> (forall|i: int|
            0 <= i < directory.spec_bytes().len() ==> directory.spec_bytes()[i] != 92),
        r is Err ==> r == Err::<(), PathError>(PathError::InvalidDirectory),
{
    let bytes = directory.as_bytes_vec();
    let mut i: usize = 0;
    while i < bytes.len()
        invariant
            i <= bytes@.len(),
            bytes@ == directory.spec_bytes(),
            forall|k: int| 0 <= k < i ==> bytes@[k] != 92,
        decreases bytes@.len() - i,
    {
        if bytes[i] == 92 {
            return Err(PathError::InvalidDirectory);
        }
        i = i + 1;
    }
    Ok(())
}

/// One step of component-wise prefix matching: `d` is matched against the
/// front of `p`, with a run of forward slashes on either side treated as a
/// single separator; the result is the remainder of `p` once all of `d` is
/// consumed, or nothing on a mismatch. Separators that remain in `d` when
/// `p` is exhausted are trailing and match.
pub open spec fn prefix_match(p: Seq<u8>, d: Seq<u8>) -> Option<Seq<u8>>
    decreases p.len() + d.len(),
{
    if d.len() == 0 {
        Some(p)
    } else if p.len() == 0 {
        if forall|m: int| 0 <= m < d.len() ==> d[m] == 47 {
            Some(p)
        } else {
            None
        }
    } else if d[0] == 47 && p[0] == 47 {
        if p.len() >= 2 && p[1] == 47 {
            prefix_match(p.skip(1), d)
        } else if d.len() >= 2 && d[1] == 47 {
            prefix_match(p, d.skip(1))
        } else {
            prefix_match(p.skip(1), d.skip(1))
        }
    } else if d[0] == p[0] {
        prefix_match(p.skip(1), d.skip(1))
    } else {
        None
    }
}

/// What stripping `dir` plus a separator off the front of `path` leaves:
/// the remainder, or nothing when the path's leading components do not
/// match the directory's. Repeated separators count as one; an empty path
/// matches nothing.
pub open spec fn strip_dir_prefix(path: Seq<u8>, dir: Seq<u8>) -> Option<Seq<u8>> {
    if path.len() == 0 {
        None
    } else {
        prefix_match(path, dir.push(47))
    }
}

/// Whether `path` lies under `dir`: its leading forward-slash components
/// are those of `dir`; the remainder may be empty.
pub open spec fn has_dir_prefix(path: Seq<u8>, dir: Seq<u8>) -> bool {
    strip_dir_prefix(path, dir) is Some
}

/// Whether every byte of `d` from `from` on is a forward slash.
fn all_seps_from(d: &Vec<u8>, from: usize) -> (r: bool)
    requires
        from as int <= d@.len(),
    ensures
        r ==> (forall|t: int| from <= t < d@.len() ==> #[trigger] d@[t] == 47),
        !r ==> (exists|t: int| from <= t < d@.len() && #[trigger] d@[t] != 47),
{
    let mut m: usize = from;
    while m < d.len()
        invariant
            from <= m <= d@.len(),
            forall|t: int| from <= t < m ==> #[trigger] d@[t] == 47,
        decreases d@.len() - m,
    {
        if d[m] != 47 {
            proof {
                assert(d@[m as int] != 47);
            }
            return false;
        }
        m = m + 1;
    }
    true
}

/// Strip the leading `directory` from `path`, component-wise: the path's
/// leading components must equal the directory's (a run of separators
/// counting as one), and the remainder comes back as it stands in `path`
/// (so the remainder of the directory itself, or of the directory with
/// trailing separators, is empty).
pub fn remove_dir_prefix(path: Vec<u8>, directory: &Vec<u8>) -> (r: Result<Vec<u8>, PathError>)
    ensures
        r is Ok <==> has_dir_prefix(path@, directory@),
        r matches Ok(v) ==> v@ == strip_dir_prefix(path@, directory@).unwrap(),
        r is Err ==> r == Err::<Vec<u8>, PathError>(PathError::MissingPrefix),
{
    if path.len() == 0 {
        return Err(PathError::MissingPrefix);
    }
    let mut d: Vec<u8> = directory.clone();
    d.push(47);
    proof {
        assert(d@ == directory@.push(47u8));
        assert(path@.skip(0) =~= path@);
        assert(d@.skip(0) =~= d@);
    }
    let mut pi: usize = 0;
    let mut di: usize = 0;
    while di < d.len()
        invariant
            pi <= path@.len(),
            di <= d@.len(),
            path@.len() > 0,
            d@ == directory@.push(47u8),
            prefix_match(path@, d@) == prefix_match(path@.skip(pi as int), d@.skip(di as int)),
        decreases path@.len() - pi + d@.len() - di,
    {
        let ghost pr = path@.skip(pi as int);
        let ghost dr = d@.skip(di as int);
        proof {
            assert(dr[0] == d@[di as int]);
            assert(dr.skip(1) =~= d@.skip(di + 1));
            if di + 1 < d@.len() {
                assert(dr[1] == d@[di + 1]);
            }
            if pi < path@.len() {
                assert(pr[0] == path@[pi as int]);
                assert(pr.skip(1) =~= path@.skip(pi + 1));
                if pi + 1 < path@.len() {
                    assert(pr[1] == path@[pi + 1]);
                }
            }
        }
        if pi >= path.len() {
            // the path is exhausted: only trailing separators of the
            // directory prefix may remain
            if all_seps_from(&d, di) {
                proof {
                    assert(pr =~= Seq::<u8>::empty());
                    assert forall|t: int| 0 <= t < dr.len() implies dr[t] == 47 by {
                        assert(dr[t] == d@[t + di]);
                    };
                    assert(prefix_match(pr, dr) == Some(pr));
                }
                return Ok(Vec::new());
            }
            proof {
                let t = choose|t: int| di <= t < d@.len() && #[trigger] d@[t] != 47;
                assert(dr[t - di] == d@[t]);
                assert(pr =~= Seq::<u8>::empty());
                assert(!(forall|m: int| 0 <= m < dr.len() ==> dr[m] == 47));
                assert(prefix_match(pr, dr) is None);
            }
            return Err(PathError::MissingPrefix);
        }
        let bp = path[pi];
        let bd = d[di];
        if bd == 47 && bp == 47 {
            if pi + 1 < path.len() && path[pi + 1] == 47 {
                pi = pi + 1;
            } else if di + 1 < d.len() && d[di + 1] == 47 {
                di = di + 1;
            } else {
                pi = pi + 1;
                di = di + 1;
            }
        } else if bp == bd {
            pi = pi + 1;
            di = di + 1;
        } else {
            return Err(PathError::MissingPrefix);
        }
    }
    proof {
        assert(d@.skip(di as int) =~= Seq::<u8>::empty());
    }
    let mut v: Vec<u8> = Vec::new();
    let ghost start = pi as int;
    let mut k: usize = pi;
    while k < path.len()
        invariant
            0 <= start <= k <= path@.len(),
            v@ == path@.subrange(start, k as int),
        decreases path@.len() - k,
    {
        proof {
            assert(path@.subrange(start, k as int).push(path@[k as int]) =~= path@.subrange(
                start,
                k + 1,
            ));
        }
        v.push(path[k]);
        k = k + 1;
    }
    proof {
        assert(path@.subrange(start, path@.len() as int) =~= path@.skip(start));
    }
    Ok(v)
}

/// The joined form of a relative path under a root: the root, one
/// forward-slash separator unless the root is empty or already ends with
/// one, then the relative path.
pub open spec fn join_path(root: Seq<u8>, rel: Seq<u8>) -> Seq<u8> {
    if root.len() == 0 {
        rel
    } else if root[root.len() - 1] == 47 {
        root + rel
    } else {
        root + seq![47u8] + rel
    }
}

/// Compute the real path of a relative path under the destination
/// directory. Pure path arithmetic; no filesystem access.
pub fn get_real_path(directory: &Vec<u8>, path: &Vec<u8>) -> (r: Vec<u8>)
    ensures
        r@ == join_path(directory@, path@),
{
    let mut r: Vec<u8> = Vec::new();
    let mut i: usize = 0;
    while i < directory.len()
        invariant
            i <= directory@.len(),
            r@ == directory@.subrange(0, i as int),
        decreases directory@.len() - i,
    {
        proof {
            assert(directory@.subrange(0, i as int).push(directory@[i as int])
                =~= directory@.subrange(0, i + 1));
        }
        r.push(directory[i]);
        i = i + 1;
    }
    proof {
        assert(directory@.subrange(0, directory@.len() as int) =~= directory@);
    }
    if directory.len() > 0 && directory[directory.len() - 1] != 47 {
        r.push(47);
        proof {
            assert(directory@.push(47u8) =~= directory@ + seq![47u8]);
        }
    }
    let ghost base = r@;
    let mut k: usize = 0;
    while k < path.len()
        invariant
            k <= path@.len(),
            r@ == base + path@.subrange(0, k as int),
        decreases path@.len() - k,
    {
        proof {
            assert((base + path@.subrange(0, k as int)).push(path@[k as int]) =~= base
                + path@.subrange(0, k + 1));
        }
        r.push(path[k]);
        k = k + 1;
    }
    proof {
        assert(path@.subrange(0, path@.len() as int) =~= path@);
        assert(base + path@ =~= join_path(directory@, path@));
    }
    r
}

/// The parent-traversal segment, two dots.
pub open spec fn dotdot() -> Seq<u8> {
    seq![46u8, 46u8]
}

/// Whether a relative path would resolve outside the destination root once
/// joined, judged platform-neutrally on its separator-normalized form: it
/// is absolute, or one of its segments (backslash counting as a separator
/// too) is the parent-traversal segment.
pub open spec fn escapes_root(rel: Seq<u8>) -> bool {
    (normalize_seps(rel).len() > 0 && normalize_seps(rel)[0] == 47) || split_on(
        normalize_seps(rel),
        47,
    ).contains(dotdot())
}

/// Whether a relative path escapes the destination root.
pub fn path_escapes(rel: &Vec<u8>) -> (r: bool)
    ensures
        r == escapes_root(rel@),
{
    let n = format_path_namespace(rel.clone());
    if n.len() > 0 && n[0] == 47 {
        return true;
    }
    let segments = split_bytes(&n, 47);
    let mut dd: Vec<u8> = Vec::new();
    dd.push(46);
    dd.push(46);
    proof {
        assert(dd@ =~= dotdot());
    }
    let mut k: usize = 0;
    while k < segments.len()
        invariant
            k <= segments@.len(),
            dd@ == dotdot(),
            n@ == normalize_seps(rel@),
            views_of(segments@) == split_on(n@, 47),
            forall|m: int| 0 <= m < k ==> views_of(segments@)[m] != dotdot(),
        decreases segments@.len() - k,
    {
        if bytes_eq(&segments[k], &dd) {
            proof {
                assert(views_of(segments@)[k as int] == dotdot());
                assert(split_on(n@, 47).contains(dotdot()));
            }
            return true;
        }
        k = k + 1;
    }
    proof {
        if split_on(n@, 47).contains(dotdot()) {
            let m = choose|m: int|
                0 <= m < split_on(n@, 47).len() && split_on(n@, 47)[m] == dotdot();
            assert(views_of(segments@)[m] == dotdot());
        }
    }
    false
}

} // verus!
