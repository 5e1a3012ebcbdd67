//! The substitution engine: scans a byte payload for placeholder tokens of
//! the form `{{key}}` and replaces each with the value resolved for `key`.
//!
//! The payload is scanned byte-wise; the open marker is two `{` bytes (123)
//! and the close marker two `}` bytes (125), which never occur inside a
//! multi-byte UTF-8 character. A token whose key is not in the context is a
//! fatal error; an open marker with no close marker passes through
//! unchanged, as does content with no markers at all.

use vstd::prelude::*;

use crate::model::{ArgSpec, ContentEntry, ResolvedArg, SubstitutionError, Template};
use crate::scan::bytes_eq;

verus! {

/// The index of the first close marker (two `}` bytes) in `s`, if any.
pub open spec fn find_close(s: Seq<u8>) -> Option<int>
    decreases s.len(),
{
    if s.len() < 2 {
        None
    } else if s[0] == 125 && s[1] == 125 {
        Some(0)
    } else {
        match find_close(s.skip(1)) {
            None => None,
            Some(j) => Some(j + 1),
        }
    }
}

/// The value the context resolves `key` to: the value of the first argument
/// whose key matches, if any.
pub open spec fn lookup(ctx: Seq<ResolvedArg>, key: Seq<u8>) -> Option<Seq<u8>>
    decreases ctx.len(),
{
    if ctx.len() == 0 {
        None
    } else if ctx[0].key@ == key {
        Some(ctx[0].value@)
    } else {
        lookup(ctx.skip(1), key)
    }
}

/// The result of substituting every placeholder token in `s` against `ctx`:
/// the rewritten bytes, or nothing when a token's key is unknown. Ordinary
/// bytes pass through; at an open marker the enclosed key runs to the first
/// close marker; an open marker that is never closed passes the remainder
/// through unchanged.
pub open spec fn subst_spec(s: Seq<u8>, ctx: Seq<ResolvedArg>) -> Option<Seq<u8>>
    decreases s.len(),
{
    if s.len() == 0 {
        Some(Seq::empty())
    } else if s.len() >= 2 && s[0] == 123 && s[1] == 123 {
        match find_close(s.skip(2)) {
            None => Some(s),
            Some(j) => if 0 <= j && 4 + j <= s.len() {
                match lookup(ctx, s.subrange(2, 2 + j)) {
                    None => None,
                    Some(v) => match subst_spec(s.skip(4 + j), ctx) {
                        None => None,
                        Some(t) => Some(v + t),
                    },
                }
            } else {
                Some(s)
            },
        }
    } else {
        match subst_spec(s.skip(1), ctx) {
            None => None,
            Some(t) => Some(seq![s[0]] + t),
        }
    }
}

/// Whether `s` holds an open marker anywhere.
pub open spec fn has_open(s: Seq<u8>) -> bool {
    exists|i: int| 0 <= i && i + 1 < s.len() && #[trigger] s[i] == 123 && s[i + 1] == 123
}

pub proof fn lemma_find_close_none(s: Seq<u8>)
    requires
        find_close(s) is None,
    ensures
        forall|m: int| 0 <= m && m + 1 < s.len() ==> !(#[trigger] s[m] == 125 && s[m + 1] == 125),
    decreases s.len(),
{
    if s.len() < 2 {
    } else {
        lemma_find_close_none(s.skip(1));
        assert forall|m: int| 0 <= m && m + 1 < s.len() implies !(#[trigger] s[m] == 125 && s[m + 1]
            == 125) by {
            if m > 0 {
                assert(s.skip(1)[m - 1] == s[m]);
                assert(s.skip(1)[m] == s[m + 1]);
            }
        };
    }
}

pub proof fn lemma_find_close_some(s: Seq<u8>)
    requires
        find_close(s) is Some,
    ensures
        ({
            let j = find_close(s).unwrap();
            0 <= j && j + 1 < s.len() && s[j] == 125 && s[j + 1] == 125 && forall|m: int|
                0 <= m < j ==> !(#[trigger] s[m] == 125 && s[m + 1] == 125)
        }),
    decreases s.len(),
{
    if s.len() < 2 {
    } else if s[0] == 125 && s[1] == 125 {
    } else {
        if find_close(s.skip(1)) is Some {
            lemma_find_close_some(s.skip(1));
            let j = find_close(s).unwrap();
            assert(s.skip(1)[j - 1] == s[j]);
            assert(s.skip(1)[j] == s[j + 1]);
            assert forall|m: int| 0 <= m < j implies !(#[trigger] s[m] == 125 && s[m + 1]
                == 125) by {
                if m > 0 {
                    assert(s.skip(1)[m - 1] == s[m]);
                    assert(s.skip(1)[m] == s[m + 1]);
                }
            };
        }
    }
}

pub proof fn lemma_find_close_at(s: Seq<u8>, j: int)
    requires
        0 <= j,
        j + 1 < s.len(),
        s[j] == 125,
        s[j + 1] == 125,
        forall|m: int| 0 <= m < j ==> !(#[trigger] s[m] == 125 && s[m + 1] == 125),
    ensures
        find_close(s) == Some(j),
    decreases s.len(),
{
    if j == 0 {
    } else {
        assert(!(s[0] == 125 && s[1] == 125));
        assert(s.skip(1)[j - 1] == s[j]);
        assert(s.skip(1)[j] == s[j + 1]);
        assert forall|m: int| 0 <= m < j - 1 implies !(#[trigger] s.skip(1)[m] == 125 && s.skip(1)[m + 1]
            == 125) by {
            assert(s.skip(1)[m] == s[m + 1]);
            assert(s.skip(1)[m + 1] == s[m + 2]);
        };
        lemma_find_close_at(s.skip(1), j - 1);
    }
}

/// Content with no placeholder tokens passes through the substitution engine
/// unchanged, whatever the context.
pub proof fn lemma_subst_no_tokens(s: Seq<u8>, ctx: Seq<ResolvedArg>)
    requires
        !has_open(s),
    ensures
        subst_spec(s, ctx) == Some(s),
    decreases s.len(),
{
    if s.len() == 0 {
        assert(Seq::<u8>::empty() =~= s);
    } else if s.len() >= 2 && s[0] == 123 && s[1] == 123 {
        assert(has_open(s));
    } else {
        assert(!has_open(s.skip(1))) by {
            if has_open(s.skip(1)) {
                let i = choose|i: int|
                    0 <= i && i + 1 < s.skip(1).len() && #[trigger] s.skip(1)[i] == 123 && s.skip(
                        1,
                    )[i + 1] == 123;
                assert(s[i + 1] == s.skip(1)[i]);
                assert(s[i + 2] == s.skip(1)[i + 1]);
                assert(has_open(s));
            }
        };
        lemma_subst_no_tokens(s.skip(1), ctx);
        assert(seq![s[0]] + s.skip(1) =~= s);
    }
}

/// Substitution is idempotent once resolved: if a first pass succeeds and
/// its output holds no further placeholder tokens, a second pass with the
/// same context returns that output unchanged.
pub proof fn lemma_subst_idempotent(s: Seq<u8>, ctx: Seq<ResolvedArg>)
    requires
        subst_spec(s, ctx) is Some,
        !has_open(subst_spec(s, ctx).unwrap()),
    ensures
        subst_spec(subst_spec(s, ctx).unwrap(), ctx) == subst_spec(s, ctx),
{
    lemma_subst_no_tokens(subst_spec(s, ctx).unwrap(), ctx);
}


/// Whether a byte sequence holds no marker byte (neither `{` nor `}`).
pub open spec fn marker_free(s: Seq<u8>) -> bool {
    forall|m: int| 0 <= m < s.len() ==> #[trigger] s[m] != 123 && s[m] != 125
}

/// Whether every key of the context is marker-free.
pub open spec fn marker_free_keys(ctx: Seq<ResolvedArg>) -> bool {
    forall|i: int| 0 <= i < ctx.len() ==> marker_free(#[trigger] ctx[i].key@)
}

pub proof fn lemma_lookup_needs_marker_free(ctx: Seq<ResolvedArg>, key: Seq<u8>)
    requires
        marker_free_keys(ctx),
        !marker_free(key),
    ensures
        lookup(ctx, key) is None,
    decreases ctx.len(),
{
    if ctx.len() == 0 {
    } else {
        assert(marker_free(ctx[0].key@));
        assert(ctx[0].key@ != key);
        assert(marker_free_keys(ctx.skip(1))) by {
            assert forall|i: int| 0 <= i < ctx.skip(1).len() implies marker_free(
                #[trigger] ctx.skip(1)[i].key@,
            ) by {
                assert(ctx.skip(1)[i] == ctx[i + 1]);
            };
        };
        lemma_lookup_needs_marker_free(ctx.skip(1), key);
    }
}

/// An unknown key is fatal in general: whenever the payload holds a
/// well-formed placeholder token whose marker-free key `z` is not in the
/// context, and no context key holds a marker byte itself, substitution of
/// the whole payload fails. (A context key holding an open marker could
/// absorb the token into a larger, declared key; such contexts are left
/// out.)
pub proof fn lemma_unknown_key_fatal(s: Seq<u8>, ctx: Seq<ResolvedArg>, p: int, z: Seq<u8>)
    requires
        0 <= p,
        p + z.len() + 4 <= s.len(),
        s[p] == 123,
        s[p + 1] == 123,
        z == s.subrange(p + 2, p + 2 + z.len() as int),
        marker_free(z),
        s[p + 2 + z.len()] == 125,
        s[p + 3 + z.len()] == 125,
        lookup(ctx, z) is None,
        marker_free_keys(ctx),
    ensures
        subst_spec(s, ctx) is None,
    decreases s.len(),
{
    let zl = z.len() as int;
    if s.len() >= 2 && s[0] == 123 && s[1] == 123 {
        let t = s.skip(2);
        assert(t[p + zl] == s[p + 2 + zl]);
        assert(t[p + zl + 1] == s[p + 3 + zl]);
        if find_close(t) is None {
            lemma_find_close_none(t);
            assert(false);
        }
        lemma_find_close_some(t);
        let j = find_close(t).unwrap();
        if j > p + zl {
            assert(!(t[p + zl] == 125 && t[p + zl + 1] == 125));
            assert(false);
        }
        let k = s.subrange(2, 2 + j);
        if lookup(ctx, k) is Some {
            // the scanned key is declared, hence marker-free
            assert(marker_free(k)) by {
                if !marker_free(k) {
                    lemma_lookup_needs_marker_free(ctx, k);
                }
            };
            if p == 0 {
                // the scanned token is the token at p itself: its key is z
                if j < zl {
                    assert(t[j] == s[j + 2]);
                    assert(z[j] == s[j + 2]);
                    assert(false);
                }
                assert(k =~= z);
                assert(false);
            }
            if p < j + 2 {
                // an open-marker byte would sit inside the marker-free key
                if p >= 2 {
                    assert(k[p - 2] == s[p]);
                    assert(false);
                } else {
                    if j == 0 {
                        assert(t[0] == s[2]);
                        assert(false);
                    }
                    assert(t[0] == s[2]);
                    assert(k[0] == s[2]);
                    assert(false);
                }
            }
            // the token at p starts after the close marker of the scanned one
            assert(s[j + 2] == t[j]);
            assert(s[j + 3] == t[j + 1]);
            assert(p >= j + 4);
            let s2 = s.skip(4 + j);
            let p2 = p - 4 - j;
            assert(s2[p2] == s[p]);
            assert(s2[p2 + 1] == s[p + 1]);
            assert(s2[p2 + 2 + zl] == s[p + 2 + zl]);
            assert(s2[p2 + 3 + zl] == s[p + 3 + zl]);
            assert(s2.subrange(p2 + 2, p2 + 2 + zl) =~= s.subrange(p + 2, p + 2 + zl));
            lemma_unknown_key_fatal(s2, ctx, p2, z);
            assert(subst_spec(s, ctx) is None);
        }
    } else {
        // no token opens at the front, so the token at p lies further in
        if p == 0 {
            assert(false);
        }
        let s1 = s.skip(1);
        assert(s1[p - 1] == s[p]);
        assert(s1[p] == s[p + 1]);
        assert(s1[p + 1 + zl] == s[p + 2 + zl]);
        assert(s1[p + 2 + zl] == s[p + 3 + zl]);
        assert(s1.subrange(p + 1, p + 1 + zl) =~= s.subrange(p + 2, p + 2 + zl));
        lemma_unknown_key_fatal(s1, ctx, p - 1, z);
        assert(subst_spec(s, ctx) is None);
    }
}

/// The value the context resolves `key` to, if any.
fn lookup_value(ctx: &Vec<ResolvedArg>, key: &Vec<u8>) -> (r: Option<Vec<u8>>)
    ensures
        r is Some <==> lookup(ctx@, key@) is Some,
        r matches Some(v) ==> v@ == lookup(ctx@, key@).unwrap(),
{
    let mut k: usize = 0;
    proof {
        assert(ctx@.skip(0) =~= ctx@);
    }
    while k < ctx.len()
        invariant
            k <= ctx@.len(),
            lookup(ctx@, key@) == lookup(ctx@.skip(k as int), key@),
        decreases ctx@.len() - k,
    {
        proof {
            assert(ctx@.skip(k as int)[0] == ctx@[k as int]);
            assert(ctx@.skip(k as int).skip(1) =~= ctx@.skip(k + 1));
        }
        if bytes_eq(&ctx[k].key, key) {
            return Some(ctx[k].value.clone());
        }
        k = k + 1;
    }
    proof {
        assert(ctx@.skip(k as int) =~= Seq::<ResolvedArg>::empty());
    }
    None
}

/// Substitute every placeholder token in `payload` against the resolved
/// context, returning the rewritten bytes, or `UnknownKey` exactly when some
/// token's key is not in the context.
#[verifier::rlimit(60)]
pub fn parse(payload: &Vec<u8>, ctx: &Vec<ResolvedArg>) -> (r: Result<Vec<u8>, SubstitutionError>)
    ensures
        r is Ok <==> subst_spec(payload@, ctx@) is Some,
        r matches Ok(v) ==> v@ == subst_spec(payload@, ctx@).unwrap(),
        r is Err ==> r == Err::<Vec<u8>, SubstitutionError>(SubstitutionError::UnknownKey),
{
    let mut out: Vec<u8> = Vec::new();
    let mut i: usize = 0;
    let n = payload.len();
    proof {
        assert(payload@.skip(0) =~= payload@);
    }
    while i < n
        invariant
            i <= n,
            n == payload@.len(),
            subst_spec(payload@, ctx@) == (match subst_spec(payload@.skip(i as int), ctx@) {
                None => None::<Seq<u8>>,
                Some(t) => Some(out@ + t),
            }),
        decreases n - i,
    {
        let ghost rest = payload@.skip(i as int);
        proof {
            assert(rest[0] == payload@[i as int]);
            if rest.len() >= 2 {
                assert(rest[1] == payload@[i + 1]);
            }
            assert(rest.skip(1) =~= payload@.skip(i + 1));
        }
        if i + 1 < n && payload[i] == 123 && payload[i + 1] == 123 {
            proof {
                assert(rest.skip(2) =~= payload@.skip(i + 2));
            }
            // scan for the first close marker at or after i + 2
            let mut j: usize = i + 2;
            let mut found: bool = false;
            while j < n - 1 && !found
                invariant
                    i + 2 <= j <= n,
                    n == payload@.len(),
                    !found ==> forall|m: int|
                        i + 2 <= m < j ==> !(#[trigger] payload@[m] == 125 && payload@[m + 1] == 125),
                    found ==> j + 1 < n && payload@[j as int] == 125 && payload@[j + 1] == 125 && (
                    forall|m: int| i + 2 <= m < j ==> !(#[trigger] payload@[m] == 125 && payload@[m + 1]
                        == 125)),
                decreases n - j + (if found {
                    0int
                } else {
                    1int
                }),
            {
                if payload[j] == 125 && payload[j + 1] == 125 {
                    found = true;
                } else {
                    j = j + 1;
                }
            }
            let ghost tail = payload@.skip(i + 2);
            if !found {
                // no close marker: the remainder passes through unchanged
                proof {
                    assert forall|m: int| 0 <= m && m + 1 < tail.len() implies !(#[trigger] tail[m] == 125
                        && tail[m + 1] == 125) by {
                        assert(tail[m] == payload@[m + i + 2]);
                        assert(tail[m + 1] == payload@[m + i + 3]);
                    };
                    if find_close(tail) is Some {
                        lemma_find_close_some(tail);
                    }
                    assert(find_close(tail) is None);
                    assert(subst_spec(rest, ctx@) == Some(rest));
                }
                let ghost out0 = out@;
                let mut k: usize = i;
                while k < n
                    invariant
                        i <= k <= n,
                        n == payload@.len(),
                        out@ == out0 + payload@.subrange(i as int, k as int),
                    decreases n - k,
                {
                    proof {
                        assert(payload@.subrange(i as int, k as int).push(payload@[k as int])
                            =~= payload@.subrange(i as int, k + 1));
                        assert((out0 + payload@.subrange(i as int, k as int)).push(
                            payload@[k as int]) =~= out0 + payload@.subrange(i as int, k + 1));
                    }
                    out.push(payload[k]);
                    k = k + 1;
                }
                proof {
                    assert(payload@.subrange(i as int, n as int) =~= rest);
                }
                return Ok(out);
            }
            // close marker found at j: the key is payload[i+2 .. j]
            proof {
                assert(tail[j - i - 2] == payload@[j as int]);
                assert(tail[j - i - 1] == payload@[j + 1]);
                assert forall|m: int| 0 <= m < j - i - 2 implies !(#[trigger] tail[m] == 125 && tail[m + 1]
                    == 125) by {
                    assert(tail[m] == payload@[m + i + 2]);
                    assert(tail[m + 1] == payload@[m + i + 3]);
                };
                lemma_find_close_at(tail, j - i - 2);
            }
            let mut key: Vec<u8> = Vec::new();
            let mut k: usize = i + 2;
            while k < j
                invariant
                    i + 2 <= k <= j,
                    j < n,
                    n == payload@.len(),
                    key@ == payload@.subrange(i + 2, k as int),
                decreases j - k,
            {
                proof {
                    assert(payload@.subrange(i + 2, k as int).push(payload@[k as int])
                        =~= payload@.subrange(i + 2, k + 1));
                }
                key.push(payload[k]);
                k = k + 1;
            }
            proof {
                assert(rest.subrange(2, 2 + (j - i - 2)) =~= payload@.subrange(i + 2, j as int));
            }
            match lookup_value(ctx, &key) {
                None => {
                    proof {
                        assert(subst_spec(rest, ctx@) is None);
                    }
                    return Err(SubstitutionError::UnknownKey);
                },
                Some(v) => {
                    let ghost out0 = out@;
                    let mut k2: usize = 0;
                    while k2 < v.len()
                        invariant
                            k2 <= v@.len(),
                            out@ == out0 + v@.subrange(0, k2 as int),
                        decreases v@.len() - k2,
                    {
                        proof {
                            assert(v@.subrange(0, k2 as int).push(v@[k2 as int]) =~= v@.subrange(
                                0,
                                k2 + 1,
                            ));
                            assert((out0 + v@.subrange(0, k2 as int)).push(v@[k2 as int]) =~= out0
                                + v@.subrange(0, k2 + 1));
                        }
                        out.push(v[k2]);
                        k2 = k2 + 1;
                    }
                    proof {
                        assert(v@.subrange(0, v@.len() as int) =~= v@);
                        assert(rest.skip(4 + (j - i - 2)) =~= payload@.skip(j + 2));
                        let t_opt = subst_spec(payload@.skip(j + 2), ctx@);
                        if t_opt is Some {
                            let t = t_opt.unwrap();
                            assert((out0 + v@) + t =~= out0 + (v@ + t));
                        }
                    }
                    i = j + 2;
                },
            }
        } else {
            let b = payload[i];
            proof {
                assert(subst_spec(rest, ctx@) == (match subst_spec(payload@.skip(i + 1), ctx@) {
                    None => None::<Seq<u8>>,
                    Some(t) => Some(seq![b] + t),
                }));
                let t_opt = subst_spec(payload@.skip(i + 1), ctx@);
                if t_opt is Some {
                    let t = t_opt.unwrap();
                    assert(out@.push(b) + t =~= out@ + (seq![b] + t));
                    assert(out@.push(b) =~= out@ + seq![b]);
                }
            }
            out.push(b);
            i = i + 1;
        }
    }
    proof {
        assert(payload@.skip(i as int) =~= Seq::<u8>::empty());
        assert(out@ + Seq::<u8>::empty() =~= out@);
    }
    Ok(out)
}


/// The value an argument resolves to: the operator's response when it is
/// non-empty; otherwise the declared default, or the empty string when there
/// is none.
pub open spec fn resolved_value_spec(default: Option<Vec<u8>>, response: Seq<u8>) -> Seq<u8> {
    if response.len() > 0 {
        response
    } else {
        match default {
            Some(d) => d@,
            None => Seq::empty(),
        }
    }
}

/// Build the shared substitution context from the declared arguments and the
/// operator's responses, one response per argument, in declaration order.
/// An empty response falls back to the argument's default when one is
/// declared, and to the empty string otherwise; resolution itself never
/// fails.
#[verifier::rlimit(30)]
pub fn resolve_args(specs: &Vec<ArgSpec>, responses: &Vec<Vec<u8>>) -> (r: Vec<ResolvedArg>)
    requires
        specs@.len() == responses@.len(),
    ensures
        r@.len() == specs@.len(),
        forall|i: int|
            0 <= i < specs@.len() ==> #[trigger] r@[i].key@ == specs@[i].key@ && r@[i].value@
                == resolved_value_spec(specs@[i].default, responses@[i]@),
{
    let mut r: Vec<ResolvedArg> = Vec::new();
    let mut i: usize = 0;
    while i < specs.len()
        invariant
            i <= specs@.len(),
            specs@.len() == responses@.len(),
            r@.len() == i,
            forall|k: int|
                0 <= k < i ==> #[trigger] r@[k].key@ == specs@[k].key@ && r@[k].value@
                    == resolved_value_spec(specs@[k].default, responses@[k]@),
        decreases specs@.len() - i,
    {
        let key = specs[i].key.clone();
        let value: Vec<u8> = if responses[i].len() > 0 {
            responses[i].clone()
        } else {
            match &specs[i].default {
                Some(d) => d.clone(),
                None => Vec::new(),
            }
        };
        proof {
            assert(key@ == specs@[i as int].key@);
            assert(value@ == resolved_value_spec(specs@[i as int].default, responses@[i as int]@));
        }
        r.push(ResolvedArg { key, value });
        proof {
            assert forall|k: int|
                0 <= k < i + 1 implies #[trigger] r@[k].key@ == specs@[k].key@ && r@[k].value@
                == resolved_value_spec(specs@[k].default, responses@[k]@) by {
                if k == i {
                    assert(r@[k] == ResolvedArg { key, value });
                }
            };
        }
        i = i + 1;
    }
    r
}

/// Apply the substitution engine to every content payload, sharing the one
/// resolved context. A template that declares no arguments bypasses the
/// engine entirely: its contents come back unchanged, byte for byte. With
/// declared arguments, every payload is substituted, and the first unknown
/// key aborts the whole preparation with `UnknownKey` before anything
/// reaches the filesystem.
pub fn prepare_contents(template: &Template, ctx: &Vec<ResolvedArg>) -> (r: Result<
    Vec<ContentEntry>,
    SubstitutionError,
>)
    ensures
        template.args is None ==> r is Ok,
        r matches Ok(v) ==> template.args is None ==> v@.len() == template.contents@.len() && (
        forall|i: int|
            0 <= i < v@.len() ==> #[trigger] v@[i].file_path@ == template.contents@[i].file_path@
                && v@[i].payload@ == template.contents@[i].payload@),
        template.args is Some ==> (r is Ok <==> (forall|i: int|
            0 <= i < template.contents@.len() ==> #[trigger] subst_spec(
                template.contents@[i].payload@,
                ctx@,
            ) is Some)),
        r matches Ok(v) ==> template.args is Some ==> v@.len() == template.contents@.len() && (
        forall|i: int|
            0 <= i < v@.len() ==> #[trigger] v@[i].file_path@ == template.contents@[i].file_path@
                && v@[i].payload@ == subst_spec(template.contents@[i].payload@, ctx@).unwrap()),
        r is Err ==> r == Err::<Vec<ContentEntry>, SubstitutionError>(SubstitutionError::UnknownKey)
            && template.args is Some && (exists|i: int|
            0 <= i < template.contents@.len() && #[trigger] subst_spec(
                template.contents@[i].payload@,
                ctx@,
            ) is None),
{
    let mut out: Vec<ContentEntry> = Vec::new();
    let n = template.contents.len();
    let args_declared = template.args.is_some();
    if !args_declared {
        let mut i: usize = 0;
        while i < n
            invariant
                i <= n,
                n == template.contents@.len(),
                out@.len() == i,
                forall|k: int|
                    0 <= k < i ==> #[trigger] out@[k].file_path@
                        == template.contents@[k].file_path@ && out@[k].payload@
                        == template.contents@[k].payload@,
            decreases n - i,
        {
            let entry = ContentEntry {
                file_path: template.contents[i].file_path.clone(),
                payload: template.contents[i].payload.clone(),
            };
            out.push(entry);
            proof {
                assert forall|k: int|
                    0 <= k < i + 1 implies #[trigger] out@[k].file_path@
                    == template.contents@[k].file_path@ && out@[k].payload@
                    == template.contents@[k].payload@ by {
                    if k == i {
                        assert(out@[k] == entry);
                    }
                };
            }
            i = i + 1;
        }
        return Ok(out);
    }
    let mut i: usize = 0;
    while i < n
        invariant
            i <= n,
            n == template.contents@.len(),
            template.args is Some,
            out@.len() == i,
            forall|k: int|
                0 <= k < i ==> #[trigger] subst_spec(template.contents@[k].payload@, ctx@) is Some,
            forall|k: int|
                0 <= k < i ==> #[trigger] out@[k].file_path@ == template.contents@[k].file_path@
                    && out@[k].payload@ == subst_spec(template.contents@[k].payload@, ctx@).unwrap(),
        decreases n - i,
    {
        match parse(&template.contents[i].payload, ctx) {
            Err(e) => {
                proof {
                    assert(template.args is Some);
                    assert(subst_spec(template.contents@[i as int].payload@, ctx@) is None);
                }
                return Err(e);
            },
            Ok(p) => {
                let entry = ContentEntry {
                    file_path: template.contents[i].file_path.clone(),
                    payload: p,
                };
                out.push(entry);
                proof {
                    assert forall|k: int|
                        0 <= k < i + 1 implies #[trigger] out@[k].file_path@
                        == template.contents@[k].file_path@ && out@[k].payload@ == subst_spec(
                        template.contents@[k].payload@,
                        ctx@,
                    ).unwrap() by {
                        if k == i {
                            assert(out@[k] == entry);
                        }
                    };
                }
            },
        }
        i = i + 1;
    }
    Ok(out)
}

} // verus!

