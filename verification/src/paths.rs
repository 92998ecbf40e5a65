//! Virtual path translation.
//!
//! A path is a sequence of bytes. A host path under a scanned base directory
//! is translated into a virtual path: the base prefix is stripped, the
//! remaining suffix is normalized to forward slashes, and a leading `/` is
//! prepended. The scanned base itself maps to the virtual root `/`.

use vstd::prelude::*;

verus! {

/// The virtual path separator.
pub open spec fn slash() -> u8 {
    47u8
}

/// The host separator that needs rewriting (a backslash).
pub open spec fn backslash() -> u8 {
    92u8
}

/// True for either host path separator byte.
pub open spec fn is_sep(b: u8) -> bool {
    b == slash() || b == backslash()
}

/// Every backslash rewritten to a forward slash.
pub open spec fn unixify_seq(s: Seq<u8>) -> Seq<u8> {
    s.map_values(|b: u8| if b == backslash() { slash() } else { b })
}

/// Extension methods on host path byte strings.
pub trait PathExt: View<V = Seq<u8>> {
    /// Rewrite every backslash to a forward slash.
    fn unixify(&self) -> (r: Vec<u8>)
        ensures
            r@ == unixify_seq(self@),
    ;
}

impl PathExt for Vec<u8> {
    fn unixify(&self) -> (r: Vec<u8>)
        ensures
            r@ == unixify_seq(self@),
    {
        let mut r: Vec<u8> = Vec::new();
        let mut i: usize = 0;
        while i < self.len()
            invariant
                i <= self@.len(),
                r@ == unixify_seq(self@.take(i as int)),
            decreases self@.len() - i,
        {
            let b = self[i];
            if b == 92u8 {
                r.push(47u8);
            } else {
                r.push(b);
            }
            proof {
                assert(unixify_seq(self@.take(i as int + 1)) =~= unixify_seq(
                    self@.take(i as int),
                ).push(if self@[i as int] == backslash() {
                    slash()
                } else {
                    self@[i as int]
                }));
            }
            i += 1;
        }
        proof {
            assert(self@.take(self@.len() as int) =~= self@);
        }
        r
    }
}

/// Copy a path byte string.
pub fn clone_bytes(v: &Vec<u8>) -> (r: Vec<u8>)
    ensures
        r@ == v@,
{
    let mut r: Vec<u8> = Vec::new();
    let mut i: usize = 0;
    while i < v.len()
        invariant
            i <= v@.len(),
            r@ == v@.take(i as int),
        decreases v@.len() - i,
    {
        r.push(v[i]);
        proof {
            assert(v@.take(i as int + 1) =~= v@.take(i as int).push(v@[i as int]));
        }
        i += 1;
    }
    proof {
        assert(v@.take(v@.len() as int) =~= v@);
    }
    r
}

/// Compare two path byte strings.
pub fn bytes_eq(a: &Vec<u8>, b: &Vec<u8>) -> (r: bool)
    ensures
        r == (a@ == b@),
{
    if a.len() != b.len() {
        return false;
    }
    let mut i: usize = 0;
    while i < a.len()
        invariant
            a@.len() == b@.len(),
            i <= a@.len(),
            forall|k: int| 0 <= k < i ==> a@[k] == b@[k],
        decreases a@.len() - i,
    {
        if a[i] != b[i] {
            return false;
        }
        i += 1;
    }
    proof {
        assert(a@ =~= b@);
    }
    true
}

/// `host` lies at or below the directory `base`: `base` is a byte prefix.
pub open spec fn under_base(base: Seq<u8>, host: Seq<u8>) -> bool {
    base.len() <= host.len() && host.take(base.len() as int) == base
}

/// What remains of `host` once the `base` prefix is stripped.
pub open spec fn suffix_of(base: Seq<u8>, host: Seq<u8>) -> Seq<u8> {
    host.skip(base.len() as int)
}

/// Drop one leading separator, if any.
pub open spec fn trim_lead_sep(s: Seq<u8>) -> Seq<u8> {
    if s.len() > 0 && is_sep(s[0]) {
        s.skip(1)
    } else {
        s
    }
}

/// The virtual path for host path `host` under the scanned base `base`:
/// strip the base, normalize separators, prepend the virtual root.
/// The base itself maps to the root `/`.
pub open spec fn translate_seq(base: Seq<u8>, host: Seq<u8>) -> Seq<u8> {
    seq![slash()] + unixify_seq(trim_lead_sep(suffix_of(base, host)))
}

/// Compute the virtual path for `host`, a host path under `base`.
pub fn translate(base: &Vec<u8>, host: &Vec<u8>) -> (r: Vec<u8>)
    requires
        under_base(base@, host@),
    ensures
        r@ == translate_seq(base@, host@),
{
    let mut r: Vec<u8> = Vec::new();
    r.push(47u8);
    let mut i: usize = base.len();
    if i < host.len() {
        let b = host[i];
        if b == 47u8 || b == 92u8 {
            i += 1;
        }
    }
    let ghost start: int = i as int;
    proof {
        assert(r@ =~= seq![slash()] + unixify_seq(host@.subrange(start, start)));
    }
    while i < host.len()
        invariant
            0 <= start <= i as int <= host@.len(),
            r@ == seq![slash()] + unixify_seq(host@.subrange(start, i as int)),
        decreases host@.len() - i,
    {
        let b = host[i];
        if b == 92u8 {
            r.push(47u8);
        } else {
            r.push(b);
        }
        proof {
            assert(unixify_seq(host@.subrange(start, i as int + 1)) =~= unixify_seq(
                host@.subrange(start, i as int),
            ).push(if host@[i as int] == backslash() {
                slash()
            } else {
                host@[i as int]
            }));
        }
        i += 1;
    }
    proof {
        assert(host@.subrange(start, host@.len() as int) =~= trim_lead_sep(
            suffix_of(base@, host@),
        ));
    }
    r
}

/// No byte of `s` is a backslash.
pub open spec fn no_backslash(s: Seq<u8>) -> bool {
    forall|i: int| 0 <= i < s.len() ==> s[i] != backslash()
}

/// `host` is a canonicalized path discovered under the canonicalized base:
/// either the base itself, or the base followed by a separator and a
/// non-empty remainder, with no backslash anywhere past the base. A
/// canonicalized base path is never empty.
pub open spec fn canonical_under(base: Seq<u8>, host: Seq<u8>) -> bool {
    &&& base.len() > 0
    &&& under_base(base, host)
    &&& (host.len() == base.len() || (is_sep(host[base.len() as int]) && host.len() > base.len()
        + 1))
    &&& no_backslash(suffix_of(base, host))
}

/// Backslash-free byte strings are unchanged by separator normalization.
pub proof fn lemma_unixify_id(s: Seq<u8>)
    requires
        no_backslash(s),
    ensures
        unixify_seq(s) == s,
{
    assert(unixify_seq(s) =~= s);
}

/// A host path under a base is the base followed by the stripped suffix.
pub proof fn lemma_base_plus_suffix(base: Seq<u8>, host: Seq<u8>)
    requires
        under_base(base, host),
    ensures
        host == base + suffix_of(base, host),
{
    assert(host =~= base + suffix_of(base, host));
}

/// Law: a translated virtual path contains only forward slashes, whatever
/// separator convention the host path used.
pub proof fn lemma_separator_normalization(base: Seq<u8>, host: Seq<u8>)
    ensures
        forall|i: int|
            0 <= i < translate_seq(base, host).len() ==> translate_seq(base, host)[i]
                != backslash(),
{
    let t = translate_seq(base, host);
    let u = unixify_seq(trim_lead_sep(suffix_of(base, host)));
    assert forall|i: int| 0 <= i < t.len() implies t[i] != backslash() by {
        if i > 0 {
            assert(t[i] == u[i - 1]);
        }
    }
}

/// Law: under one scanned base, translation is injective on canonical host
/// paths, so no two distinct host paths share a virtual path.
pub proof fn lemma_translate_injective(base: Seq<u8>, h1: Seq<u8>, h2: Seq<u8>)
    requires
        canonical_under(base, h1),
        canonical_under(base, h2),
        translate_seq(base, h1) == translate_seq(base, h2),
    ensures
        h1 == h2,
{
    let s1 = suffix_of(base, h1);
    let s2 = suffix_of(base, h2);
    let t1 = trim_lead_sep(s1);
    let t2 = trim_lead_sep(s2);
    lemma_unixify_id(t1);
    lemma_unixify_id(t2);
    let v1 = translate_seq(base, h1);
    let v2 = translate_seq(base, h2);
    assert(v1.len() == 1 + t1.len());
    assert(v2.len() == 1 + t2.len());
    assert(t1.len() == t2.len());
    assert forall|i: int| 0 <= i < t1.len() implies t1[i] == t2[i] by {
        assert(v1[i + 1] == t1[i]);
        assert(v2[i + 1] == t2[i]);
    }
    assert(t1 =~= t2);
    lemma_base_plus_suffix(base, h1);
    lemma_base_plus_suffix(base, h2);
    if s1.len() == 0 && s2.len() == 0 {
        assert(h1 =~= h2);
    } else if s1.len() == 0 || s2.len() == 0 {
        assert(false);
    } else {
        assert(s1.len() >= 2 && is_sep(s1[0]) && s1[0] != backslash());
        assert(s2.len() >= 2 && is_sep(s2[0]) && s2[0] != backslash());
        assert forall|i: int| 0 <= i < s1.len() implies s1[i] == s2[i] by {
            if i > 0 {
                assert(s1[i] == t1[i - 1]);
                assert(s2[i] == t2[i - 1]);
            }
        }
        assert(s1 =~= s2);
        assert(h1 =~= h2);
    }
}

/// `p` is a strict ancestor directory of `q` in the host namespace: a
/// non-empty strict prefix with a separator right after it.
pub open spec fn real_ancestor(p: Seq<u8>, q: Seq<u8>) -> bool {
    0 < p.len() < q.len() && q.take(p.len() as int) == p && is_sep(q[p.len() as int])
}

/// The virtual root path `/`.
pub open spec fn virtual_root() -> Seq<u8> {
    seq![slash()]
}

/// `p` is a strict ancestor directory of `q` in the virtual namespace: an
/// absolute strict prefix followed by a slash, or the root itself.
pub open spec fn virtual_ancestor(p: Seq<u8>, q: Seq<u8>) -> bool {
    &&& 0 < p.len() < q.len()
    &&& p[0] == slash()
    &&& q.take(p.len() as int) == p
    &&& (p == virtual_root() || q[p.len() as int] == slash())
}

/// Law: translation maps the host ancestor relation exactly onto the virtual
/// ancestor relation for canonical paths under one base.
pub proof fn lemma_translate_ancestor(base: Seq<u8>, h1: Seq<u8>, h2: Seq<u8>)
    requires
        canonical_under(base, h1),
        canonical_under(base, h2),
    ensures
        real_ancestor(h1, h2) <==> virtual_ancestor(
            translate_seq(base, h1),
            translate_seq(base, h2),
        ),
{
    let s1 = suffix_of(base, h1);
    let s2 = suffix_of(base, h2);
    let t1 = trim_lead_sep(s1);
    let t2 = trim_lead_sep(s2);
    lemma_unixify_id(t1);
    lemma_unixify_id(t2);
    let v1 = translate_seq(base, h1);
    let v2 = translate_seq(base, h2);
    lemma_base_plus_suffix(base, h1);
    lemma_base_plus_suffix(base, h2);
    if real_ancestor(h1, h2) {
        assert(s2.len() > 0);
        assert(h2[base.len() as int] == s2[0]);
        if s1.len() == 0 {
            assert(v1 =~= virtual_root());
            assert(v2.take(1) =~= v1);
            assert(virtual_ancestor(v1, v2));
        } else {
            assert(s2[0] == h2[base.len() as int] && s1[0] == h1[base.len() as int]);
            assert(h2[base.len() as int] == h1[base.len() as int]);
            assert forall|i: int| 0 <= i < t1.len() implies t2[i] == t1[i] by {
                assert(t1[i] == s1[i + 1] && s1[i + 1] == h1[base.len() + i + 1]);
                assert(t2[i] == s2[i + 1] && s2[i + 1] == h2[base.len() + i + 1]);
                assert(h2[base.len() + i + 1] == h1[base.len() + i + 1]);
            }
            assert(v2.take(v1.len() as int) =~= v1);
            assert(v2[v1.len() as int] == t2[t1.len() as int]);
            assert(t2[t1.len() as int] == h2[h1.len() as int]);
            assert(is_sep(h2[h1.len() as int]) && h2[h1.len() as int] != backslash());
            assert(virtual_ancestor(v1, v2));
        }
    }
    if virtual_ancestor(v1, v2) {
        assert(t1.len() < t2.len());
        assert(s2.len() > 0);
        if t1.len() == 0 {
            assert(s1.len() == 0);
            assert(h1 =~= base);
            assert(h2[base.len() as int] == s2[0] && is_sep(s2[0]));
            assert(h2.take(h1.len() as int) =~= h1);
            assert(real_ancestor(h1, h2));
        } else {
            assert(s1.len() > 0 && is_sep(s1[0]) && s1[0] != backslash());
            assert(s2.len() > 0 && is_sep(s2[0]) && s2[0] != backslash());
            assert(v1 != virtual_root());
            assert(v2[v1.len() as int] == slash());
            assert forall|i: int| 0 <= i < t1.len() implies t2[i] == t1[i] by {
                assert(v1[i + 1] == t1[i]);
                assert(v2[i + 1] == t2[i]);
                assert(v2.take(v1.len() as int)[i + 1] == v2[i + 1]);
            }
            assert forall|i: int| 0 <= i < s1.len() implies s2[i] == s1[i] by {
                if i > 0 {
                    assert(t1[i - 1] == t2[i - 1]);
                    assert(s1[i] == t1[i - 1]);
                    assert(s2[i] == t2[i - 1]);
                }
            }
            assert(s2.take(s1.len() as int) =~= s1);
            assert(h2.take(h1.len() as int) =~= h1);
            assert(h2[h1.len() as int] == s2[s1.len() as int]);
            assert(s2[s1.len() as int] == t2[t1.len() as int]);
            assert(t2[t1.len() as int] == v2[v1.len() as int]);
            assert(real_ancestor(h1, h2));
        }
    }
}

} // verus!

