//! The trust graph as mathematics: what is stored, which chains of authorizations lead
//! from a subject to a root, and what they weigh.

use crate::revoke::RevocationView;
use crate::trust::TrustView;
use crate::trust_relation::{AuthView, RelationView};
use vstd::arithmetic::power2::{lemma2_to64, lemma_pow2_strictly_increases, pow2};
use vstd::prelude::*;

verus! {

/// The stored relations: at most one for each pair of subject and issuer, both as
/// encoded public keys.
pub type Relations = Map<(Seq<u8>, Seq<u8>), RelationView>;

/// The registered roots with their weight factors, by encoded public key.
pub type Roots = Map<Seq<u8>, u32>;

/// Every relation is stored under its own subject and issuer, and there are finitely many.
pub open spec fn relations_wf(rels: Relations) -> bool {
    &&& rels.dom().finite()
    &&& forall|k: (Seq<u8>, Seq<u8>)| rels.dom().contains(k) ==> (#[trigger] rels[k]).key() == k
}

/// Whether the authorization `a` is stored.
pub open spec fn has_auth(rels: Relations, a: AuthView) -> bool {
    rels.dom().contains((a.trust.issued_for, a.issued_by)) && rels[(a.trust.issued_for, a.issued_by)]
        == RelationView::Auth(a)
}

/// Whether the revocation `r` is stored.
pub open spec fn has_revocation(rels: Relations, r: RevocationView) -> bool {
    rels.dom().contains((r.pk, r.revoked_by)) && rels[(r.pk, r.revoked_by)]
        == RelationView::Revocation(r)
}

/// Whether `issuer` has revoked `subject`.
pub open spec fn revoked_by(rels: Relations, subject: Seq<u8>, issuer: Seq<u8>) -> bool {
    rels.dom().contains((subject, issuer)) && rels[(subject, issuer)] is Revocation
}

/// Whether `pk` is among the revokers collected along the first `n` authorizations of
/// the path `p`: those who revoked the subject of the path, and those who revoked the
/// issuer of any authorization after the first.
pub open spec fn revoked_along(rels: Relations, p: Seq<AuthView>, n: int, pk: Seq<u8>) -> bool {
    ||| revoked_by(rels, p[0].trust.issued_for, pk)
    ||| exists|j: int| 1 <= j < n && #[trigger] revoked_by(rels, p[j].issued_by, pk)
}

/// Whether the authorization at index `i >= 1` may extend the path before it: it is
/// issued for the issuer of its predecessor, no authorization before it is issued for
/// its issuer, and its issuer is none of the revokers collected so far.
pub open spec fn step_ok(rels: Relations, p: Seq<AuthView>, i: int) -> bool {
    &&& p[i].trust.issued_for == p[i - 1].issued_by
    &&& forall|j: int| 0 <= j < i ==> (#[trigger] p[j]).trust.issued_for != p[i].issued_by
    &&& !revoked_along(rels, p, i, p[i].issued_by)
}

/// Whether `p` is a path of stored authorizations that the search follows from
/// `subject` towards its issuers.
pub open spec fn path_ok(rels: Relations, subject: Seq<u8>, p: Seq<AuthView>) -> bool {
    &&& p.len() >= 1
    &&& p[0].trust.issued_for == subject
    &&& forall|i: int| 0 <= i < p.len() ==> has_auth(rels, #[trigger] p[i])
    &&& forall|i: int| 1 <= i < p.len() ==> #[trigger] step_ok(rels, p, i)
}

/// Whether a path ends at a root: it has more than one authorization, and the last is
/// self-signed by a registered root.
pub open spec fn path_terminated(roots: Set<Seq<u8>>, p: Seq<AuthView>) -> bool {
    &&& p.len() > 1
    &&& p.last().trust.issued_for == p.last().issued_by
    &&& roots.contains(p.last().issued_by)
}

/// Whether `found` lists the paths from `subject` to the roots: each of them once, no
/// other, and shorter ones first.
pub open spec fn paths_found(
    rels: Relations,
    roots: Set<Seq<u8>>,
    subject: Seq<u8>,
    found: Seq<Seq<AuthView>>,
) -> bool {
    &&& forall|i: int|
        0 <= i < found.len() ==> path_ok(rels, subject, #[trigger] found[i]) && path_terminated(
            roots,
            found[i],
        )
    &&& forall|p: Seq<AuthView>|
        path_ok(rels, subject, p) && path_terminated(roots, p) ==> found.contains(p)
    &&& forall|i: int, j: int| 0 <= i < j < found.len() ==> found[i] != found[j]
    &&& forall|i: int, j: int|
        0 <= i <= j < found.len() ==> (#[trigger] found[i]).len() <= (#[trigger] found[j]).len()
}

/// The relations after `rel` was offered: it takes the place under its subject and
/// issuer if nothing is stored there or what is stored is strictly older; otherwise
/// nothing changes. The kinds of the two relations play no part.
pub open spec fn updated(rels: Relations, rel: RelationView) -> Relations {
    if rels.dom().contains(rel.key()) && rels[rel.key()].issued_at() >= rel.issued_at() {
        rels
    } else {
        rels.insert(rel.key(), rel)
    }
}

/// Whether the relation under `k` is an authorization that has expired at `now`.
pub open spec fn expired_at(rels: Relations, now: u64, k: (Seq<u8>, Seq<u8>)) -> bool {
    rels.dom().contains(k) && rels[k] is Auth && rels[k].expires_at() <= now
}

/// The relations after the sweep at `now`: every authorization whose expiry is not
/// after `now` is gone; revocations stay.
pub open spec fn without_expired(rels: Relations, now: u64) -> Relations {
    rels.remove_keys(Set::new(|k: (Seq<u8>, Seq<u8>)| expired_at(rels, now, k)))
}

/// Whether the authorization `a` may extend the path `c`: it is stored, issued for the
/// issuer of the last authorization of `c`, no authorization of `c` is issued for its
/// issuer, and its issuer is none of the revokers collected along `c`.
pub open spec fn extends(rels: Relations, c: Seq<AuthView>, a: AuthView) -> bool {
    &&& has_auth(rels, a)
    &&& a.trust.issued_for == c.last().issued_by
    &&& forall|j: int| 0 <= j < c.len() ==> (#[trigger] c[j]).trust.issued_for != a.issued_by
    &&& !revoked_along(rels, c, c.len() as int, a.issued_by)
}

/// Whether `q` is a beginning of `p`.
pub open spec fn is_prefix(q: Seq<AuthView>, p: Seq<AuthView>) -> bool {
    q.len() <= p.len() && p.subrange(0, q.len() as int) == q
}

/// The key of the authorization `a` in the relations.
pub open spec fn auth_key(a: AuthView) -> (Seq<u8>, Seq<u8>) {
    (a.trust.issued_for, a.issued_by)
}

/// No two authorizations of a path are the same stored relation.
pub proof fn lemma_path_keys_distinct(rels: Relations, subject: Seq<u8>, p: Seq<AuthView>, i: int, j: int)
    requires
        path_ok(rels, subject, p),
        0 <= i < j < p.len(),
    ensures
        auth_key(p[i]) != auth_key(p[j]),
{
    if auth_key(p[i]) == auth_key(p[j]) {
        assert(step_ok(rels, p, j));
        assert(step_ok(rels, p, i + 1));
        if i + 1 < j {
            // the authorization after `i` is issued for the issuer of `j`
            assert(p[i + 1].trust.issued_for == p[j].issued_by);
        } else {
            // `j` follows `i`, so `i` is issued for the issuer of `j`
            assert(p[i].trust.issued_for == p[j].issued_by);
        }
    }
}

/// A path is no longer than the number of stored relations.
pub proof fn lemma_path_bounded(rels: Relations, subject: Seq<u8>, p: Seq<AuthView>)
    requires
        relations_wf(rels),
        path_ok(rels, subject, p),
    ensures
        p.len() <= rels.dom().len(),
{
    let keys = Seq::new(p.len(), |i: int| auth_key(p[i]));
    assert forall|i: int, j: int| 0 <= i < keys.len() && 0 <= j < keys.len() && i != j implies keys[i]
        != keys[j] by {
        if i < j {
            lemma_path_keys_distinct(rels, subject, p, i, j);
        } else {
            lemma_path_keys_distinct(rels, subject, p, j, i);
        }
    }
    assert(keys.no_duplicates());
    keys.unique_seq_to_set();
    assert forall|k: (Seq<u8>, Seq<u8>)| keys.to_set().contains(k) implies rels.dom().contains(k) by {
        let i = choose|i: int| 0 <= i < keys.len() && keys[i] == k;
        assert(has_auth(rels, p[i]));
    }
    vstd::set_lib::lemma_len_subset(keys.to_set(), rels.dom());
}

/// The revokers collected along a beginning of a path are those collected along the
/// path itself up to there.
pub proof fn lemma_revoked_along_prefix(rels: Relations, p: Seq<AuthView>, q: Seq<AuthView>, n: int, pk: Seq<u8>)
    requires
        1 <= n <= q.len() <= p.len(),
        forall|j: int| 0 <= j < q.len() ==> q[j] == p[j],
    ensures
        revoked_along(rels, q, n, pk) == revoked_along(rels, p, n, pk),
{
    if revoked_along(rels, q, n, pk) && !revoked_by(rels, q[0].trust.issued_for, pk) {
        let j = choose|j: int| 1 <= j < n && #[trigger] revoked_by(rels, q[j].issued_by, pk);
        assert(revoked_by(rels, p[j].issued_by, pk));
    }
    if revoked_along(rels, p, n, pk) && !revoked_by(rels, p[0].trust.issued_for, pk) {
        let j = choose|j: int| 1 <= j < n && #[trigger] revoked_by(rels, p[j].issued_by, pk);
        assert(revoked_by(rels, q[j].issued_by, pk));
    }
}

/// Every beginning of a path is a path.
pub proof fn lemma_prefix_ok(rels: Relations, subject: Seq<u8>, p: Seq<AuthView>, n: int)
    requires
        path_ok(rels, subject, p),
        1 <= n <= p.len(),
    ensures
        path_ok(rels, subject, p.subrange(0, n)),
{
    let q = p.subrange(0, n);
    assert forall|i: int| 0 <= i < q.len() implies has_auth(rels, #[trigger] q[i]) by {
        assert(has_auth(rels, p[i]));
    }
    assert forall|i: int| 1 <= i < q.len() implies #[trigger] step_ok(rels, q, i) by {
        assert(step_ok(rels, p, i));
        lemma_revoked_along_prefix(rels, p, q, i, q[i].issued_by);
        assert forall|j: int| 0 <= j < i implies (#[trigger] q[j]).trust.issued_for
            != q[i].issued_by by {
            assert(p[j].trust.issued_for != p[i].issued_by);
        }
    }
}

/// A path extended by an authorization that may extend it is a path, and the revokers
/// collected along the longer path are those of the shorter one and those who revoked
/// the issuer of the new authorization.
pub proof fn lemma_extend_ok(rels: Relations, subject: Seq<u8>, c: Seq<AuthView>, a: AuthView)
    requires
        path_ok(rels, subject, c),
        extends(rels, c, a),
    ensures
        path_ok(rels, subject, c.push(a)),
        forall|pk: Seq<u8>|
            revoked_along(rels, c.push(a), c.len() as int + 1, pk) <==> (revoked_along(
                rels,
                c,
                c.len() as int,
                pk,
            ) || revoked_by(rels, a.issued_by, pk)),
{
    let p = c.push(a);
    let n = c.len() as int;
    assert forall|i: int| 0 <= i < p.len() implies has_auth(rels, #[trigger] p[i]) by {
        if i < n {
            assert(has_auth(rels, c[i]));
        }
    }
    assert forall|i: int| 1 <= i < p.len() implies #[trigger] step_ok(rels, p, i) by {
        lemma_revoked_along_prefix(rels, p, c, i, p[i].issued_by);
        if i < n {
            assert(step_ok(rels, c, i));
            assert forall|j: int| 0 <= j < i implies (#[trigger] p[j]).trust.issued_for
                != p[i].issued_by by {
                assert(c[j].trust.issued_for != c[i].issued_by);
            }
        } else {
            assert forall|j: int| 0 <= j < i implies (#[trigger] p[j]).trust.issued_for
                != p[i].issued_by by {
                assert(c[j].trust.issued_for != a.issued_by);
            }
        }
    }
    assert forall|pk: Seq<u8>|
        revoked_along(rels, p, n + 1, pk) <==> (revoked_along(rels, c, n, pk) || revoked_by(
            rels,
            a.issued_by,
            pk,
        )) by {
        lemma_revoked_along_prefix(rels, p, c, n, pk);
        if revoked_along(rels, p, n + 1, pk) && !revoked_along(rels, p, n, pk) {
            let j = choose|j: int| 1 <= j < n + 1 && #[trigger] revoked_by(rels, p[j].issued_by, pk);
            if j < n {
                assert(revoked_along(rels, p, n, pk));
            }
        }
        if revoked_by(rels, a.issued_by, pk) && n >= 1 {
            assert(revoked_by(rels, p[n].issued_by, pk));
        }
    }
}

/// The last authorization of a path of two or more may extend the path before it.
pub proof fn lemma_last_extends(rels: Relations, subject: Seq<u8>, p: Seq<AuthView>)
    requires
        path_ok(rels, subject, p),
        p.len() >= 2,
    ensures
        path_ok(rels, subject, p.drop_last()),
        extends(rels, p.drop_last(), p.last()),
        p.drop_last().push(p.last()) == p,
{
    let c = p.drop_last();
    let n = c.len() as int;
    lemma_prefix_ok(rels, subject, p, n);
    assert(p.subrange(0, n) =~= c);
    assert(step_ok(rels, p, n));
    assert(has_auth(rels, p[n]));
    lemma_revoked_along_prefix(rels, p, c, n, p[n].issued_by);
    assert forall|j: int| 0 <= j < c.len() implies (#[trigger] c[j]).trust.issued_for
        != p.last().issued_by by {
        assert(p[j].trust.issued_for != p[n].issued_by);
    }
    assert(c.push(p.last()) =~= p);
}

/// The sweep keeps the stored relations well-formed, and afterwards no stored
/// authorization has an expiry at or before `now`.
pub proof fn lemma_without_expired(rels: Relations, now: u64)
    requires
        relations_wf(rels),
    ensures
        relations_wf(without_expired(rels, now)),
        forall|k: (Seq<u8>, Seq<u8>)|
            without_expired(rels, now).dom().contains(k) ==> !expired_at(
                without_expired(rels, now),
                now,
                k,
            ),
        forall|a: AuthView|
            has_auth(without_expired(rels, now), a) <==> has_auth(rels, a) && a.trust.expires_at > now,
        forall|r: RevocationView|
            has_revocation(without_expired(rels, now), r) <==> has_revocation(rels, r),
{
    let gone = Set::new(|k: (Seq<u8>, Seq<u8>)| expired_at(rels, now, k));
    assert(without_expired(rels, now).dom() =~= rels.dom().difference(gone));
    vstd::set_lib::lemma_len_difference(rels.dom(), gone);
}

/// The certificate that a path stands for: its trusts in reverse order, so that the
/// trust of the root comes first and the trust of the subject last.
pub open spec fn cert_of_path(p: Seq<AuthView>) -> Seq<TrustView> {
    Seq::new(p.len(), |i: int| p[p.len() - 1 - i].trust)
}

/// The issuer of the trust at index `i` of a certificate: the subject of the trust
/// before it, and for the first trust its own subject.
pub open spec fn issuer_in_cert(chain: Seq<TrustView>, i: int) -> Seq<u8> {
    if i == 0 {
        chain[0].issued_for
    } else {
        chain[i - 1].issued_for
    }
}

/// The path that a certificate stands for: its trusts in reverse order, each with its
/// issuer in the certificate.
pub open spec fn path_of_cert(chain: Seq<TrustView>) -> Seq<AuthView> {
    Seq::new(
        chain.len(),
        |j: int|
            AuthView {
                trust: chain[chain.len() - 1 - j],
                issued_by: issuer_in_cert(chain, chain.len() - 1 - j),
            },
    )
}

/// Whether `chain` is a certificate of `subject` in the graph: read from its last trust
/// back to its first, it is a path of stored authorizations from `subject` that ends
/// at a root.
pub open spec fn is_certificate(
    rels: Relations,
    roots: Set<Seq<u8>>,
    subject: Seq<u8>,
    chain: Seq<TrustView>,
) -> bool {
    path_ok(rels, subject, path_of_cert(chain)) && path_terminated(roots, path_of_cert(chain))
}

/// Whether `certs` lists the certificates of `subject`: each of them once, no other,
/// and shorter ones first.
pub open spec fn certs_found(
    rels: Relations,
    roots: Set<Seq<u8>>,
    subject: Seq<u8>,
    certs: Seq<Seq<TrustView>>,
) -> bool {
    &&& forall|i: int| 0 <= i < certs.len() ==> is_certificate(rels, roots, subject, #[trigger] certs[i])
    &&& forall|chain: Seq<TrustView>|
        is_certificate(rels, roots, subject, chain) ==> certs.contains(chain)
    &&& forall|i: int, j: int| 0 <= i < j < certs.len() ==> #[trigger] certs[i] != #[trigger] certs[j]
    &&& forall|i: int, j: int|
        0 <= i <= j < certs.len() ==> (#[trigger] certs[i]).len() <= (#[trigger] certs[j]).len()
}

/// A path that ends at a root is the path of its certificate.
pub proof fn lemma_path_of_cert_of_path(rels: Relations, roots: Set<Seq<u8>>, subject: Seq<u8>, p: Seq<AuthView>)
    requires
        path_ok(rels, subject, p),
        path_terminated(roots, p),
    ensures
        path_of_cert(cert_of_path(p)) == p,
        is_certificate(rels, roots, subject, cert_of_path(p)),
{
    let chain = cert_of_path(p);
    let q = path_of_cert(chain);
    let n = p.len() as int;
    assert forall|j: int| 0 <= j < n implies q[j] == p[j] by {
        let i = n - 1 - j;
        assert(chain[i] == p[j].trust);
        if i == 0 {
        } else {
            assert(step_ok(rels, p, j + 1));
            assert(chain[i - 1] == p[j + 1].trust);
        }
    }
    assert(q =~= p);
}

/// A certificate is the certificate of its path.
pub proof fn lemma_cert_of_path_of_cert(chain: Seq<TrustView>)
    ensures
        cert_of_path(path_of_cert(chain)) == chain,
{
    assert(cert_of_path(path_of_cert(chain)) =~= chain);
}

/// The certificates of the paths found are the certificates of the subject.
pub proof fn lemma_certs_of_paths(
    rels: Relations,
    roots: Set<Seq<u8>>,
    subject: Seq<u8>,
    found: Seq<Seq<AuthView>>,
    certs: Seq<Seq<TrustView>>,
)
    requires
        paths_found(rels, roots, subject, found),
        certs.len() == found.len(),
        forall|i: int| 0 <= i < certs.len() ==> #[trigger] certs[i] == cert_of_path(found[i]),
    ensures
        certs_found(rels, roots, subject, certs),
{
    assert forall|i: int| 0 <= i < certs.len() implies is_certificate(
        rels,
        roots,
        subject,
        #[trigger] certs[i],
    ) by {
        lemma_path_of_cert_of_path(rels, roots, subject, found[i]);
    }
    assert forall|chain: Seq<TrustView>|
        is_certificate(rels, roots, subject, chain) implies certs.contains(chain) by {
        let p = path_of_cert(chain);
        assert(found.contains(p));
        let i = choose|i: int| 0 <= i < found.len() && found[i] == p;
        lemma_cert_of_path_of_cert(chain);
        assert(certs[i] == chain);
    }
    assert forall|i: int, j: int| 0 <= i < j < certs.len() implies #[trigger] certs[i]
        != #[trigger] certs[j] by {
        lemma_path_of_cert_of_path(rels, roots, subject, found[i]);
        lemma_path_of_cert_of_path(rels, roots, subject, found[j]);
        assert(found[i] != found[j]);
    }
    assert forall|i: int, j: int| 0 <= i <= j < certs.len() implies (#[trigger] certs[i]).len() <= (
    #[trigger] certs[j]).len() by {
        assert(found[i].len() <= found[j].len());
    }
}

/// The weight that a weight factor stands for: 2 to the power of 16 less the factor,
/// and 1 for every factor from 16 on.
pub open spec fn weight_from_factor(wf: u32) -> u32 {
    if wf >= 16 {
        1
    } else {
        pow2((16 - wf) as nat) as u32
    }
}

/// The weight factor of a certificate: that of its root and one more for every trust
/// after the root trust, at most `u32::MAX`.
pub open spec fn cert_factor(roots: Roots, chain: Seq<TrustView>) -> u32 {
    if roots[chain[0].issued_for] + chain.len() - 1 > u32::MAX {
        u32::MAX
    } else {
        (roots[chain[0].issued_for] + chain.len() - 1) as u32
    }
}

/// Whether `f` is the least weight factor among the certificates of `subject`.
pub open spec fn is_best_factor(rels: Relations, roots: Roots, subject: Seq<u8>, f: u32) -> bool {
    &&& exists|chain: Seq<TrustView>|
        is_certificate(rels, roots.dom(), subject, chain) && #[trigger] cert_factor(roots, chain) == f
    &&& forall|chain: Seq<TrustView>|
        is_certificate(rels, roots.dom(), subject, chain) ==> #[trigger] cert_factor(roots, chain) >= f
}

/// The least weight factor among the certificates of `subject`, where it has any.
pub open spec fn best_factor(rels: Relations, roots: Roots, subject: Seq<u8>) -> u32 {
    choose|f: u32| is_best_factor(rels, roots, subject, f)
}

/// Whether `subject` has a certificate in the graph.
pub open spec fn has_certificate(rels: Relations, roots: Roots, subject: Seq<u8>) -> bool {
    exists|chain: Seq<TrustView>| is_certificate(rels, roots.dom(), subject, chain)
}

/// The weight of a root by its own factor, and 0 for a key that is no root.
pub open spec fn own_weight(roots: Roots, pk: Seq<u8>) -> u32 {
    if roots.dom().contains(pk) {
        weight_from_factor(roots[pk])
    } else {
        0
    }
}

/// The weight of a key in the graph: the greater of its weight as a root and the
/// weight of its best certificate; 0 where it has neither.
pub open spec fn weight_of(rels: Relations, roots: Roots, pk: Seq<u8>) -> u32 {
    if has_certificate(rels, roots, pk) {
        let by_cert = weight_from_factor(best_factor(rels, roots, pk));
        if own_weight(roots, pk) >= by_cert {
            own_weight(roots, pk)
        } else {
            by_cert
        }
    } else {
        own_weight(roots, pk)
    }
}

/// A weight is at least 1 and at most 2 to the power of 16, and a greater factor never
/// gives a greater weight.
pub proof fn lemma_weight_from_factor(a: u32, b: u32)
    ensures
        1 <= weight_from_factor(a) <= 65536,
        a <= b ==> weight_from_factor(a) >= weight_from_factor(b),
        a < 16 ==> weight_from_factor(a) == pow2((16 - a) as nat),
{
    lemma2_to64();
    if a < 16 {
        if a > 0 {
            lemma_pow2_strictly_increases((16 - a) as nat, 16);
        }
        vstd::arithmetic::power2::lemma_pow2_pos((16 - a) as nat);
    }
    if b < 16 {
        if b > 0 {
            lemma_pow2_strictly_increases((16 - b) as nat, 16);
        }
        vstd::arithmetic::power2::lemma_pow2_pos((16 - b) as nat);
    }
    if a < b && b < 16 {
        lemma_pow2_strictly_increases((16 - b) as nat, (16 - a) as nat);
    }
}

/// There is at most one least weight factor.
pub proof fn lemma_best_factor(rels: Relations, roots: Roots, subject: Seq<u8>, f: u32)
    requires
        is_best_factor(rels, roots, subject, f),
    ensures
        best_factor(rels, roots, subject) == f,
        has_certificate(rels, roots, subject),
{
    let g = best_factor(rels, roots, subject);
    assert(is_best_factor(rels, roots, subject, g));
    let c1 = choose|chain: Seq<TrustView>|
        is_certificate(rels, roots.dom(), subject, chain) && #[trigger] cert_factor(roots, chain) == f;
    let c2 = choose|chain: Seq<TrustView>|
        is_certificate(rels, roots.dom(), subject, chain) && #[trigger] cert_factor(roots, chain) == g;
    assert(cert_factor(roots, c1) >= g);
    assert(cert_factor(roots, c2) >= f);
}

/// Among the weight factors of the certificates of a subject that has a certificate
/// there is a least one.
pub proof fn lemma_best_factor_exists(rels: Relations, roots: Roots, subject: Seq<u8>, chain: Seq<TrustView>)
    requires
        is_certificate(rels, roots.dom(), subject, chain),
    ensures
        is_best_factor(rels, roots, subject, best_factor(rels, roots, subject)),
        best_factor(rels, roots, subject) <= cert_factor(roots, chain),
    decreases cert_factor(roots, chain),
{
    let f = cert_factor(roots, chain);
    if forall|other: Seq<TrustView>|
        is_certificate(rels, roots.dom(), subject, other) ==> #[trigger] cert_factor(roots, other)
            >= f {
        assert(is_best_factor(rels, roots, subject, f));
        lemma_best_factor(rels, roots, subject, f);
    } else {
        let other = choose|other: Seq<TrustView>|
            is_certificate(rels, roots.dom(), subject, other) && #[trigger] cert_factor(roots, other)
                < f;
        lemma_best_factor_exists(rels, roots, subject, other);
    }
}

/// Chain monotonicity: a key with a certificate of `k` trusts under a root with the
/// weight factor `f` weighs at least as much as the weight factor `f + k - 1` stands
/// for, which is 2 to the power of `16 - (f + k - 1)` as long as that factor is at most
/// 16, and 1 from there on.
pub proof fn lemma_certificate_gives_weight(rels: Relations, roots: Roots, subject: Seq<u8>, chain: Seq<TrustView>)
    requires
        is_certificate(rels, roots.dom(), subject, chain),
    ensures
        roots.dom().contains(chain[0].issued_for),
        cert_factor(roots, chain) == if roots[chain[0].issued_for] + chain.len() - 1 > u32::MAX {
            u32::MAX as int
        } else {
            roots[chain[0].issued_for] + chain.len() - 1
        },
        weight_of(rels, roots, subject) >= weight_from_factor(cert_factor(roots, chain)),
        weight_of(rels, roots, subject) >= 1,
        roots[chain[0].issued_for] + chain.len() - 1 <= 16 ==> weight_of(rels, roots, subject) >= pow2(
            (16 - (roots[chain[0].issued_for] + chain.len() - 1)) as nat,
        ),
{
    lemma2_to64();
    let p = path_of_cert(chain);
    assert(p.last().issued_by == chain[0].issued_for);
    lemma_best_factor_exists(rels, roots, subject, chain);
    let best = best_factor(rels, roots, subject);
    lemma_weight_from_factor(best, cert_factor(roots, chain));
    lemma_weight_from_factor(cert_factor(roots, chain), cert_factor(roots, chain));
}

/// A root weighs at least as much as its own weight factor stands for, and exactly as
/// much where none of its certificates has a smaller weight factor. A self-signed trust
/// of a root therefore hands on the weight of the root's factor, not half of it.
pub proof fn lemma_root_weight(rels: Relations, roots: Roots, pk: Seq<u8>)
    requires
        roots.dom().contains(pk),
    ensures
        weight_of(rels, roots, pk) >= weight_from_factor(roots[pk]),
        (forall|chain: Seq<TrustView>|
            is_certificate(rels, roots.dom(), pk, chain) ==> #[trigger] cert_factor(roots, chain)
                >= roots[pk]) ==> weight_of(rels, roots, pk) == weight_from_factor(roots[pk]),
{
    if has_certificate(rels, roots, pk) {
        let chain = choose|chain: Seq<TrustView>| is_certificate(rels, roots.dom(), pk, chain);
        lemma_best_factor_exists(rels, roots, pk, chain);
        let best = best_factor(rels, roots, pk);
        if forall|chain: Seq<TrustView>|
            is_certificate(rels, roots.dom(), pk, chain) ==> #[trigger] cert_factor(roots, chain)
                >= roots[pk] {
            let c = choose|c: Seq<TrustView>|
                is_certificate(rels, roots.dom(), pk, c) && #[trigger] cert_factor(roots, c) == best;
            assert(cert_factor(roots, c) >= roots[pk]);
            lemma_weight_from_factor(roots[pk], best);
        }
    }
}

/// A key without a certificate that is no root weighs nothing.
pub proof fn lemma_no_certificate_no_weight(rels: Relations, roots: Roots, pk: Seq<u8>)
    requires
        !has_certificate(rels, roots, pk),
        !roots.dom().contains(pk),
    ensures
        weight_of(rels, roots, pk) == 0,
{
}

/// Direct revocation cancels trust: when `issuer` has revoked `subject`, no certificate
/// of `subject` passes through `issuer`: none of its trusts but the last, which is the
/// trust of `subject` itself, is issued for `issuer`.
pub proof fn lemma_revoked_not_passed(
    rels: Relations,
    roots: Set<Seq<u8>>,
    subject: Seq<u8>,
    issuer: Seq<u8>,
    chain: Seq<TrustView>,
)
    requires
        revoked_by(rels, subject, issuer),
        is_certificate(rels, roots, subject, chain),
    ensures
        forall|i: int| 0 <= i < chain.len() - 1 ==> (#[trigger] chain[i]).issued_for != issuer,
{
    let p = path_of_cert(chain);
    let n = chain.len() as int;
    assert forall|i: int| 0 <= i < n - 1 implies (#[trigger] chain[i]).issued_for != issuer by {
        // the trust after `i` in the certificate is given by the subject of `i`
        let j = n - 2 - i;
        assert(p[j].issued_by == chain[i].issued_for);
        if j == 0 {
            assert(has_auth(rels, p[0]));
        } else {
            assert(step_ok(rels, p, j));
        }
    }
}

/// When `issuer` has revoked `subject` and nobody else trusts `subject`, `subject` has
/// no certificate.
pub proof fn lemma_revoked_no_certificate(rels: Relations, roots: Roots, subject: Seq<u8>, issuer: Seq<u8>)
    requires
        revoked_by(rels, subject, issuer),
        forall|other: Seq<u8>|
            rels.dom().contains((subject, other)) && rels[(subject, other)] is Auth ==> other
                == issuer,
    ensures
        !has_certificate(rels, roots, subject),
{
    if has_certificate(rels, roots, subject) {
        let chain = choose|chain: Seq<TrustView>| is_certificate(rels, roots.dom(), subject, chain);
        let p = path_of_cert(chain);
        assert(has_auth(rels, p[0]));
    }
}

/// A revocation that is strictly newer than what is stored for its subject and issuer,
/// or for whose subject and issuer nothing is stored, is in force once it was offered.
pub proof fn lemma_revocation_in_force(rels: Relations, r: RevocationView)
    requires
        !rels.dom().contains((r.pk, r.revoked_by)) || rels[(r.pk, r.revoked_by)].issued_at()
            < r.revoked_at,
    ensures
        revoked_by(updated(rels, RelationView::Revocation(r)), r.pk, r.revoked_by),
        has_revocation(updated(rels, RelationView::Revocation(r)), r),
{
}

/// The relations after a list of relations was offered one after the other.
pub open spec fn offered(rels: Relations, offers: Seq<RelationView>) -> Relations
    decreases offers.len(),
{
    if offers.len() == 0 {
        rels
    } else {
        updated(offered(rels, offers.drop_last()), offers.last())
    }
}

/// Supersession by newer timestamp: after relations were offered one after the other,
/// what is stored for a subject and an issuer is as new as anything that was stored
/// for them before or offered for them since, and it is one of those relations.
pub proof fn lemma_latest_wins(rels: Relations, offers: Seq<RelationView>, k: (Seq<u8>, Seq<u8>))
    ensures
        rels.dom().contains(k) ==> offered(rels, offers).dom().contains(k) && offered(
            rels,
            offers,
        )[k].issued_at() >= rels[k].issued_at(),
        forall|i: int|
            0 <= i < offers.len() && (#[trigger] offers[i]).key() == k ==> offered(
                rels,
                offers,
            ).dom().contains(k) && offered(rels, offers)[k].issued_at() >= offers[i].issued_at(),
        offered(rels, offers).dom().contains(k) ==> (rels.dom().contains(k) && offered(
            rels,
            offers,
        )[k] == rels[k]) || exists|i: int|
            0 <= i < offers.len() && #[trigger] offers[i] == offered(rels, offers)[k]
                && offers[i].key() == k,
    decreases offers.len(),
{
    if offers.len() > 0 {
        let before = offers.drop_last();
        lemma_latest_wins(rels, before, k);
        let mid = offered(rels, before);
        let end = offered(rels, offers);
        assert forall|i: int| 0 <= i < offers.len() && (#[trigger] offers[i]).key() == k implies end.dom().contains(
            k,
        ) && end[k].issued_at() >= offers[i].issued_at() by {
            if i < before.len() {
                assert(before[i] == offers[i]);
            }
        }
        if end.dom().contains(k) && !(rels.dom().contains(k) && end[k] == rels[k]) {
            if end[k] == offers.last() && offers.last().key() == k {
                assert(offers[offers.len() - 1] == end[k]);
            } else {
                let i = choose|i: int|
                    0 <= i < before.len() && #[trigger] before[i] == mid[k] && before[i].key() == k;
                assert(offers[i] == before[i]);
            }
        }
    }
}

} // verus!
