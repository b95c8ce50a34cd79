//! The trust graph: adds trusts and revocations, searches the chains that lead from a
//! key to the roots, and weighs them.

use crate::certificate::Certificate;
use crate::chain::Chain;
use crate::keypair::public_key::PublicKey;
use crate::model::{
    cert_factor,
    cert_of_path,
    certs_found,
    extends,
    has_auth,
    has_certificate,
    is_best_factor,
    is_certificate,
    is_prefix,
    lemma_best_factor,
    lemma_certs_of_paths,
    lemma_extend_ok,
    lemma_last_extends,
    lemma_path_bounded,
    lemma_prefix_ok,
    lemma_weight_from_factor,
    path_ok,
    path_terminated,
    paths_found,
    revoked_along,
    revoked_by,
    updated,
    weight_from_factor,
    weight_of,
    without_expired,
    Relations,
    Roots,
};
use crate::public_key_hashable::PublicKeyHashable as PK;
use crate::revoke::{revocation_signed, Revocation, RevokeError};
use crate::trust::{trust_valid, Trust, TrustError, TrustView};
use crate::trust_graph_storage::{lists_authorizations, lists_revocations, Storage, StorageError};
use crate::trust_relation::{Auth, AuthView, RelationView};
use std::collections::VecDeque;
use vstd::arithmetic::power2::{lemma2_to64, lemma_pow2_unfold, pow2};
use vstd::prelude::*;

verus! {

/// A weight factor `n` stands for the weight `2^(MAX_WEIGHT_FACTOR - n)`.
pub type WeightFactor = u32;

/// The weight factor from which on every weight is 1.
pub const MAX_WEIGHT_FACTOR: u32 = 16;

/// The weight that a weight factor stands for: `2^(MAX_WEIGHT_FACTOR - wf)`, and 1 for
/// every factor from `MAX_WEIGHT_FACTOR` on.
pub fn get_weight_from_factor(wf: WeightFactor) -> (out: u32)
    ensures
        out == weight_from_factor(wf),
        1 <= out <= 65536,
{
    let exponent: u32 = MAX_WEIGHT_FACTOR.saturating_sub(wf);
    let mut weight: u32 = 1;
    let mut i: u32 = 0;
    proof {
        lemma2_to64();
        lemma_weight_from_factor(wf, wf);
    }
    while i < exponent
        invariant
            i <= exponent <= 16,
            weight == pow2(i as nat),
            weight <= 65536,
            pow2(16) == 65536,
        decreases exponent - i,
    {
        proof {
            lemma_pow2_unfold((i + 1) as nat);
            if i + 1 < 16 {
                vstd::arithmetic::power2::lemma_pow2_strictly_increases((i + 1) as nat, 16);
            }
        }
        weight = weight * 2;
        i += 1;
    }
    weight
}

/// The certificates of a vector as plain values.
pub open spec fn cert_views(certs: Seq<Certificate>) -> Seq<Seq<TrustView>> {
    Seq::new(certs.len(), |i: int| certs[i]@)
}

/// Whether a certificate has no trust or a first trust whose subject is no root.
pub open spec fn cert_unweighable(roots: Roots, chain: Seq<TrustView>) -> bool {
    chain.len() == 0 || !roots.dom().contains(chain[0].issued_for)
}

/// Whether `f` is the least weight factor among `certs`.
pub open spec fn is_least_factor(roots: Roots, certs: Seq<Seq<TrustView>>, f: u32) -> bool {
    &&& exists|i: int| 0 <= i < certs.len() && #[trigger] cert_factor(roots, certs[i]) == f
    &&& forall|i: int| 0 <= i < certs.len() ==> #[trigger] cert_factor(roots, certs[i]) >= f
}

/// Whether a certificate holds a trust issued for `issuer`.
pub open spec fn passes(chain: Seq<TrustView>, issuer: Seq<u8>) -> bool {
    exists|i: int| 0 <= i < chain.len() && (#[trigger] chain[i]).issued_for == issuer
}

/// Whether `certs` lists the certificates of `subject` that hold a trust issued for
/// `issuer`: each of them once, no other, and shorter ones first.
pub open spec fn certs_found_from(
    rels: Relations,
    roots: Set<Seq<u8>>,
    subject: Seq<u8>,
    issuer: Seq<u8>,
    certs: Seq<Seq<TrustView>>,
) -> bool {
    &&& forall|i: int|
        0 <= i < certs.len() ==> is_certificate(rels, roots, subject, #[trigger] certs[i]) && passes(
            certs[i],
            issuer,
        )
    &&& forall|chain: Seq<TrustView>|
        is_certificate(rels, roots, subject, chain) && passes(chain, issuer) ==> certs.contains(chain)
    &&& forall|i: int, j: int| 0 <= i < j < certs.len() ==> #[trigger] certs[i] != #[trigger] certs[j]
    &&& forall|i: int, j: int|
        0 <= i <= j < certs.len() ==> (#[trigger] certs[i]).len() <= (#[trigger] certs[j]).len()
}

/// The weight of a key by its certificates that hold a trust issued for `issuer`: the
/// weight of the least weight factor among them, and 0 where there is none.
pub open spec fn is_weight_from(
    rels: Relations,
    roots: Roots,
    subject: Seq<u8>,
    issuer: Seq<u8>,
    weight: u32,
) -> bool {
    if exists|chain: Seq<TrustView>|
        is_certificate(rels, roots.dom(), subject, chain) && passes(chain, issuer) {
        exists|chain: Seq<TrustView>|
            {
                &&& is_certificate(rels, roots.dom(), subject, chain)
                &&& passes(chain, issuer)
                &&& weight == weight_from_factor(#[trigger] cert_factor(roots, chain))
                &&& forall|other: Seq<TrustView>|
                    is_certificate(rels, roots.dom(), subject, other) && passes(other, issuer)
                        ==> #[trigger] cert_factor(roots, other) >= cert_factor(roots, chain)
            }
    } else {
        weight == 0
    }
}

/// The weight that a trust hands on: the issuer's weight for a self-signed trust, and
/// half of it, rounded down, for any other.
pub open spec fn next_weight(issuer_weight: u32, self_signed: bool) -> u32 {
    if self_signed {
        issuer_weight
    } else {
        issuer_weight / 2
    }
}

/// The relations after the trusts of `chain` from index `from` on were added in order
/// at `now`, each under the subject of the trust before it and the first under its own
/// subject: before each trust the expired authorizations are swept, then the trust is
/// offered to the storage.
pub open spec fn chain_added(rels: Relations, chain: Seq<TrustView>, now: u64, upto: int) -> Relations
    decreases upto,
{
    if upto <= 0 {
        rels
    } else {
        updated(
            without_expired(chain_added(rels, chain, now, upto - 1), now),
            RelationView::Auth(
                AuthView {
                    trust: chain[upto - 1],
                    issued_by: crate::model::issuer_in_cert(chain, upto - 1),
                },
            ),
        )
    }
}

/// Graph that holds trusts and revocations, finds certificates and computes weights.
pub struct TrustGraph<S: Storage> {
    storage: S,
}

/// Why an operation of the graph failed.
#[derive(Debug)]
pub enum TrustGraphError {
    /// The storage failed; carries its message.
    InternalStorageError(String),
    /// The first trust of a certificate is issued for a key that is no root.
    NoRoot,
    /// The certificate holds no trust.
    EmptyChain,
    /// A revocation was refused.
    RevokeCheckError(RevokeError),
    /// A trust was refused.
    TrustVerificationError(TrustError),
}

/// The authorizations of a vector as plain values.
pub open spec fn auth_views(items: Seq<Auth>) -> Seq<AuthView> {
    Seq::new(items.len(), |i: int| items[i]@)
}

/// The paths of a vector of vectors of authorizations as plain values.
pub open spec fn path_views(found: Seq<Vec<Auth>>) -> Seq<Seq<AuthView>> {
    Seq::new(found.len(), |i: int| auth_views(found[i]@))
}

/// The set of the encoded keys of a list of keys.
pub open spec fn key_set(keys: Seq<PK>) -> Set<Seq<u8>> {
    Set::new(|k: Seq<u8>| exists|i: int| 0 <= i < keys.len() && (#[trigger] keys[i])@ == k)
}

/// Whether a chain is a path from `subject` and holds the revokers collected along it.
spec fn chain_ok(rels: Relations, subject: Seq<u8>, c: Chain) -> bool {
    &&& path_ok(rels, subject, c.path())
    &&& forall|pk: Seq<u8>| #[trigger]
        c.is_revoker(pk) <==> revoked_along(rels, c.path(), c.path().len() as int, pk)
}

/// Whether `kids` are the chains that extend the path `c` by one authorization: each
/// of them once, and no other.
spec fn children_of(rels: Relations, subject: Seq<u8>, c: Seq<AuthView>, kids: Seq<Chain>) -> bool {
    &&& forall|i: int|
        0 <= i < kids.len() ==> {
            &&& chain_ok(rels, subject, #[trigger] kids[i])
            &&& kids[i].path().len() == c.len() + 1
            &&& kids[i].path().drop_last() == c
        }
    &&& forall|a: AuthView|
        extends(rels, c, a) ==> exists|i: int|
            0 <= i < kids.len() && (#[trigger] kids[i]).path() == c.push(a)
    &&& forall|i: int, j: int|
        0 <= i < j < kids.len() ==> (#[trigger] kids[i]).path() != (#[trigger] kids[j]).path()
}

/// Where the extension of the path `c` stands after the first `k` of the stored
/// authorizations `auths` for its last issuer were looked at: `kids` holds, in order,
/// one chain for each of them that may extend `c`, and `src` says which.
spec fn extension_step(
    rels: Relations,
    subject: Seq<u8>,
    c: Seq<AuthView>,
    auths: Seq<AuthView>,
    k: int,
    src: Seq<int>,
    kids: Seq<Chain>,
) -> bool {
    &&& src.len() == kids.len()
    &&& forall|i: int|
        0 <= i < src.len() ==> {
            &&& 0 <= #[trigger] src[i] < k
            &&& extends(rels, c, auths[src[i]])
            &&& kids[i].path() == c.push(auths[src[i]])
            &&& chain_ok(rels, subject, kids[i])
        }
    &&& forall|i: int, j: int| 0 <= i < j < src.len() ==> #[trigger] src[i] < #[trigger] src[j]
    &&& forall|m: int| 0 <= m < k && extends(rels, c, #[trigger] auths[m]) ==> src.contains(m)
}

/// A chain made from `cur` by adding the revokers of the issuer of `a` and then `a`
/// itself is a chain of the extended path.
proof fn lemma_kid_ok(
    rels: Relations,
    subject: Seq<u8>,
    cur: Chain,
    kid: Chain,
    a: AuthView,
    revocations: Seq<Revocation>,
)
    requires
        chain_ok(rels, subject, cur),
        extends(rels, cur.path(), a),
        kid.path() == cur.path().push(a),
        lists_revocations(rels, a.issued_by, revocations),
        forall|pk: Seq<u8>|
            kid.is_revoker(pk) <==> cur.is_revoker(pk) || exists|i: int|
                0 <= i < revocations.len() && (#[trigger] revocations[i])@.revoked_by == pk,
    ensures
        chain_ok(rels, subject, kid),
{
    let c = cur.path();
    lemma_extend_ok(rels, subject, c, a);
    assert forall|pk: Seq<u8>| #[trigger]
        kid.is_revoker(pk) <==> revoked_along(rels, kid.path(), kid.path().len() as int, pk) by {
        assert(cur.is_revoker(pk) <==> revoked_along(rels, c, c.len() as int, pk));
        if exists|i: int| 0 <= i < revocations.len() && (#[trigger] revocations[i])@.revoked_by == pk {
            let i = choose|i: int|
                0 <= i < revocations.len() && (#[trigger] revocations[i])@.revoked_by == pk;
            assert(crate::model::has_revocation(rels, revocations[i]@));
            assert(revoked_by(rels, a.issued_by, pk));
        }
        if revoked_by(rels, a.issued_by, pk) {
            assert(exists|i: int|
                0 <= i < revocations.len() && (#[trigger] revocations[i])@.revoked_by == pk);
        }
    }
}

/// The step of an authorization that may extend the path.
proof fn lemma_step_taken(
    rels: Relations,
    subject: Seq<u8>,
    c: Seq<AuthView>,
    auths: Seq<AuthView>,
    k: int,
    src: Seq<int>,
    kids: Seq<Chain>,
    kid: Chain,
)
    requires
        extension_step(rels, subject, c, auths, k, src, kids),
        0 <= k < auths.len(),
        extends(rels, c, auths[k]),
        kid.path() == c.push(auths[k]),
        chain_ok(rels, subject, kid),
    ensures
        extension_step(rels, subject, c, auths, k + 1, src.push(k), kids.push(kid)),
{
    let src2 = src.push(k);
    let kids2 = kids.push(kid);
    assert forall|m: int| 0 <= m < k + 1 && extends(rels, c, #[trigger] auths[m]) implies src2.contains(
        m,
    ) by {
        if m < k {
            assert(src.contains(m));
            let i = choose|i: int| 0 <= i < src.len() && src[i] == m;
            assert(src2[i] == m);
        } else {
            assert(src2[src.len() as int] == m);
        }
    }
    assert forall|i: int| 0 <= i < src2.len() implies {
        &&& 0 <= #[trigger] src2[i] < k + 1
        &&& extends(rels, c, auths[src2[i]])
        &&& kids2[i].path() == c.push(auths[src2[i]])
        &&& chain_ok(rels, subject, kids2[i])
    } by {
        if i < src.len() {
            assert(src2[i] == src[i]);
            assert(kids2[i] == kids[i]);
        }
    }
    assert forall|i: int, j: int| 0 <= i < j < src2.len() implies #[trigger] src2[i] < #[trigger] src2[j] by {
        if j < src.len() {
            assert(src2[i] == src[i] && src2[j] == src[j]);
        } else {
            assert(src2[i] == src[i]);
        }
    }
}

/// The step of an authorization that may not extend the path.
proof fn lemma_step_skipped(
    rels: Relations,
    subject: Seq<u8>,
    c: Seq<AuthView>,
    auths: Seq<AuthView>,
    k: int,
    src: Seq<int>,
    kids: Seq<Chain>,
)
    requires
        extension_step(rels, subject, c, auths, k, src, kids),
        0 <= k < auths.len(),
        !extends(rels, c, auths[k]),
    ensures
        extension_step(rels, subject, c, auths, k + 1, src, kids),
{
    assert forall|i: int| 0 <= i < src.len() implies {
        &&& 0 <= #[trigger] src[i] < k + 1
        &&& extends(rels, c, auths[src[i]])
        &&& kids[i].path() == c.push(auths[src[i]])
        &&& chain_ok(rels, subject, kids[i])
    } by {
        assert(0 <= src[i] < k);
    }
}

/// After the last step the chains made are the children of the path.
proof fn lemma_steps_done(
    rels: Relations,
    subject: Seq<u8>,
    c: Seq<AuthView>,
    auths: Seq<Auth>,
    src: Seq<int>,
    kids: Seq<Chain>,
)
    requires
        c.len() >= 1,
        lists_authorizations(rels, c.last().issued_by, auths),
        extension_step(rels, subject, c, auth_views(auths), auths.len() as int, src, kids),
    ensures
        children_of(rels, subject, c, kids),
{
    let views = auth_views(auths);
    assert forall|i: int| 0 <= i < kids.len() implies {
        &&& chain_ok(rels, subject, #[trigger] kids[i])
        &&& kids[i].path().len() == c.len() + 1
        &&& kids[i].path().drop_last() == c
    } by {
        assert(0 <= src[i] < auths.len());
        assert(c.push(views[src[i]]).drop_last() =~= c);
    }
    assert forall|a: AuthView| extends(rels, c, a) implies exists|i: int|
        0 <= i < kids.len() && (#[trigger] kids[i]).path() == c.push(a) by {
        let m = choose|m: int| 0 <= m < auths.len() && (#[trigger] auths[m])@.issued_by == a.issued_by;
        assert(has_auth(rels, auths[m]@));
        assert(views[m] == a);
        assert(src.contains(m));
        let i = choose|i: int| 0 <= i < src.len() && src[i] == m;
        assert(kids[i].path() == c.push(a));
    }
    assert forall|i: int, j: int| 0 <= i < j < kids.len() implies (#[trigger] kids[i]).path() != (
    #[trigger] kids[j]).path() by {
        assert(src[i] < src[j]);
        assert(0 <= src[i] < auths.len() && 0 <= src[j] < auths.len());
        assert(c.push(views[src[i]]).last() == views[src[i]]);
        assert(c.push(views[src[j]]).last() == views[src[j]]);
        assert(auths[src[i]]@.issued_by != auths[src[j]]@.issued_by);
    }
}

/// Whether `res` holds, shorter ones first and each once, the paths among `done` that
/// end at a root.
spec fn results_ok(
    rels: Relations,
    roots: Set<Seq<u8>>,
    subject: Seq<u8>,
    done: Seq<Seq<AuthView>>,
    res: Seq<Seq<AuthView>>,
) -> bool {
    &&& forall|r: int|
        0 <= r < res.len() ==> {
            &&& path_ok(rels, subject, #[trigger] res[r])
            &&& path_terminated(roots, res[r])
            &&& done.contains(res[r])
        }
    &&& forall|d: int|
        0 <= d < done.len() && path_terminated(roots, #[trigger] done[d]) ==> res.contains(done[d])
    &&& forall|i: int, j: int| 0 <= i < j < res.len() ==> #[trigger] res[i] != #[trigger] res[j]
    &&& forall|i: int, j: int|
        0 <= i <= j < res.len() ==> (#[trigger] res[i]).len() <= (#[trigger] res[j]).len()
}

/// The state of the search between two chains taken from the queue. The queue holds
/// chains of length `level` up to `boundary` and of length `level + 1` from there on;
/// `done` holds the paths that were taken from the queue; every path from the subject
/// was taken already or begins with a chain of the queue.
spec fn search_state(
    rels: Relations,
    roots: Set<Seq<u8>>,
    subject: Seq<u8>,
    queue: Seq<Chain>,
    done: Seq<Seq<AuthView>>,
    res: Seq<Seq<AuthView>>,
    level: int,
    boundary: int,
) -> bool {
    &&& 1 <= level
    &&& 0 <= boundary <= queue.len()
    &&& (queue.len() > 0 ==> boundary >= 1)
    &&& forall|i: int|
        0 <= i < queue.len() ==> {
            &&& chain_ok(rels, subject, #[trigger] queue[i])
            &&& queue[i].path().len() == if i < boundary {
                level
            } else {
                level + 1
            }
        }
    &&& forall|d: int| 0 <= d < done.len() ==> (#[trigger] done[d]).len() <= level
    &&& forall|p: Seq<AuthView>|
        #![trigger path_ok(rels, subject, p)]
        path_ok(rels, subject, p) ==> done.contains(p) || exists|i: int|
            0 <= i < queue.len() && is_prefix((#[trigger] queue[i]).path(), p)
    &&& forall|i: int|
        boundary <= i < queue.len() ==> done.contains((#[trigger] queue[i]).path().drop_last())
    &&& forall|i: int, j: int|
        0 <= i < j < queue.len() ==> (#[trigger] queue[i]).path() != (#[trigger] queue[j]).path()
    &&& forall|i: int, d: int|
        0 <= i < queue.len() && 0 <= d < done.len() ==> (#[trigger] queue[i]).path()
            != #[trigger] done[d]
    &&& results_ok(rels, roots, subject, done, res)
}

/// The level of the search after the first chain of the queue was taken.
spec fn next_level(level: int, boundary: int) -> int {
    if boundary > 1 {
        level
    } else {
        level + 1
    }
}

/// The boundary of the search after the first chain of the queue was taken and
/// `queue_len` chains are in the queue.
spec fn next_boundary(boundary: int, queue_len: int) -> int {
    if boundary > 1 {
        boundary - 1
    } else {
        queue_len
    }
}

/// The results after the path `c` was taken from the queue.
spec fn next_results(roots: Set<Seq<u8>>, res: Seq<Seq<AuthView>>, c: Seq<AuthView>) -> Seq<
    Seq<AuthView>,
> {
    if path_terminated(roots, c) {
        res.push(c)
    } else {
        res
    }
}

/// Every path that begins with the path `c` is `c` or begins with a child of `c`.
proof fn lemma_covered_by_kid(
    rels: Relations,
    subject: Seq<u8>,
    c: Seq<AuthView>,
    kids: Seq<Chain>,
    p: Seq<AuthView>,
)
    requires
        children_of(rels, subject, c, kids),
        path_ok(rels, subject, p),
        is_prefix(c, p),
        c.len() >= 1,
        p != c,
    ensures
        exists|i: int| 0 <= i < kids.len() && is_prefix((#[trigger] kids[i]).path(), p),
{
    let n = c.len() as int;
    if p.len() == n {
        assert(p.subrange(0, n) =~= p);
    }
    let q = p.subrange(0, n + 1);
    lemma_prefix_ok(rels, subject, p, n + 1);
    lemma_last_extends(rels, subject, q);
    assert(q.drop_last() =~= p.subrange(0, n));
    assert(extends(rels, c, q.last()));
    let i = choose|i: int| 0 <= i < kids.len() && (#[trigger] kids[i]).path() == c.push(q.last());
    assert(is_prefix(kids[i].path(), p));
}

/// Taking the first chain from the queue and putting its children at the end of the
/// queue leads from one state of the search to the next.
proof fn lemma_search_step(
    rels: Relations,
    roots: Set<Seq<u8>>,
    subject: Seq<u8>,
    queue: Seq<Chain>,
    done: Seq<Seq<AuthView>>,
    res: Seq<Seq<AuthView>>,
    level: int,
    boundary: int,
    kids: Seq<Chain>,
)
    requires
        search_state(rels, roots, subject, queue, done, res, level, boundary),
        queue.len() > 0,
        children_of(rels, subject, queue[0].path(), kids),
    ensures
        search_state(
            rels,
            roots,
            subject,
            queue.subrange(1, queue.len() as int) + kids,
            done.push(queue[0].path()),
            next_results(roots, res, queue[0].path()),
            next_level(level, boundary),
            next_boundary(boundary, queue.len() - 1 + kids.len()),
        ),
{
    let c = queue[0].path();
    let rest = queue.subrange(1, queue.len() as int);
    let q2 = rest + kids;
    let done2 = done.push(c);
    let res2 = next_results(roots, res, c);
    let level2 = next_level(level, boundary);
    let boundary2 = next_boundary(boundary, queue.len() - 1 + kids.len());
    assert(chain_ok(rels, subject, queue[0]));
    assert(c.len() == level);
    assert(done2[done.len() as int] == c);
    assert forall|d: int| 0 <= d < done.len() implies done2.contains(#[trigger] done[d]) by {
        assert(done2[d] == done[d]);
    }
    assert forall|i: int| 0 <= i < q2.len() implies {
        &&& chain_ok(rels, subject, #[trigger] q2[i])
        &&& q2[i].path().len() == if i < boundary2 {
            level2
        } else {
            level2 + 1
        }
    } by {
        if i < rest.len() {
            assert(q2[i] == queue[i + 1]);
        } else {
            assert(q2[i] == kids[i - rest.len()]);
        }
    }
    assert forall|d: int| 0 <= d < done2.len() implies (#[trigger] done2[d]).len() <= level2 by {
        if d < done.len() {
            assert(done2[d] == done[d]);
        }
    }
    assert forall|p: Seq<AuthView>|
        #![trigger path_ok(rels, subject, p)]
        path_ok(rels, subject, p) implies done2.contains(p) || exists|i: int|
        0 <= i < q2.len() && is_prefix((#[trigger] q2[i]).path(), p) by {
        if done.contains(p) {
            let d = choose|d: int| 0 <= d < done.len() && done[d] == p;
            assert(done2[d] == p);
        } else {
            let i = choose|i: int| 0 <= i < queue.len() && is_prefix((#[trigger] queue[i]).path(), p);
            if i >= 1 {
                assert(q2[i - 1] == queue[i]);
            } else if p == c {
            } else {
                lemma_covered_by_kid(rels, subject, c, kids, p);
                let j = choose|j: int| 0 <= j < kids.len() && is_prefix((#[trigger] kids[j]).path(), p);
                assert(q2[rest.len() + j] == kids[j]);
            }
        }
    }
    assert forall|i: int| boundary2 <= i < q2.len() implies done2.contains(
        (#[trigger] q2[i]).path().drop_last(),
    ) by {
        if i < rest.len() {
            assert(q2[i] == queue[i + 1]);
            assert(done.contains(queue[i + 1].path().drop_last()));
            let d = choose|d: int| 0 <= d < done.len() && done[d] == queue[i + 1].path().drop_last();
            assert(done2[d] == done[d]);
        } else {
            assert(q2[i] == kids[i - rest.len()]);
        }
    }
    assert forall|i: int, j: int| 0 <= i < j < q2.len() implies (#[trigger] q2[i]).path() != (
    #[trigger] q2[j]).path() by {
        if j < rest.len() {
            assert(q2[i] == queue[i + 1] && q2[j] == queue[j + 1]);
        } else if i >= rest.len() {
            assert(q2[i] == kids[i - rest.len()] && q2[j] == kids[j - rest.len()]);
        } else {
            assert(q2[i] == queue[i + 1] && q2[j] == kids[j - rest.len()]);
            if queue[i + 1].path() == kids[j - rest.len()].path() {
                assert(i + 1 >= boundary);
                assert(done.contains(queue[i + 1].path().drop_last()));
                let d = choose|d: int|
                    0 <= d < done.len() && done[d] == queue[i + 1].path().drop_last();
                assert(queue[0].path() != done[d]);
            }
        }
    }
    assert forall|i: int, d: int| 0 <= i < q2.len() && 0 <= d < done2.len() implies (
    #[trigger] q2[i]).path() != #[trigger] done2[d] by {
        if i < rest.len() {
            assert(q2[i] == queue[i + 1]);
            if d < done.len() {
                assert(done2[d] == done[d]);
            } else {
                assert(queue[0].path() != queue[i + 1].path());
            }
        } else {
            assert(q2[i] == kids[i - rest.len()]);
            if d < done.len() {
                assert(done2[d] == done[d]);
            }
        }
    }
    assert(results_ok(rels, roots, subject, done2, res2)) by {
        assert forall|r: int| 0 <= r < res.len() implies (#[trigger] res[r]).len() <= level && res[r]
            != c by {
            let d = choose|d: int| 0 <= d < done.len() && done[d] == res[r];
            assert(queue[0].path() != done[d]);
        }
        assert forall|r: int| 0 <= r < res2.len() implies {
            &&& path_ok(rels, subject, #[trigger] res2[r])
            &&& path_terminated(roots, res2[r])
            &&& done2.contains(res2[r])
        } by {
            if r < res.len() {
                assert(res2[r] == res[r]);
                let d = choose|d: int| 0 <= d < done.len() && done[d] == res[r];
                assert(done2[d] == res[r]);
            }
        }
        assert forall|d: int|
            0 <= d < done2.len() && path_terminated(roots, #[trigger] done2[d]) implies res2.contains(
            done2[d],
        ) by {
            if d < done.len() {
                assert(done2[d] == done[d]);
                let r = choose|r: int| 0 <= r < res.len() && res[r] == done[d];
                assert(res2[r] == done[d]);
            } else {
                assert(res2[res.len() as int] == c);
            }
        }
        assert forall|i: int, j: int| 0 <= i < j < res2.len() implies #[trigger] res2[i]
            != #[trigger] res2[j] by {
            assert(res2[i] == res[i]);
            if j < res.len() {
                assert(res2[j] == res[j]);
            }
        }
        assert forall|i: int, j: int| 0 <= i <= j < res2.len() implies (#[trigger] res2[i]).len() <= (
        #[trigger] res2[j]).len() by {
            if j < res.len() {
                assert(res2[i] == res[i] && res2[j] == res[j]);
            } else if i < res.len() {
                assert(res2[i] == res[i]);
            }
        }
    }
}

/// When the queue is empty, the results are the paths from the subject to the roots.
proof fn lemma_search_done(
    rels: Relations,
    roots: Set<Seq<u8>>,
    subject: Seq<u8>,
    done: Seq<Seq<AuthView>>,
    res: Seq<Seq<AuthView>>,
    level: int,
    boundary: int,
)
    requires
        search_state(rels, roots, subject, Seq::<Chain>::empty(), done, res, level, boundary),
    ensures
        paths_found(rels, roots, subject, res),
{
    assert forall|p: Seq<AuthView>|
        path_ok(rels, subject, p) && path_terminated(roots, p) implies res.contains(p) by {
        assert(done.contains(p));
        let d = choose|d: int| 0 <= d < done.len() && done[d] == p;
        assert(path_terminated(roots, done[d]));
    }
}

/// A chain of one stored authorization for the subject with the revokers of the
/// subject is a chain of the search.
proof fn lemma_seed_ok(
    rels: Relations,
    subject: Seq<u8>,
    chain: Chain,
    a: AuthView,
    revocations: Seq<Revocation>,
    stored: Seq<Revocation>,
)
    requires
        has_auth(rels, a),
        a.trust.issued_for == subject,
        chain.path() == seq![a],
        lists_revocations(rels, subject, stored),
        revocations.len() == stored.len(),
        forall|i: int| 0 <= i < revocations.len() ==> (#[trigger] revocations[i])@ == stored[i]@,
        forall|pk: Seq<u8>|
            chain.is_revoker(pk) <==> exists|i: int|
                0 <= i < revocations.len() && (#[trigger] revocations[i])@.revoked_by == pk,
    ensures
        chain_ok(rels, subject, chain),
{
    let p = chain.path();
    assert forall|pk: Seq<u8>| #[trigger]
        chain.is_revoker(pk) <==> revoked_along(rels, p, p.len() as int, pk) by {
        if chain.is_revoker(pk) {
            let i = choose|i: int|
                0 <= i < revocations.len() && (#[trigger] revocations[i])@.revoked_by == pk;
            assert(crate::model::has_revocation(rels, stored[i]@));
        }
        if revoked_by(rels, subject, pk) {
            let i = choose|i: int| 0 <= i < stored.len() && (#[trigger] stored[i])@.revoked_by == pk;
            assert(revocations[i]@.revoked_by == pk);
        }
    }
}

/// The search starts with one chain for each stored authorization for the subject.
proof fn lemma_search_start(
    rels: Relations,
    roots: Set<Seq<u8>>,
    subject: Seq<u8>,
    queue: Seq<Chain>,
    auths: Seq<Auth>,
)
    requires
        lists_authorizations(rels, subject, auths),
        queue.len() == auths.len(),
        forall|i: int|
            0 <= i < queue.len() ==> {
                &&& chain_ok(rels, subject, #[trigger] queue[i])
                &&& queue[i].path() == seq![auths[i]@]
            },
    ensures
        search_state(
            rels,
            roots,
            subject,
            queue,
            Seq::<Seq<AuthView>>::empty(),
            Seq::<Seq<AuthView>>::empty(),
            1,
            queue.len() as int,
        ),
{
    let done = Seq::<Seq<AuthView>>::empty();
    assert forall|p: Seq<AuthView>|
        #![trigger path_ok(rels, subject, p)]
        path_ok(rels, subject, p) implies done.contains(p) || exists|i: int|
        0 <= i < queue.len() && is_prefix((#[trigger] queue[i]).path(), p) by {
        assert(has_auth(rels, p[0]));
        let m = choose|m: int| 0 <= m < auths.len() && (#[trigger] auths[m])@.issued_by == p[0].issued_by;
        assert(has_auth(rels, auths[m]@));
        assert(auths[m]@ == p[0]);
        assert(p.subrange(0, 1) =~= seq![p[0]]);
        assert(is_prefix(queue[m].path(), p));
    }
    assert forall|i: int, j: int| 0 <= i < j < queue.len() implies (#[trigger] queue[i]).path() != (
    #[trigger] queue[j]).path() by {
        assert(queue[i].path()[0] == auths[i]@);
        assert(queue[j].path()[0] == auths[j]@);
        assert(auths[i]@.issued_by != auths[j]@.issued_by);
    }
}

/// A copy of a list of revocations.
fn clone_revocations(revocations: &Vec<Revocation>) -> (copy: Vec<Revocation>)
    ensures
        copy@.len() == revocations@.len(),
        forall|i: int| 0 <= i < copy@.len() ==> (#[trigger] copy@[i])@ == revocations@[i]@,
{
    let mut copy: Vec<Revocation> = Vec::new();
    let mut i: usize = 0;
    while i < revocations.len()
        invariant
            i <= revocations@.len(),
            copy@.len() == i,
            forall|k: int| 0 <= k < i ==> (#[trigger] copy@[k])@ == revocations@[k]@,
        decreases revocations@.len() - i,
    {
        copy.push(revocations[i].clone());
        i += 1;
    }
    copy
}

/// Whether `pk` is one of `keys`.
fn contains_key(keys: &Vec<PK>, pk: &PublicKey) -> (out: bool)
    ensures
        out == key_set(keys@).contains(pk@),
{
    let mut i: usize = 0;
    while i < keys.len()
        invariant
            i <= keys@.len(),
            forall|k: int| 0 <= k < i ==> (#[trigger] keys@[k])@ != pk@,
        decreases keys@.len() - i,
    {
        if keys[i].0 == *pk {
            return true;
        }
        i += 1;
    }
    false
}

/// The graph's error for a failure of its storage: it carries the failure's message.
fn storage_failure<E: StorageError>(e: E) -> (out: TrustGraphError)
    ensures
        out matches TrustGraphError::InternalStorageError(message) && message@ == e.text(),
{
    TrustGraphError::InternalStorageError(e.message())
}

impl<S: Storage> TrustGraph<S> {
    /// The relations that the graph holds.
    pub closed spec fn relations(&self) -> Relations {
        self.storage.relations()
    }

    /// The roots that the graph holds.
    pub closed spec fn roots(&self) -> Roots {
        self.storage.roots()
    }

    /// What holds of the graph between operations: its storage is in its invariant.
    pub closed spec fn inv(&self) -> bool {
        self.storage.inv()
    }

    /// A graph on the given storage.
    pub fn new(storage: S) -> (out: Self)
        requires
            storage.inv(),
        ensures
            out.inv(),
            out.relations() == storage.relations(),
            out.roots() == storage.roots(),
    {
        Self { storage }
    }

    /// Pushes onto the queue every chain that extends `cur` by one stored authorization.
    fn push_extensions(
        &self,
        cur: &Chain,
        queue: &mut VecDeque<Chain>,
        Ghost(subject): Ghost<Seq<u8>>,
    ) -> (out: Result<(), TrustGraphError>)
        requires
            self.inv(),
            chain_ok(self.relations(), subject, *cur),
        ensures
            S::infallible() ==> out is Ok,
            out matches Err(e) ==> e is InternalStorageError,
            final(queue)@.len() >= old(queue)@.len(),
            final(queue)@.subrange(0, old(queue)@.len() as int) == old(queue)@,
            out is Ok ==> children_of(
                self.relations(),
                subject,
                cur.path(),
                final(queue)@.subrange(old(queue)@.len() as int, final(queue)@.len() as int),
            ),
    {
        let ghost rels = self.relations();
        let ghost c = cur.path();
        let ghost start = queue@.len() as int;
        let last = cur.last();
        assert(queue@.subrange(0, start) == queue@);
        let auths = match self.storage.get_authorizations(&PK::from(last.issued_by.clone())) {
            Ok(auths) => auths,
            Err(e) => {
                return Err(storage_failure(e));
            },
        };
        let ghost mut src: Seq<int> = Seq::empty();
        let mut k: usize = 0;
        while k < auths.len()
            invariant
                self.inv(),
                rels == self.relations(),
                c == cur.path(),
                chain_ok(rels, subject, *cur),
                lists_authorizations(rels, c.last().issued_by, auths@),
                k <= auths@.len(),
                start == old(queue)@.len(),
                queue@.len() == start + src.len(),
                queue@.subrange(0, start) == old(queue)@,
                extension_step(rels, subject, c, auth_views(auths@), k as int, src, queue@.subrange(start, queue@.len() as int)),
            decreases auths@.len() - k,
        {
            let auth = &auths[k];
            let ghost a = auth@;
            let ghost before = queue@;
            let ghost kids = queue@.subrange(start, queue@.len() as int);
            assert(has_auth(rels, auths@[k as int]@));
            assert(auth_views(auths@)[k as int] == a);
            if cur.can_be_extended_by(&auth.issued_by) {
                assert(extends(rels, c, a));
                let mut new_chain = cur.clone();
                let revocations = match self.storage.get_revocations(
                    &PK::from(auth.issued_by.clone()),
                ) {
                    Ok(revocations) => revocations,
                    Err(e) => {
                        return Err(storage_failure(e));
                    },
                };
                new_chain.add_revocations(revocations);
                new_chain.push(auth.clone());
                proof {
                    lemma_kid_ok(rels, subject, *cur, new_chain, a, revocations@);
                    lemma_step_taken(rels, subject, c, auth_views(auths@), k as int, src, kids, new_chain);
                }
                queue.push_back(new_chain);
                proof {
                    assert(queue@.subrange(0, start) =~= before.subrange(0, start));
                    assert(queue@.subrange(start, queue@.len() as int) =~= kids.push(new_chain));
                    src = src.push(k as int);
                }
            } else {
                proof {
                    lemma_step_skipped(rels, subject, c, auth_views(auths@), k as int, src, kids);
                }
            }
            k += 1;
        }
        proof {
            lemma_steps_done(
                rels,
                subject,
                c,
                auths@,
                src,
                queue@.subrange(start, queue@.len() as int),
            );
        }
        Ok(())
    }

    /// Breadth-first search for all paths of authorizations that lead from `pk` to one
    /// of `roots`. A path starts with an authorization issued for `pk`; each further
    /// authorization is issued for the issuer of the one before it, by an issuer for
    /// whom no authorization of the path is issued and who has revoked neither `pk` nor
    /// an issuer on the path. The paths found are those that end with an authorization
    /// self-signed by a root and hold more than one authorization; shorter paths come
    /// first.
    fn bf_search_paths(&self, pk: &PK, roots: &Vec<PK>) -> (out: Result<
        Vec<Vec<Auth>>,
        TrustGraphError,
    >)
        requires
            self.inv(),
        ensures
            S::infallible() ==> out is Ok,
            match out {
                Ok(found) => paths_found(
                    self.relations(),
                    key_set(roots@),
                    pk@,
                    path_views(found@),
                ),
                Err(e) => e is InternalStorageError,
            },
    {
        let ghost rels = self.relations();
        let ghost rootset = key_set(roots@);
        let ghost subject = pk@;
        let mut chains_queue: VecDeque<Chain> = VecDeque::new();

        let node_auths = match self.storage.get_authorizations(pk) {
            Ok(auths) => auths,
            Err(e) => {
                return Err(storage_failure(e));
            },
        };
        let node_revocations = match self.storage.get_revocations(pk) {
            Ok(revocations) => revocations,
            Err(e) => {
                return Err(storage_failure(e));
            },
        };

        // put all auth in the queue as the first possible paths through the graph
        let mut n: usize = 0;
        while n < node_auths.len()
            invariant
                n <= node_auths@.len(),
                chains_queue@.len() == n,
                lists_authorizations(rels, subject, node_auths@),
                lists_revocations(rels, subject, node_revocations@),
                forall|i: int|
                    0 <= i < n ==> {
                        &&& chain_ok(rels, subject, #[trigger] chains_queue@[i])
                        &&& chains_queue@[i].path() == seq![node_auths@[i]@]
                    },
            decreases node_auths@.len() - n,
        {
            let ghost before = chains_queue@;
            let revocations = clone_revocations(&node_revocations);
            let chain = Chain::single(node_auths[n].clone(), revocations);
            proof {
                lemma_seed_ok(rels, subject, chain, node_auths@[n as int]@, revocations@, node_revocations@);
            }
            chains_queue.push_back(chain);
            assert forall|i: int| 0 <= i < n + 1 implies {
                &&& chain_ok(rels, subject, #[trigger] chains_queue@[i])
                &&& chains_queue@[i].path() == seq![node_auths@[i]@]
            } by {
                if i < n {
                    assert(chains_queue@[i] == before[i]);
                }
            }
            n += 1;
        }

        // List of all chains that converge (terminate) to known roots
        let mut terminated_chains: Vec<Vec<Auth>> = Vec::new();
        let ghost mut done: Seq<Seq<AuthView>> = Seq::empty();
        let ghost mut level: int = 1;
        let ghost mut boundary: int = chains_queue@.len() as int;
        proof {
            lemma_search_start(rels, rootset, subject, chains_queue@, node_auths@);
            assert(path_views(terminated_chains@) =~= Seq::<Seq<AuthView>>::empty());
        }

        while chains_queue.len() > 0
            invariant
                self.inv(),
                rels == self.relations(),
                crate::model::relations_wf(rels),
                rootset == key_set(roots@),
                search_state(
                    rels,
                    rootset,
                    subject,
                    chains_queue@,
                    done,
                    path_views(terminated_chains@),
                    level,
                    boundary,
                ),
                level <= rels.dom().len() + 1,
            ensures
                chains_queue@.len() == 0,
            decreases rels.dom().len() + 1 - level, boundary,
        {
            let ghost queue = chains_queue@;
            let ghost res = path_views(terminated_chains@);
            let cur_chain = match chains_queue.pop_front() {
                Some(chain) => chain,
                None => {
                    break ;
                },
            };
            let ghost c = cur_chain.path();
            proof {
                assert(cur_chain == queue[0]);
                assert(chain_ok(rels, subject, queue[0]));
                lemma_path_bounded(rels, subject, c);
            }
            let ghost rest = chains_queue@;

            match self.push_extensions(&cur_chain, &mut chains_queue, Ghost(subject)) {
                Ok(()) => {},
                Err(e) => {
                    return Err(e);
                },
            }
            let ghost kids = chains_queue@.subrange(rest.len() as int, chains_queue@.len() as int);
            proof {
                assert(chains_queue@ =~= rest + kids) by {
                    assert(chains_queue@.subrange(0, rest.len() as int) == rest);
                }
                assert(rest =~= queue.subrange(1, queue.len() as int));
                lemma_search_step(rels, rootset, subject, queue, done, res, level, boundary, kids);
            }

            // to be considered a valid chain, the chain must:
            // - end with a self-signed trust
            // - that trust must converge to one of the roots
            // - there should be more than 1 trust in the chain
            let last = cur_chain.last();
            let self_signed = last.issued_by == last.trust.issued_for;
            let converges_to_root = contains_key(roots, &last.issued_by);

            if self_signed && converges_to_root && cur_chain.len() > 1 {
                let ghost before = terminated_chains@;
                let auths = cur_chain.into_auths();
                assert(auth_views(auths@) =~= c);
                terminated_chains.push(auths);
                assert(path_views(terminated_chains@) =~= res.push(c)) by {
                    assert forall|i: int| 0 <= i < before.len() implies path_views(
                        terminated_chains@,
                    )[i] == res[i] by {
                        assert(terminated_chains@[i] == before[i]);
                    }
                }
            }
            proof {
                done = done.push(c);
                level = next_level(level, boundary);
                boundary = next_boundary(boundary, queue.len() - 1 + kids.len());
                if chains_queue@.len() > 0 {
                    assert(chain_ok(rels, subject, chains_queue@[0]));
                    lemma_path_bounded(rels, subject, chains_queue@[0].path());
                }
            }
        }
        proof {
            assert(chains_queue@ =~= Seq::<Chain>::empty());
            lemma_search_done(
                rels,
                rootset,
                subject,
                done,
                path_views(terminated_chains@),
                level,
                boundary,
            );
        }
        Ok(terminated_chains)
    }

    /// Registers `pk` as a root with the given weight factor, or changes its factor.
    /// Doing so twice is the same as doing so once.
    pub fn add_root_weight_factor(&mut self, pk: PublicKey, weight: WeightFactor) -> (out: Result<
        (),
        TrustGraphError,
    >)
        requires
            old(self).inv(),
        ensures
            final(self).inv(),
            S::infallible() ==> out is Ok,
            final(self).relations() == old(self).relations(),
            match out {
                Ok(()) => final(self).roots() == old(self).roots().insert(pk@, weight),
                Err(e) => e is InternalStorageError && final(self).roots() == old(self).roots(),
            },
    {
        match self.storage.set_root_weight_factor(PK::from(pk), weight) {
            Ok(()) => Ok(()),
            Err(e) => Err(storage_failure(e)),
        }
    }

    /// Adds a trust given by `issued_by`, at the time `cur_time`.
    ///
    /// The trust is verified first; an expired or wrongly signed trust is refused and
    /// nothing is stored. Then the weight of the issuer is computed, which sweeps the
    /// expired authorizations, and the trust is offered to the storage, also where the
    /// issuer has no weight. The result is the weight that the trust hands on: the
    /// issuer's weight for a self-signed trust, half of it for any other.
    pub fn add_trust(&mut self, trust: &Trust, issued_by: &PublicKey, cur_time: u64) -> (out: Result<
        u32,
        TrustGraphError,
    >)
        requires
            old(self).inv(),
        ensures
            final(self).inv(),
            final(self).roots() == old(self).roots(),
            S::infallible() ==> (out is Ok <==> trust_valid(trust@, issued_by@, cur_time)),
            match out {
                Ok(weight) => {
                    &&& trust_valid(trust@, issued_by@, cur_time)
                    &&& final(self).relations() == updated(
                        without_expired(old(self).relations(), cur_time),
                        RelationView::Auth(AuthView { trust: trust@, issued_by: issued_by@ }),
                    )
                    &&& weight == next_weight(
                        weight_of(
                            without_expired(old(self).relations(), cur_time),
                            old(self).roots(),
                            issued_by@,
                        ),
                        issued_by@ == trust@.issued_for,
                    )
                },
                Err(TrustGraphError::TrustVerificationError(_)) => {
                    &&& !trust_valid(trust@, issued_by@, cur_time)
                    &&& final(self).relations() == old(self).relations()
                },
                Err(TrustGraphError::InternalStorageError(_)) => {
                    &&& trust_valid(trust@, issued_by@, cur_time)
                    &&& (final(self).relations() == old(self).relations() || final(self).relations()
                        == without_expired(old(self).relations(), cur_time))
                },
                Err(_) => false,
            },
    {
        match Trust::verify(trust, issued_by, cur_time) {
            Ok(()) => {},
            Err(e) => {
                return Err(TrustGraphError::TrustVerificationError(e));
            },
        }
        let next_weight = match self.get_next_weight(issued_by, &trust.issued_for, cur_time) {
            Ok(weight) => weight,
            Err(e) => {
                return Err(e);
            },
        };
        // the trust is stored also where it hands on no weight: the issuer may gain
        // weight later
        let auth = Auth { trust: trust.clone(), issued_by: issued_by.clone() };
        match self.storage.update_auth(auth, cur_time) {
            Ok(()) => {},
            Err(e) => {
                return Err(storage_failure(e));
            },
        }
        Ok(next_weight)
    }

    /// The weight that a trust of `issued_by` for `issued_for` hands on at `cur_time`.
    fn get_next_weight(&mut self, issued_by: &PublicKey, issued_for: &PublicKey, cur_time: u64) -> (out:
        Result<u32, TrustGraphError>)
        requires
            old(self).inv(),
        ensures
            final(self).inv(),
            final(self).roots() == old(self).roots(),
            S::infallible() ==> out is Ok,
            match out {
                Ok(weight) => {
                    &&& final(self).relations() == without_expired(old(self).relations(), cur_time)
                    &&& weight == next_weight(
                        weight_of(final(self).relations(), final(self).roots(), issued_by@),
                        issued_by@ == issued_for@,
                    )
                },
                Err(e) => {
                    &&& e is InternalStorageError
                    &&& (final(self).relations() == old(self).relations() || final(self).relations()
                        == without_expired(old(self).relations(), cur_time))
                },
            },
    {
        let issued_by_weight = match self.weight(issued_by, cur_time) {
            Ok(weight) => weight,
            Err(e) => {
                return Err(e);
            },
        };

        // self-signed trust has same weight as max weight of issuer
        if *issued_by == *issued_for {
            Ok(issued_by_weight)
        } else {
            Ok(issued_by_weight / 2)
        }
    }

    /// Adds the trusts of a certificate in order, from the root trust on: the first
    /// under its own subject as issuer, every other under the subject of the trust
    /// before it. A certificate without trusts is refused. The first trust that is
    /// refused ends the work; the trusts before it stay added.
    #[verifier::rlimit(40)]
    pub fn add(&mut self, cert: &Certificate, cur_time: u64) -> (out: Result<(), TrustGraphError>)
        requires
            old(self).inv(),
        ensures
            final(self).inv(),
            final(self).roots() == old(self).roots(),
            cert@.len() == 0 ==> (out matches Err(TrustGraphError::EmptyChain)
                && final(self).relations() == old(self).relations()),
            out matches Err(TrustGraphError::EmptyChain) ==> cert@.len() == 0,
            S::infallible() && cert@.len() > 0 ==> (out is Ok <==> forall|i: int|
                0 <= i < cert@.len() ==> trust_valid(
                    #[trigger] cert@[i],
                    crate::model::issuer_in_cert(cert@, i),
                    cur_time,
                )),
            match out {
                Ok(()) => {
                    &&& forall|i: int|
                        0 <= i < cert@.len() ==> trust_valid(
                            #[trigger] cert@[i],
                            crate::model::issuer_in_cert(cert@, i),
                            cur_time,
                        )
                    &&& final(self).relations() == chain_added(
                        old(self).relations(),
                        cert@,
                        cur_time,
                        cert@.len() as int,
                    )
                },
                Err(TrustGraphError::TrustVerificationError(_)) => exists|k: int|
                    {
                        &&& 0 <= k < cert@.len()
                        &&& !trust_valid(
                            #[trigger] cert@[k],
                            crate::model::issuer_in_cert(cert@, k),
                            cur_time,
                        )
                        &&& final(self).relations() == chain_added(
                            old(self).relations(),
                            cert@,
                            cur_time,
                            k,
                        )
                    },
                Err(TrustGraphError::InternalStorageError(_)) => cert@.len() > 0,
                Err(TrustGraphError::EmptyChain) => true,
                Err(_) => false,
            },
    {
        let chain = &cert.chain;
        if chain.len() == 0 {
            return Err(TrustGraphError::EmptyChain);
        }
        let mut issued_by = chain[0].issued_for.clone();
        let ghost start = self.relations();

        let mut i: usize = 0;
        while i < chain.len()
            invariant
                self.inv(),
                self.roots() == old(self).roots(),
                start == old(self).relations(),
                chain == &cert.chain,
                i <= chain@.len(),
                chain@.len() > 0,
                issued_by@ == crate::model::issuer_in_cert(cert@, i as int),
                self.relations() == chain_added(start, cert@, cur_time, i as int),
                forall|k: int|
                    0 <= k < i ==> trust_valid(
                        #[trigger] cert@[k],
                        crate::model::issuer_in_cert(cert@, k),
                        cur_time,
                    ),
            decreases chain@.len() - i,
        {
            let trust = &chain[i];
            assert(trust@ == cert@[i as int]);
            match self.add_trust(trust, &issued_by, cur_time) {
                Ok(_) => {},
                Err(e) => {
                    return Err(e);
                },
            }
            issued_by = trust.issued_for.clone();
            i += 1;
        }

        Ok(())
    }

    /// The maximum weight of trust for one public key at `cur_time`: the greater of the
    /// weight that the key has as a root and the weight of its best certificate, and 0
    /// where it has neither. The expired authorizations are swept first.
    pub fn weight(&mut self, pk: &PublicKey, cur_time: u64) -> (out: Result<u32, TrustGraphError>)
        requires
            old(self).inv(),
        ensures
            final(self).inv(),
            final(self).roots() == old(self).roots(),
            S::infallible() ==> out is Ok,
            match out {
                Ok(weight) => {
                    &&& final(self).relations() == without_expired(old(self).relations(), cur_time)
                    &&& weight == weight_of(final(self).relations(), final(self).roots(), pk@)
                },
                Err(e) => {
                    &&& e is InternalStorageError
                    &&& (final(self).relations() == old(self).relations() || final(self).relations()
                        == without_expired(old(self).relations(), cur_time))
                },
            },
    {
        let mut max_weight: u32 = 0;
        match self.storage.get_root_weight_factor(&PK::from(pk.clone())) {
            Ok(Some(weight_factor)) => {
                max_weight = get_weight_from_factor(weight_factor);
            },
            Ok(None) => {},
            Err(e) => {
                return Err(storage_failure(e));
            },
        }

        // get all possible certificates from the given public key to all roots in the graph
        let certs = match self.get_all_certs(pk, cur_time) {
            Ok(certs) => certs,
            Err(e) => {
                return Err(e);
            },
        };
        let ghost rels = self.relations();
        let ghost roots = self.roots();
        proof {
            assert forall|i: int| 0 <= i < certs@.len() implies !cert_unweighable(
                roots,
                #[trigger] cert_views(certs@)[i],
            ) by {
                let chain = cert_views(certs@)[i];
                assert(is_certificate(rels, roots.dom(), pk@, chain));
                let p = crate::model::path_of_cert(chain);
                assert(p.last().issued_by == chain[0].issued_for);
            }
        }
        match self.certificates_weight_factor(&certs) {
            Ok(Some(weight_factor)) => {
                let by_cert = get_weight_from_factor(weight_factor);
                proof {
                    let views = cert_views(certs@);
                    let i = choose|i: int|
                        0 <= i < views.len() && #[trigger] cert_factor(roots, views[i])
                            == weight_factor;
                    assert(is_certificate(rels, roots.dom(), pk@, views[i]));
                    assert forall|chain: Seq<TrustView>|
                        is_certificate(rels, roots.dom(), pk@, chain) implies #[trigger] cert_factor(
                        roots,
                        chain,
                    ) >= weight_factor by {
                        assert(views.contains(chain));
                        let j = choose|j: int| 0 <= j < views.len() && views[j] == chain;
                        assert(cert_factor(roots, views[j]) >= weight_factor);
                    }
                    assert(is_best_factor(rels, roots, pk@, weight_factor));
                    lemma_best_factor(rels, roots, pk@, weight_factor);
                }
                if by_cert > max_weight {
                    max_weight = by_cert;
                }
            },
            Ok(None) => {
                proof {
                    if has_certificate(rels, roots, pk@) {
                        let chain = choose|chain: Seq<TrustView>|
                            is_certificate(rels, roots.dom(), pk@, chain);
                        assert(cert_views(certs@).contains(chain));
                    }
                }
            },
            Err(e) => {
                return Err(e);
            },
        }

        Ok(max_weight)
    }

    /// The least weight factor among the given certificates, and nothing for no
    /// certificates. The weight factor of a certificate is that of its root, one more
    /// for every trust after the root trust. The first certificate without trusts ends
    /// the work with `EmptyChain`, the first whose first trust is issued for a key that
    /// is no root with `NoRoot`.
    pub fn certificates_weight_factor(&self, certs: &Vec<Certificate>) -> (out: Result<
        Option<WeightFactor>,
        TrustGraphError,
    >)
        requires
            self.inv(),
        ensures
            S::infallible() ==> (out is Ok <==> forall|i: int|
                0 <= i < certs@.len() ==> !cert_unweighable(
                    self.roots(),
                    #[trigger] cert_views(certs@)[i],
                )),
            match out {
                Ok(None) => certs@.len() == 0,
                Ok(Some(factor)) => {
                    &&& certs@.len() > 0
                    &&& forall|i: int|
                        0 <= i < certs@.len() ==> !cert_unweighable(
                            self.roots(),
                            #[trigger] cert_views(certs@)[i],
                        )
                    &&& is_least_factor(self.roots(), cert_views(certs@), factor)
                },
                Err(TrustGraphError::EmptyChain) => exists|k: int|
                    {
                        &&& 0 <= k < certs@.len()
                        &&& (#[trigger] cert_views(certs@)[k]).len() == 0
                        &&& forall|i: int|
                            0 <= i < k ==> !cert_unweighable(
                                self.roots(),
                                #[trigger] cert_views(certs@)[i],
                            )
                    },
                Err(TrustGraphError::NoRoot) => exists|k: int|
                    {
                        &&& 0 <= k < certs@.len()
                        &&& (#[trigger] cert_views(certs@)[k]).len() > 0
                        &&& !self.roots().dom().contains(cert_views(certs@)[k][0].issued_for)
                        &&& forall|i: int|
                            0 <= i < k ==> !cert_unweighable(
                                self.roots(),
                                #[trigger] cert_views(certs@)[i],
                            )
                    },
                Err(TrustGraphError::InternalStorageError(_)) => true,
                Err(_) => false,
            },
    {
        // if there are no certificates for the given public key, there is no info about
        // this public key or some elements of possible certificate chains was revoked
        if certs.len() == 0 {
            return Ok(None);
        }
        let ghost roots = self.roots();
        let ghost views = cert_views(certs@);
        let mut weight_factor: u32 = u32::MAX;

        let mut n: usize = 0;
        while n < certs.len()
            invariant
                self.inv(),
                roots == self.roots(),
                views == cert_views(certs@),
                n <= certs@.len(),
                forall|i: int| 0 <= i < n ==> !cert_unweighable(roots, #[trigger] views[i]),
                forall|i: int| 0 <= i < n ==> #[trigger] cert_factor(roots, views[i]) >= weight_factor,
                n == 0 ==> weight_factor == u32::MAX,
                n > 0 ==> exists|i: int|
                    0 <= i < n && #[trigger] cert_factor(roots, views[i]) == weight_factor,
            decreases certs@.len() - n,
        {
            let c = &certs[n];
            assert(views[n as int] == c@);
            if c.chain.len() == 0 {
                return Err(TrustGraphError::EmptyChain);
            }
            let first = &c.chain[0];
            assert(first@ == c@[0]);
            let root_weight_factor = match self.storage.get_root_weight_factor(
                &PK::from(first.issued_for.clone()),
            ) {
                Ok(Some(factor)) => factor,
                Ok(None) => {
                    return Err(TrustGraphError::NoRoot);
                },
                Err(e) => {
                    return Err(storage_failure(e));
                },
            };

            // certificate weight_factor = root weight factor + 1 * every other element in
            // the chain (except root, so the formula is `root weight factor + chain length - 1`)
            let extra: u32 = if c.chain.len() - 1 > u32::MAX as usize {
                u32::MAX
            } else {
                (c.chain.len() - 1) as u32
            };
            let factor = root_weight_factor.saturating_add(extra);
            assert(factor == cert_factor(roots, views[n as int]));
            if factor < weight_factor {
                weight_factor = factor;
            }
            n += 1;
        }

        Ok(Some(weight_factor))
    }

    /// All certificates of `issued_for` at `cur_time`: the chains of trusts that lead
    /// from a root to `issued_for`, the root trust first. The expired authorizations
    /// are swept first, so that what is found holds at `cur_time`; then the paths from
    /// `issued_for` to the registered roots are searched, and each is turned round into
    /// a certificate. Shorter certificates come first.
    pub fn get_all_certs(&mut self, issued_for: &PublicKey, cur_time: u64) -> (out: Result<
        Vec<Certificate>,
        TrustGraphError,
    >)
        requires
            old(self).inv(),
        ensures
            final(self).inv(),
            final(self).roots() == old(self).roots(),
            S::infallible() ==> out is Ok,
            match out {
                Ok(certs) => {
                    &&& final(self).relations() == without_expired(old(self).relations(), cur_time)
                    &&& certs_found(
                        final(self).relations(),
                        final(self).roots().dom(),
                        issued_for@,
                        cert_views(certs@),
                    )
                },
                Err(e) => {
                    &&& e is InternalStorageError
                    &&& (final(self).relations() == old(self).relations() || final(self).relations()
                        == without_expired(old(self).relations(), cur_time))
                },
            },
    {
        // garbage collect
        match self.storage.remove_expired(cur_time) {
            Ok(()) => {},
            Err(e) => {
                return Err(storage_failure(e));
            },
        }

        // maybe later we should retrieve root keys lazily
        let keys = match self.storage.root_keys() {
            Ok(keys) => keys,
            Err(e) => {
                return Err(storage_failure(e));
            },
        };
        proof {
            assert(key_set(keys@) =~= self.roots().dom()) by {
                assert forall|k: Seq<u8>| self.roots().dom().contains(k) implies key_set(
                    keys@,
                ).contains(k) by {
                    let i = choose|i: int| 0 <= i < keys@.len() && (#[trigger] keys@[i])@ == k;
                }
            }
        }

        let paths = match self.bf_search_paths(&PK::from(issued_for.clone()), &keys) {
            Ok(paths) => paths,
            Err(e) => {
                return Err(e);
            },
        };
        let ghost found = path_views(paths@);
        let mut certs: Vec<Certificate> = Vec::new();
        let mut n: usize = 0;
        while n < paths.len()
            invariant
                n <= paths@.len(),
                found == path_views(paths@),
                certs@.len() == n,
                forall|i: int| 0 <= i < found.len() ==> (#[trigger] found[i]).len() > 1,
                forall|i: int| 0 <= i < n ==> (#[trigger] certs@[i])@ == cert_of_path(found[i]),
            decreases paths@.len() - n,
        {
            let auths = &paths[n];
            assert(auth_views(auths@) == found[n as int]);
            let mut trusts: Vec<Trust> = Vec::new();
            let mut m: usize = auths.len();
            while m > 0
                invariant
                    m <= auths@.len(),
                    trusts@.len() == auths@.len() - m,
                    forall|i: int|
                        0 <= i < trusts@.len() ==> (#[trigger] trusts@[i])@ == auths@[auths@.len() - 1
                            - i]@.trust,
                decreases m,
            {
                m -= 1;
                trusts.push(auths[m].trust.clone());
            }
            let c = Certificate::new_unverified(trusts);
            assert(c@ =~= cert_of_path(found[n as int]));
            // Certificate with one trust means nothing, gotta be a bug. Checking for it here.
            if c.chain.len() > 1 {
                certs.push(c);
            }
            n += 1;
        }
        proof {
            lemma_certs_of_paths(
                self.relations(),
                self.roots().dom(),
                issued_for@,
                found,
                cert_views(certs@),
            );
        }
        Ok(certs)
    }

    /// Marks a public key as revoked by the issuer of the revocation. The signature of
    /// the revocation is verified first, and a wrongly signed revocation is refused;
    /// then the revocation is offered to the storage.
    pub fn revoke(&mut self, revocation: Revocation) -> (out: Result<(), TrustGraphError>)
        requires
            old(self).inv(),
        ensures
            final(self).inv(),
            final(self).roots() == old(self).roots(),
            S::infallible() ==> (out is Ok <==> revocation_signed(revocation@)),
            match out {
                Ok(()) => {
                    &&& revocation_signed(revocation@)
                    &&& final(self).relations() == updated(
                        old(self).relations(),
                        RelationView::Revocation(revocation@),
                    )
                },
                Err(TrustGraphError::RevokeCheckError(_)) => {
                    &&& !revocation_signed(revocation@)
                    &&& final(self).relations() == old(self).relations()
                },
                Err(TrustGraphError::InternalStorageError(_)) => {
                    &&& revocation_signed(revocation@)
                    &&& final(self).relations() == old(self).relations()
                },
                Err(_) => false,
            },
    {
        match Revocation::verify(&revocation) {
            Ok(()) => {},
            Err(e) => {
                return Err(TrustGraphError::RevokeCheckError(e));
            },
        }
        match self.storage.revoke(revocation) {
            Ok(()) => Ok(()),
            Err(e) => Err(storage_failure(e)),
        }
    }

    /// Every stored revocation of `issued_for`.
    pub fn get_revocations(&self, issued_for: &PublicKey) -> (out: Result<
        Vec<Revocation>,
        TrustGraphError,
    >)
        requires
            self.inv(),
        ensures
            S::infallible() ==> out is Ok,
            match out {
                Ok(revocations) => lists_revocations(self.relations(), issued_for@, revocations@),
                Err(e) => e is InternalStorageError,
            },
    {
        match self.storage.get_revocations(&PK::from(issued_for.clone())) {
            Ok(revocations) => Ok(revocations),
            Err(e) => Err(storage_failure(e)),
        }
    }

    /// The certificates of `issued_for` at `cur_time` that hold a trust issued for
    /// `issuer`, in the order in which `get_all_certs` gives them.
    pub fn get_all_certs_from(&mut self, issued_for: &PublicKey, issuer: &PublicKey, cur_time: u64) -> (out:
        Result<Vec<Certificate>, TrustGraphError>)
        requires
            old(self).inv(),
        ensures
            final(self).inv(),
            final(self).roots() == old(self).roots(),
            S::infallible() ==> out is Ok,
            match out {
                Ok(certs) => {
                    &&& final(self).relations() == without_expired(old(self).relations(), cur_time)
                    &&& certs_found_from(
                        final(self).relations(),
                        final(self).roots().dom(),
                        issued_for@,
                        issuer@,
                        cert_views(certs@),
                    )
                },
                Err(e) => {
                    &&& e is InternalStorageError
                    &&& (final(self).relations() == old(self).relations() || final(self).relations()
                        == without_expired(old(self).relations(), cur_time))
                },
            },
    {
        let all = match self.get_all_certs(issued_for, cur_time) {
            Ok(certs) => certs,
            Err(e) => {
                return Err(e);
            },
        };
        let ghost every = cert_views(all@);
        let ghost rels = self.relations();
        let ghost roots = self.roots().dom();
        let mut certs: Vec<Certificate> = Vec::new();
        let ghost mut src: Seq<int> = Seq::empty();
        let mut n: usize = 0;
        while n < all.len()
            invariant
                n <= all@.len(),
                every == cert_views(all@),
                src.len() == certs@.len(),
                forall|m: int|
                    0 <= m < src.len() ==> {
                        &&& 0 <= #[trigger] src[m] < n
                        &&& certs@[m]@ == every[src[m]]
                        &&& passes(every[src[m]], issuer@)
                    },
                forall|m: int, k: int| 0 <= m < k < src.len() ==> #[trigger] src[m] < #[trigger] src[k],
                forall|k: int| 0 <= k < n && passes(#[trigger] every[k], issuer@) ==> src.contains(k),
            decreases all@.len() - n,
        {
            let cert = &all[n];
            assert(cert@ == every[n as int]);
            let mut through = false;
            let mut t: usize = 0;
            while t < cert.chain.len()
                invariant
                    t <= cert.chain@.len(),
                    through <==> exists|i: int|
                        0 <= i < t && (#[trigger] cert@[i]).issued_for == issuer@,
                decreases cert.chain@.len() - t,
            {
                assert(cert@[t as int] == cert.chain@[t as int]@);
                if cert.chain[t].issued_for == *issuer {
                    through = true;
                }
                t += 1;
            }
            if through {
                certs.push(cert.clone());
                proof {
                    let before = src;
                    src = src.push(n as int);
                    assert forall|k: int|
                        0 <= k < n + 1 && passes(#[trigger] every[k], issuer@) implies src.contains(
                        k,
                    ) by {
                        if k < n {
                            assert(before.contains(k));
                            let m = choose|m: int| 0 <= m < before.len() && before[m] == k;
                            assert(src[m] == k);
                        } else {
                            assert(src[before.len() as int] == k);
                        }
                    }
                }
            }
            n += 1;
        }
        proof {
            let found = cert_views(certs@);
            assert forall|i: int| 0 <= i < found.len() implies is_certificate(
                rels,
                roots,
                issued_for@,
                #[trigger] found[i],
            ) && passes(found[i], issuer@) by {
                assert(found[i] == every[src[i]]);
            }
            assert forall|chain: Seq<TrustView>|
                is_certificate(rels, roots, issued_for@, chain) && passes(
                    chain,
                    issuer@,
                ) implies found.contains(chain) by {
                assert(every.contains(chain));
                let k = choose|k: int| 0 <= k < every.len() && every[k] == chain;
                assert(src.contains(k));
                let m = choose|m: int| 0 <= m < src.len() && src[m] == k;
                assert(found[m] == chain);
            }
            assert forall|i: int, j: int| 0 <= i < j < found.len() implies #[trigger] found[i]
                != #[trigger] found[j] by {
                assert(src[i] < src[j]);
                assert(found[i] == every[src[i]] && found[j] == every[src[j]]);
            }
            assert forall|i: int, j: int| 0 <= i <= j < found.len() implies (#[trigger] found[i]).len()
                <= (#[trigger] found[j]).len() by {
                assert(found[i] == every[src[i]] && found[j] == every[src[j]]);
                if i < j {
                    assert(src[i] < src[j]);
                }
            }
        }
        Ok(certs)
    }

    /// The weight of `issued_for` at `cur_time` by its certificates that hold a trust
    /// issued for `issuer`; 0 where there is none.
    pub fn weight_from(&mut self, issued_for: &PublicKey, issuer: &PublicKey, cur_time: u64) -> (out:
        Result<u32, TrustGraphError>)
        requires
            old(self).inv(),
        ensures
            final(self).inv(),
            final(self).roots() == old(self).roots(),
            S::infallible() ==> out is Ok,
            match out {
                Ok(weight) => {
                    &&& final(self).relations() == without_expired(old(self).relations(), cur_time)
                    &&& is_weight_from(
                        final(self).relations(),
                        final(self).roots(),
                        issued_for@,
                        issuer@,
                        weight,
                    )
                },
                Err(e) => {
                    &&& e is InternalStorageError
                    &&& (final(self).relations() == old(self).relations() || final(self).relations()
                        == without_expired(old(self).relations(), cur_time))
                },
            },
    {
        let mut max_weight: u32 = 0;
        // get all possible certificates from the given public key to all roots in the
        // graph which contain `issuer`
        let certs = match self.get_all_certs_from(issued_for, issuer, cur_time) {
            Ok(certs) => certs,
            Err(e) => {
                return Err(e);
            },
        };
        let ghost rels = self.relations();
        let ghost roots = self.roots();
        let ghost views = cert_views(certs@);
        proof {
            assert forall|i: int| 0 <= i < certs@.len() implies !cert_unweighable(
                roots,
                #[trigger] cert_views(certs@)[i],
            ) by {
                let chain = cert_views(certs@)[i];
                assert(is_certificate(rels, roots.dom(), issued_for@, chain));
                let p = crate::model::path_of_cert(chain);
                assert(p.last().issued_by == chain[0].issued_for);
            }
        }
        match self.certificates_weight_factor(&certs) {
            Ok(Some(weight_factor)) => {
                max_weight = get_weight_from_factor(weight_factor);
                proof {
                    let i = choose|i: int|
                        0 <= i < views.len() && #[trigger] cert_factor(roots, views[i])
                            == weight_factor;
                    let best = views[i];
                    assert(is_certificate(rels, roots.dom(), issued_for@, best) && passes(
                        best,
                        issuer@,
                    ));
                    assert forall|other: Seq<TrustView>|
                        is_certificate(rels, roots.dom(), issued_for@, other) && passes(
                            other,
                            issuer@,
                        ) implies #[trigger] cert_factor(roots, other) >= cert_factor(
                        roots,
                        best,
                    ) by {
                        assert(views.contains(other));
                        let j = choose|j: int| 0 <= j < views.len() && views[j] == other;
                        assert(cert_factor(roots, views[j]) >= weight_factor);
                    }
                }
            },
            Ok(None) => {
                proof {
                    if exists|chain: Seq<TrustView>|
                        is_certificate(rels, roots.dom(), issued_for@, chain) && passes(
                            chain,
                            issuer@,
                        ) {
                        let chain = choose|chain: Seq<TrustView>|
                            is_certificate(rels, roots.dom(), issued_for@, chain) && passes(
                                chain,
                                issuer@,
                            );
                        assert(views.contains(chain));
                    }
                }
            },
            Err(e) => {
                return Err(e);
            },
        }
        Ok(max_weight)
    }
}

} // verus!
