//! A path of authorizations under construction, with the revokers met along it.

use crate::keypair::public_key::PublicKey;
use crate::revoke::Revocation;
use crate::trust_relation::{Auth, AuthView};
use nonempty::NonEmpty;
use vstd::prelude::*;

verus! {

/// The list type of the `nonempty` crate: a list that holds at least one item.
#[verifier::external_type_specification]
#[verifier::external_body]
#[verifier::reject_recursive_types(T)]
pub struct ExNonEmpty<T>(NonEmpty<T>);

/// The authorizations that a non-empty list holds, first to last, as plain values.
pub uninterp spec fn auths_of(list: NonEmpty<Auth>) -> Seq<AuthView>;

/// Calls `NonEmpty::new`. Trusted: the list holds the one item.
#[verifier::external_body]
fn list_new(auth: Auth) -> (list: NonEmpty<Auth>)
    ensures
        auths_of(list) == seq![auth@],
{
    NonEmpty::new(auth)
}

/// Calls `NonEmpty::push`. Trusted: the item is added at the end.
#[verifier::external_body]
fn list_push(list: &mut NonEmpty<Auth>, auth: Auth)
    ensures
        auths_of(*final(list)) == auths_of(*old(list)).push(auth@),
{
    list.push(auth)
}

/// Calls `NonEmpty::len`. Trusted: the number of items, which is at least one.
#[verifier::external_body]
fn list_len(list: &NonEmpty<Auth>) -> (len: usize)
    ensures
        len == auths_of(*list).len(),
        len >= 1,
{
    list.len()
}

/// Calls `NonEmpty::last`. Trusted: the last item of the list.
#[verifier::external_body]
fn list_last(list: &NonEmpty<Auth>) -> (auth: &Auth)
    ensures
        auth@ == auths_of(*list).last(),
{
    list.last()
}

/// Calls `NonEmpty::get`. Trusted: the item at the index, or nothing past the end.
#[verifier::external_body]
fn list_get(list: &NonEmpty<Auth>, index: usize) -> (auth: Option<&Auth>)
    ensures
        match auth {
            Some(auth) => index < auths_of(*list).len() && auth@ == auths_of(*list)[index as int],
            None => index >= auths_of(*list).len(),
        },
{
    list.get(index)
}

/// Calls `Clone::clone` of `NonEmpty`, which clones item by item. Trusted: the copy
/// holds items with the same values in the same order.
#[verifier::external_body]
fn list_clone(list: &NonEmpty<Auth>) -> (copy: NonEmpty<Auth>)
    ensures
        auths_of(copy) == auths_of(*list),
{
    list.clone()
}

/// Calls `Vec::from` on a `NonEmpty`. Trusted: the vector holds the items in order.
#[verifier::external_body]
fn list_into_vec(list: NonEmpty<Auth>) -> (items: Vec<Auth>)
    ensures
        items@.len() == auths_of(list).len(),
        forall|i: int| 0 <= i < items@.len() ==> (#[trigger] items@[i])@ == auths_of(list)[i],
{
    Vec::from(list)
}

/// A path of authorizations from a subject towards its issuers, with everyone who
/// revoked the subject or an issuer on the way.
pub struct Chain {
    auths: NonEmpty<Auth>,
    revoked_by: Vec<PublicKey>,
}

impl Chain {
    /// The authorizations of the chain, from the subject on.
    pub closed spec fn path(&self) -> Seq<AuthView> {
        auths_of(self.auths)
    }

    /// Whether `pk` is one of the revokers collected in the chain.
    pub closed spec fn is_revoker(&self, pk: Seq<u8>) -> bool {
        exists|i: int| 0 <= i < self.revoked_by@.len() && (#[trigger] self.revoked_by@[i])@ == pk
    }

    /// A chain of the given authorizations whose revokers are the issuers of the given
    /// revocations.
    pub fn new(auths: NonEmpty<Auth>, revocations: Vec<Revocation>) -> (chain: Self)
        ensures
            chain.path() == auths_of(auths),
            forall|pk: Seq<u8>|
                chain.is_revoker(pk) <==> exists|i: int|
                    0 <= i < revocations@.len() && (#[trigger] revocations@[i])@.revoked_by == pk,
    {
        let mut chain = Self { auths, revoked_by: Vec::new() };
        chain.add_revocations(revocations);
        chain
    }

    /// A chain of one authorization.
    pub fn single(auth: Auth, revocations: Vec<Revocation>) -> (chain: Self)
        ensures
            chain.path() == seq![auth@],
            forall|pk: Seq<u8>|
                chain.is_revoker(pk) <==> exists|i: int|
                    0 <= i < revocations@.len() && (#[trigger] revocations@[i])@.revoked_by == pk,
    {
        Chain::new(list_new(auth), revocations)
    }

    /// Whether an authorization issued by `pk` may extend the chain: `pk` is none of the
    /// collected revokers, and no authorization of the chain is issued for `pk`.
    pub fn can_be_extended_by(&self, pk: &PublicKey) -> (out: bool)
        ensures
            out == (!self.is_revoker(pk@) && forall|j: int|
                0 <= j < self.path().len() ==> (#[trigger] self.path()[j]).trust.issued_for != pk@),
    {
        let mut i: usize = 0;
        while i < self.revoked_by.len()
            invariant
                i <= self.revoked_by@.len(),
                forall|k: int| 0 <= k < i ==> (#[trigger] self.revoked_by@[k])@ != pk@,
            decreases self.revoked_by@.len() - i,
        {
            if self.revoked_by[i] == *pk {
                return false;
            }
            i += 1;
        }
        let len = list_len(&self.auths);
        let mut j: usize = 0;
        while j < len
            invariant
                j <= len,
                len == self.path().len(),
                !self.is_revoker(pk@),
                forall|k: int| 0 <= k < j ==> (#[trigger] self.path()[k]).trust.issued_for != pk@,
            decreases len - j,
        {
            match list_get(&self.auths, j) {
                Some(auth) => {
                    if auth.trust.issued_for == *pk {
                        return false;
                    }
                },
                None => {},
            }
            j += 1;
        }
        true
    }

    /// Adds the issuers of the given revocations to the revokers of the chain.
    pub fn add_revocations(&mut self, revocations: Vec<Revocation>)
        ensures
            final(self).path() == old(self).path(),
            forall|pk: Seq<u8>|
                final(self).is_revoker(pk) <==> old(self).is_revoker(pk) || exists|i: int|
                    0 <= i < revocations@.len() && (#[trigger] revocations@[i])@.revoked_by == pk,
    {
        let mut rest = revocations;
        let ghost before = self.revoked_by@;
        loop
            invariant
                self.auths == old(self).auths,
                rest@.len() <= revocations@.len(),
                rest@ == revocations@.subrange(0, rest@.len() as int),
                self.revoked_by@.len() == before.len() + revocations@.len() - rest@.len(),
                forall|k: int| 0 <= k < before.len() ==> self.revoked_by@[k] == before[k],
                forall|k: int|
                    before.len() <= k < self.revoked_by@.len() ==> (#[trigger] self.revoked_by@[k])@
                        == revocations@[revocations@.len() - 1 - (k - before.len())]@.revoked_by,
            ensures
                self.auths == old(self).auths,
                self.revoked_by@.len() == before.len() + revocations@.len(),
                forall|k: int| 0 <= k < before.len() ==> self.revoked_by@[k] == before[k],
                forall|k: int|
                    before.len() <= k < self.revoked_by@.len() ==> (#[trigger] self.revoked_by@[k])@
                        == revocations@[revocations@.len() - 1 - (k - before.len())]@.revoked_by,
            decreases rest@.len(),
        {
            match rest.pop() {
                Some(r) => {
                    self.revoked_by.push(r.revoked_by);
                },
                None => {
                    break ;
                },
            }
        }
        proof {
            let after = self.revoked_by@;
            let n = revocations@.len() as int;
            let b = before.len() as int;
            assert forall|pk: Seq<u8>|
                self.is_revoker(pk) <==> old(self).is_revoker(pk) || exists|i: int|
                    0 <= i < revocations@.len() && (#[trigger] revocations@[i])@.revoked_by
                        == pk by {
                if self.is_revoker(pk) {
                    let k = choose|k: int| 0 <= k < after.len() && (#[trigger] after[k])@ == pk;
                    if k < b {
                        assert(before[k]@ == pk);
                    } else {
                        assert(revocations@[n - 1 - (k - b)]@.revoked_by == pk);
                    }
                }
                if old(self).is_revoker(pk) {
                    let k = choose|k: int| 0 <= k < before.len() && (#[trigger] before[k])@ == pk;
                    assert(after[k]@ == pk);
                }
                if exists|i: int|
                    0 <= i < revocations@.len() && (#[trigger] revocations@[i])@.revoked_by == pk {
                    let i = choose|i: int|
                        0 <= i < revocations@.len() && (#[trigger] revocations@[i])@.revoked_by == pk;
                    let k = b + (n - 1 - i);
                    assert(after[k]@ == revocations@[n - 1 - (k - b)]@.revoked_by);
                }
            }
        }
    }

    /// The last authorization of the chain.
    pub fn last(&self) -> (auth: &Auth)
        ensures
            self.path().len() >= 1,
            auth@ == self.path().last(),
    {
        let _ = list_len(&self.auths);
        list_last(&self.auths)
    }

    /// The number of authorizations of the chain.
    pub fn len(&self) -> (len: usize)
        ensures
            len == self.path().len(),
            len >= 1,
    {
        list_len(&self.auths)
    }

    /// Adds an authorization at the end of the chain.
    pub fn push(&mut self, auth: Auth)
        ensures
            final(self).path() == old(self).path().push(auth@),
            forall|pk: Seq<u8>| final(self).is_revoker(pk) <==> old(self).is_revoker(pk),
    {
        list_push(&mut self.auths, auth);
        assert(self.revoked_by == old(self).revoked_by);
        assert forall|pk: Seq<u8>| self.is_revoker(pk) <==> old(self).is_revoker(pk) by {
        }
    }

    /// The authorizations of the chain as a vector.
    pub fn into_auths(self) -> (items: Vec<Auth>)
        ensures
            items@.len() == self.path().len(),
            forall|i: int| 0 <= i < items@.len() ==> (#[trigger] items@[i])@ == self.path()[i],
    {
        list_into_vec(self.auths)
    }
}

impl Clone for Chain {
    fn clone(&self) -> (copy: Self)
        ensures
            copy.path() == self.path(),
            forall|pk: Seq<u8>| copy.is_revoker(pk) <==> self.is_revoker(pk),
    {
        let mut revoked_by: Vec<PublicKey> = Vec::new();
        let mut i: usize = 0;
        while i < self.revoked_by.len()
            invariant
                i <= self.revoked_by@.len(),
                revoked_by@.len() == i,
                forall|k: int| 0 <= k < i ==> (#[trigger] revoked_by@[k])@ == self.revoked_by@[k]@,
            decreases self.revoked_by@.len() - i,
        {
            revoked_by.push(self.revoked_by[i].clone());
            i += 1;
        }
        let copy = Chain { auths: list_clone(&self.auths), revoked_by };
        proof {
            assert forall|pk: Seq<u8>| copy.is_revoker(pk) <==> self.is_revoker(pk) by {
                if copy.is_revoker(pk) {
                    let k = choose|k: int|
                        0 <= k < copy.revoked_by@.len() && (#[trigger] copy.revoked_by@[k])@ == pk;
                    assert(self.revoked_by@[k]@ == pk);
                }
                if self.is_revoker(pk) {
                    let k = choose|k: int|
                        0 <= k < self.revoked_by@.len() && (#[trigger] self.revoked_by@[k])@ == pk;
                    assert(copy.revoked_by@[k]@ == pk);
                }
            }
        }
        copy
    }
}

} // verus!
