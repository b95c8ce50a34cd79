//! The persistence that a trust graph works on.

use crate::model::{
    has_auth,
    has_revocation,
    relations_wf,
    updated,
    without_expired,
    Relations,
    Roots,
};
use crate::public_key_hashable::PublicKeyHashable as PK;
use crate::revoke::Revocation;
use crate::trust_relation::{Auth, TrustRelation};
use vstd::prelude::*;

verus! {

/// The failure of a storage. All that the graph asks of it is its message.
///
/// An implementation says what the message is by `text`. As it stands here it names
/// some text of which nothing is known.
pub trait StorageError {
    /// The text of the failure's message.
    open spec fn text(&self) -> Seq<char> {
        arbitrary()
    }

    /// The message of the failure.
    fn message(&self) -> (out: String)
        ensures
            out@ == self.text(),
    ;
}

/// Whether `auths` lists the stored authorizations issued for `subject`: each of them
/// once and nothing else.
pub open spec fn lists_authorizations(rels: Relations, subject: Seq<u8>, auths: Seq<Auth>) -> bool {
    &&& forall|i: int|
        0 <= i < auths.len() ==> has_auth(rels, (#[trigger] auths[i])@) && auths[i]@.trust.issued_for
            == subject
    &&& forall|issuer: Seq<u8>|
        rels.dom().contains((subject, issuer)) && rels[(subject, issuer)] is Auth ==> exists|i: int|
            0 <= i < auths.len() && (#[trigger] auths[i])@.issued_by == issuer
    &&& forall|i: int, j: int|
        0 <= i < j < auths.len() ==> (#[trigger] auths[i])@.issued_by != (#[trigger] auths[j])@.issued_by
}

/// Whether `revocations` lists the stored revocations of `subject`, and nothing else.
pub open spec fn lists_revocations(rels: Relations, subject: Seq<u8>, revocations: Seq<Revocation>) -> bool {
    &&& forall|i: int|
        0 <= i < revocations.len() ==> has_revocation(rels, (#[trigger] revocations[i])@)
            && revocations[i]@.pk == subject
    &&& forall|issuer: Seq<u8>|
        rels.dom().contains((subject, issuer)) && rels[(subject, issuer)] is Revocation
            ==> exists|i: int|
            0 <= i < revocations.len() && (#[trigger] revocations[i])@.revoked_by == issuer
}

/// Whether `keys` lists the registered roots, and nothing else.
pub open spec fn lists_roots(roots: Roots, keys: Seq<PK>) -> bool {
    &&& forall|i: int| 0 <= i < keys.len() ==> roots.dom().contains((#[trigger] keys[i])@)
    &&& forall|pk: Seq<u8>|
        roots.dom().contains(pk) ==> exists|i: int| 0 <= i < keys.len() && (#[trigger] keys[i])@ == pk
}

/// The contract between the trust graph and what stores its relations and roots.
///
/// A storage holds at most one relation for each pair of subject and issuer, and a
/// weight factor for each registered root. Every operation may fail with the storage's
/// own error; a failed operation changes nothing. A storage that declares itself
/// infallible never fails.
///
/// An implementation says what it holds by `relations` and `roots`. As they stand here
/// they name some relations and roots of which nothing is known, so that no operation
/// can be proved against them.
pub trait Storage {
    type Error: StorageError;

    /// The stored relations.
    open spec fn relations(&self) -> Relations {
        arbitrary()
    }

    /// The registered roots.
    open spec fn roots(&self) -> Roots {
        arbitrary()
    }

    /// What holds of the storage between operations. It is required and kept by every
    /// operation.
    open spec fn inv(&self) -> bool {
        relations_wf(self.relations())
    }

    /// Whether operations of this kind of storage always succeed.
    open spec fn infallible() -> bool {
        false
    }

    /// The relation stored for this subject and issuer, if there is one.
    fn get_relation(&self, issued_for: &PK, issued_by: &PK) -> (out: Result<
        Option<TrustRelation>,
        Self::Error,
    >)
        requires
            self.inv(),
        ensures
            Self::infallible() ==> out is Ok,
            out matches Ok(found) ==> match found {
                Some(rel) => self.relations().dom().contains((issued_for@, issued_by@))
                    && self.relations()[(issued_for@, issued_by@)] == rel@,
                None => !self.relations().dom().contains((issued_for@, issued_by@)),
            },
    ;

    /// Every stored authorization issued for `issued_for`.
    fn get_authorizations(&self, issued_for: &PK) -> (out: Result<Vec<Auth>, Self::Error>)
        requires
            self.inv(),
        ensures
            Self::infallible() ==> out is Ok,
            out matches Ok(auths) ==> lists_authorizations(self.relations(), issued_for@, auths@),
            out is Ok ==> relations_wf(self.relations()),
    ;

    /// Every stored revocation of `issued_for`.
    fn get_revocations(&self, issued_for: &PK) -> (out: Result<Vec<Revocation>, Self::Error>)
        requires
            self.inv(),
        ensures
            Self::infallible() ==> out is Ok,
            out matches Ok(revocations) ==> lists_revocations(
                self.relations(),
                issued_for@,
                revocations@,
            ),
    ;

    /// Writes the relation under its subject and issuer, whatever was there.
    fn insert(&mut self, node: TrustRelation) -> (out: Result<(), Self::Error>)
        requires
            old(self).inv(),
        ensures
            final(self).inv(),
            Self::infallible() ==> out is Ok,
            final(self).roots() == old(self).roots(),
            out is Ok ==> final(self).relations() == old(self).relations().insert(
                node@.key(),
                node@,
            ),
            out is Err ==> final(self).relations() == old(self).relations(),
    ;

    /// The weight factor of a root, if the key is registered as one.
    fn get_root_weight_factor(&self, pk: &PK) -> (out: Result<Option<u32>, Self::Error>)
        requires
            self.inv(),
        ensures
            Self::infallible() ==> out is Ok,
            out matches Ok(found) ==> match found {
                Some(factor) => self.roots().dom().contains(pk@) && self.roots()[pk@] == factor,
                None => !self.roots().dom().contains(pk@),
            },
    ;

    /// Registers a root with its weight factor, or changes the factor of one.
    fn set_root_weight_factor(&mut self, pk: PK, weight_factor: u32) -> (out: Result<
        (),
        Self::Error,
    >)
        requires
            old(self).inv(),
        ensures
            final(self).inv(),
            Self::infallible() ==> out is Ok,
            final(self).relations() == old(self).relations(),
            out is Ok ==> final(self).roots() == old(self).roots().insert(pk@, weight_factor),
            out is Err ==> final(self).roots() == old(self).roots(),
    ;

    /// The keys of the registered roots.
    fn root_keys(&self) -> (out: Result<Vec<PK>, Self::Error>)
        requires
            self.inv(),
        ensures
            Self::infallible() ==> out is Ok,
            out matches Ok(keys) ==> lists_roots(self.roots(), keys@),
    ;

    /// Offers a revocation: it is stored if it is strictly newer than what is stored for
    /// its subject and issuer.
    fn revoke(&mut self, revocation: Revocation) -> (out: Result<(), Self::Error>)
        requires
            old(self).inv(),
        ensures
            final(self).inv(),
            Self::infallible() ==> out is Ok,
            final(self).roots() == old(self).roots(),
            out is Ok ==> final(self).relations() == updated(
                old(self).relations(),
                crate::trust_relation::RelationView::Revocation(revocation@),
            ),
            out is Err ==> final(self).relations() == old(self).relations(),
    ;

    /// Offers an authorization: it is stored if it is strictly newer than what is stored
    /// for its subject and issuer.
    fn update_auth(&mut self, auth: Auth, cur_time: u64) -> (out: Result<(), Self::Error>)
        requires
            old(self).inv(),
        ensures
            final(self).inv(),
            Self::infallible() ==> out is Ok,
            final(self).roots() == old(self).roots(),
            out is Ok ==> final(self).relations() == updated(
                old(self).relations(),
                crate::trust_relation::RelationView::Auth(auth@),
            ),
            out is Err ==> final(self).relations() == old(self).relations(),
    ;

    /// Deletes every authorization whose expiry is not after `current_time`.
    /// Revocations are not removed.
    fn remove_expired(&mut self, current_time: u64) -> (out: Result<(), Self::Error>)
        requires
            old(self).inv(),
        ensures
            final(self).inv(),
            Self::infallible() ==> out is Ok,
            final(self).roots() == old(self).roots(),
            out is Ok ==> final(self).relations() == without_expired(
                old(self).relations(),
                current_time,
            ),
            out is Err ==> final(self).relations() == old(self).relations(),
    ;
}

} // verus!
