//! A storage that keeps its relations and roots in memory.

use crate::keypair::public_key::PublicKey;
use crate::model::{
    expired_at,
    has_auth,
    has_revocation,
    lemma_without_expired,
    relations_wf,
    updated,
    without_expired,
    Relations,
    Roots,
};
use crate::public_key_hashable::PublicKeyHashable as PK;
use crate::revoke::Revocation;
use crate::trust_graph_storage::{
    Storage,
    StorageError,
};
use crate::trust_relation::{Auth, RelationView, TrustRelation};
use vstd::prelude::*;

verus! {

/// The failure of the storage in memory. It never occurs.
#[derive(Debug)]
pub struct InMemoryStorageError;

impl StorageError for InMemoryStorageError {
    fn message(&self) -> (out: String) {
        String::new()
    }

    /// The failure has no message: its text is empty.
    open spec fn text(&self) -> Seq<char> {
        Seq::empty()
    }
}

/// A root with its weight factor.
pub struct RootEntry {
    pub key: PK,
    pub weight_factor: u32,
}

/// A storage in memory: a list of relations with at most one for each pair of subject
/// and issuer, and a list of roots with at most one entry for each key.
pub struct InMemoryStorage {
    relations: Vec<TrustRelation>,
    roots: Vec<RootEntry>,
    relations_map: Ghost<Relations>,
    roots_map: Ghost<Roots>,
}

/// Whether a list of relations holds what a map of relations says: every relation of
/// the list is in the map under its subject and issuer, the map holds nothing else,
/// and no two relations of the list have the same subject and issuer.
pub open spec fn relations_match(list: Seq<TrustRelation>, map: Relations) -> bool {
    &&& relations_wf(map)
    &&& forall|i: int|
        0 <= i < list.len() ==> {
            &&& map.dom().contains((#[trigger] list[i])@.key())
            &&& map[list[i]@.key()] == list[i]@
        }
    &&& forall|k: (Seq<u8>, Seq<u8>)|
        #![trigger map.dom().contains(k)]
        map.dom().contains(k) ==> exists|i: int| 0 <= i < list.len() && (#[trigger] list[i])@.key() == k
    &&& forall|i: int, j: int|
        0 <= i < j < list.len() ==> (#[trigger] list[i])@.key() != (#[trigger] list[j])@.key()
}

/// Whether a list of roots holds what a map of roots says.
pub open spec fn roots_match(list: Seq<RootEntry>, map: Roots) -> bool {
    &&& forall|i: int|
        0 <= i < list.len() ==> {
            &&& map.dom().contains((#[trigger] list[i]).key@)
            &&& map[list[i].key@] == list[i].weight_factor
        }
    &&& forall|k: Seq<u8>|
        #![trigger map.dom().contains(k)]
        map.dom().contains(k) ==> exists|i: int| 0 <= i < list.len() && (#[trigger] list[i]).key@ == k
    &&& forall|i: int, j: int|
        0 <= i < j < list.len() ==> (#[trigger] list[i]).key@ != (#[trigger] list[j]).key@
}

/// Writing a relation over the one with the same subject and issuer keeps list and map
/// in step.
proof fn lemma_relation_replaced(list: Seq<TrustRelation>, map: Relations, i: int, node: TrustRelation)
    requires
        relations_match(list, map),
        0 <= i < list.len(),
        list[i]@.key() == node@.key(),
    ensures
        relations_match(list.update(i, node), map.insert(node@.key(), node@)),
{
    let list2 = list.update(i, node);
    let map2 = map.insert(node@.key(), node@);
    assert forall|m: int| 0 <= m < list2.len() implies {
        &&& map2.dom().contains((#[trigger] list2[m])@.key())
        &&& map2[list2[m]@.key()] == list2[m]@
    } by {
        if m != i {
            assert(list2[m] == list[m]);
            if m < i {
                assert(list[m]@.key() != list[i]@.key());
            } else {
                assert(list[i]@.key() != list[m]@.key());
            }
        }
    }
    assert forall|k: (Seq<u8>, Seq<u8>)|
        #![trigger map2.dom().contains(k)]
        map2.dom().contains(k) implies exists|m: int|
        0 <= m < list2.len() && (#[trigger] list2[m])@.key() == k by {
        if k == node@.key() {
            assert(list2[i]@.key() == k);
        } else {
            assert(map.dom().contains(k));
            let m = choose|m: int| 0 <= m < list.len() && (#[trigger] list[m])@.key() == k;
            assert(list2[m] == list[m]);
        }
    }
    assert forall|m: int, n: int| 0 <= m < n < list2.len() implies (#[trigger] list2[m])@.key() != (
    #[trigger] list2[n])@.key() by {
        assert(list[m]@.key() != list[n]@.key());
    }
}

/// Adding a relation whose subject and issuer have none keeps list and map in step.
proof fn lemma_relation_added(list: Seq<TrustRelation>, map: Relations, node: TrustRelation)
    requires
        relations_match(list, map),
        !map.dom().contains(node@.key()),
    ensures
        relations_match(list.push(node), map.insert(node@.key(), node@)),
{
    let list2 = list.push(node);
    let map2 = map.insert(node@.key(), node@);
    assert forall|m: int| 0 <= m < list2.len() implies {
        &&& map2.dom().contains((#[trigger] list2[m])@.key())
        &&& map2[list2[m]@.key()] == list2[m]@
    } by {
        if m < list.len() {
            assert(list2[m] == list[m]);
        }
    }
    assert forall|k: (Seq<u8>, Seq<u8>)|
        #![trigger map2.dom().contains(k)]
        map2.dom().contains(k) implies exists|m: int|
        0 <= m < list2.len() && (#[trigger] list2[m])@.key() == k by {
        if k == node@.key() {
            assert(list2[list.len() as int]@.key() == k);
        } else {
            assert(map.dom().contains(k));
            let m = choose|m: int| 0 <= m < list.len() && (#[trigger] list[m])@.key() == k;
            assert(list2[m] == list[m]);
        }
    }
    assert forall|m: int, n: int| 0 <= m < n < list2.len() implies (#[trigger] list2[m])@.key() != (
    #[trigger] list2[n])@.key() by {
        assert(list2[m] == list[m]);
        if n < list.len() {
            assert(list2[n] == list[n]);
        }
    }
}

/// Keeping the relations that have not expired keeps list and map in step.
proof fn lemma_relations_kept(
    list: Seq<TrustRelation>,
    map: Relations,
    kept: Seq<TrustRelation>,
    src: Seq<int>,
    now: u64,
)
    requires
        relations_match(list, map),
        src.len() == kept.len(),
        forall|m: int|
            0 <= m < src.len() ==> {
                &&& 0 <= #[trigger] src[m] < list.len()
                &&& list[src[m]]@ == kept[m]@
                &&& !expired_at(map, now, kept[m]@.key())
            },
        forall|m: int, n: int| 0 <= m < n < src.len() ==> #[trigger] src[m] < #[trigger] src[n],
        forall|k: int|
            0 <= k < list.len() && !expired_at(map, now, (#[trigger] list[k])@.key()) ==> src.contains(
                k,
            ),
    ensures
        relations_match(kept, without_expired(map, now)),
{
    lemma_without_expired(map, now);
    let map2 = without_expired(map, now);
    assert forall|m: int| 0 <= m < kept.len() implies {
        &&& map2.dom().contains((#[trigger] kept[m])@.key())
        &&& map2[kept[m]@.key()] == kept[m]@
    } by {
        assert(map.dom().contains(list[src[m]]@.key()));
    }
    assert forall|k: (Seq<u8>, Seq<u8>)|
        #![trigger map2.dom().contains(k)]
        map2.dom().contains(k) implies exists|m: int|
        0 <= m < kept.len() && (#[trigger] kept[m])@.key() == k by {
        assert(map.dom().contains(k));
        let j = choose|j: int| 0 <= j < list.len() && (#[trigger] list[j])@.key() == k;
        assert(src.contains(j));
        let m = choose|m: int| 0 <= m < src.len() && src[m] == j;
        assert(kept[m]@.key() == k);
    }
    assert forall|m: int, n: int| 0 <= m < n < kept.len() implies (#[trigger] kept[m])@.key() != (
    #[trigger] kept[n])@.key() by {
        assert(src[m] < src[n]);
        assert(list[src[m]]@.key() != list[src[n]]@.key());
    }
}

/// Writing a root over the entry with the same key keeps list and map in step.
proof fn lemma_root_replaced(list: Seq<RootEntry>, map: Roots, i: int, entry: RootEntry)
    requires
        roots_match(list, map),
        0 <= i < list.len(),
        list[i].key@ == entry.key@,
    ensures
        roots_match(list.update(i, entry), map.insert(entry.key@, entry.weight_factor)),
{
    let list2 = list.update(i, entry);
    let map2 = map.insert(entry.key@, entry.weight_factor);
    assert forall|m: int| 0 <= m < list2.len() implies {
        &&& map2.dom().contains((#[trigger] list2[m]).key@)
        &&& map2[list2[m].key@] == list2[m].weight_factor
    } by {
        if m != i {
            assert(list2[m] == list[m]);
            if m < i {
                assert(list[m].key@ != list[i].key@);
            } else {
                assert(list[i].key@ != list[m].key@);
            }
        }
    }
    assert forall|k: Seq<u8>|
        #![trigger map2.dom().contains(k)]
        map2.dom().contains(k) implies exists|m: int|
        0 <= m < list2.len() && (#[trigger] list2[m]).key@ == k by {
        if k == entry.key@ {
            assert(list2[i].key@ == k);
        } else {
            assert(map.dom().contains(k));
            let m = choose|m: int| 0 <= m < list.len() && (#[trigger] list[m]).key@ == k;
            assert(list2[m] == list[m]);
        }
    }
    assert forall|m: int, n: int| 0 <= m < n < list2.len() implies (#[trigger] list2[m]).key@ != (
    #[trigger] list2[n]).key@ by {
        assert(list[m].key@ != list[n].key@);
    }
}

/// Adding a root whose key has no entry keeps list and map in step.
proof fn lemma_root_added(list: Seq<RootEntry>, map: Roots, entry: RootEntry)
    requires
        roots_match(list, map),
        !map.dom().contains(entry.key@),
    ensures
        roots_match(list.push(entry), map.insert(entry.key@, entry.weight_factor)),
{
    let list2 = list.push(entry);
    let map2 = map.insert(entry.key@, entry.weight_factor);
    assert forall|m: int| 0 <= m < list2.len() implies {
        &&& map2.dom().contains((#[trigger] list2[m]).key@)
        &&& map2[list2[m].key@] == list2[m].weight_factor
    } by {
        if m < list.len() {
            assert(list2[m] == list[m]);
        }
    }
    assert forall|k: Seq<u8>|
        #![trigger map2.dom().contains(k)]
        map2.dom().contains(k) implies exists|m: int|
        0 <= m < list2.len() && (#[trigger] list2[m]).key@ == k by {
        if k == entry.key@ {
            assert(list2[list.len() as int].key@ == k);
        } else {
            assert(map.dom().contains(k));
            let m = choose|m: int| 0 <= m < list.len() && (#[trigger] list[m]).key@ == k;
            assert(list2[m] == list[m]);
        }
    }
    assert forall|m: int, n: int| 0 <= m < n < list2.len() implies (#[trigger] list2[m]).key@ != (
    #[trigger] list2[n]).key@ by {
        assert(list2[m] == list[m]);
        if n < list.len() {
            assert(list2[n] == list[n]);
        }
    }
}

impl InMemoryStorage {
    /// Whether the list of relations holds what the map of relations says.
    pub closed spec fn relations_listed(&self) -> bool {
        relations_match(self.relations@, self.relations_map@)
    }

    /// Whether the list of roots holds what the map of roots says.
    pub closed spec fn roots_listed(&self) -> bool {
        roots_match(self.roots@, self.roots_map@)
    }

    /// An empty storage.
    pub fn new() -> (out: Self)
        ensures
            out.inv(),
            out.relations() == Map::<(Seq<u8>, Seq<u8>), RelationView>::empty(),
            out.roots() == Map::<Seq<u8>, u32>::empty(),
    {
        InMemoryStorage {
            relations: Vec::new(),
            roots: Vec::new(),
            relations_map: Ghost(Map::empty()),
            roots_map: Ghost(Map::empty()),
        }
    }

    /// The place of the relation of this subject and issuer in the list, if it is there.
    fn position(&self, issued_for: &PublicKey, issued_by: &PublicKey) -> (out: Option<usize>)
        requires
            self.inv(),
        ensures
            match out {
                Some(i) => {
                    &&& i < self.relations@.len()
                    &&& self.relations@[i as int]@.key() == (issued_for@, issued_by@)
                    &&& self.relations().dom().contains((issued_for@, issued_by@))
                    &&& self.relations()[(issued_for@, issued_by@)] == self.relations@[i as int]@
                },
                None => !self.relations().dom().contains((issued_for@, issued_by@)),
            },
    {
        let mut i: usize = 0;
        while i < self.relations.len()
            invariant
                self.inv(),
                i <= self.relations@.len(),
                forall|k: int|
                    0 <= k < i ==> (#[trigger] self.relations@[k])@.key() != (issued_for@, issued_by@),
            decreases self.relations@.len() - i,
        {
            let rel = &self.relations[i];
            if *rel.issued_for() == *issued_for && *rel.issued_by() == *issued_by {
                return Some(i);
            }
            i += 1;
        }
        None
    }

    /// The place of a root in the list, if it is there.
    fn root_position(&self, pk: &PK) -> (out: Option<usize>)
        requires
            self.inv(),
        ensures
            match out {
                Some(i) => {
                    &&& i < self.roots@.len()
                    &&& self.roots@[i as int].key@ == pk@
                    &&& self.roots().dom().contains(pk@)
                    &&& self.roots()[pk@] == self.roots@[i as int].weight_factor
                },
                None => !self.roots().dom().contains(pk@),
            },
    {
        let mut i: usize = 0;
        while i < self.roots.len()
            invariant
                self.inv(),
                i <= self.roots@.len(),
                forall|k: int| 0 <= k < i ==> (#[trigger] self.roots@[k]).key@ != pk@,
            decreases self.roots@.len() - i,
        {
            if self.roots[i].key == *pk {
                return Some(i);
            }
            i += 1;
        }
        None
    }

    /// Offers a relation: it takes the place under its subject and issuer if nothing is
    /// stored there or what is stored is strictly older.
    fn update_relation(&mut self, relation: TrustRelation) -> (out: Result<(), InMemoryStorageError>)
        requires
            old(self).inv(),
        ensures
            final(self).inv(),
            out is Ok,
            final(self).roots() == old(self).roots(),
            final(self).relations() == updated(old(self).relations(), relation@),
    {
        match self.position(relation.issued_for(), relation.issued_by()) {
            Some(i) => {
                if self.relations[i].issued_at() < relation.issued_at() {
                    self.insert(relation)
                } else {
                    Ok(())
                }
            },
            None => self.insert(relation),
        }
    }
}

impl Storage for InMemoryStorage {
    type Error = InMemoryStorageError;

    closed spec fn relations(&self) -> Relations {
        self.relations_map@
    }

    closed spec fn roots(&self) -> Roots {
        self.roots_map@
    }

    closed spec fn inv(&self) -> bool {
        self.relations_listed() && self.roots_listed()
    }

    open spec fn infallible() -> bool {
        true
    }

    fn get_relation(&self, issued_for: &PK, issued_by: &PK) -> (out: Result<
        Option<TrustRelation>,
        Self::Error,
    >) {
        match self.position(issued_for.as_ref(), issued_by.as_ref()) {
            Some(i) => Ok(Some(self.relations[i].clone())),
            None => Ok(None),
        }
    }

    fn get_authorizations(&self, issued_for: &PK) -> (out: Result<Vec<Auth>, Self::Error>) {
        let mut auths: Vec<Auth> = Vec::new();
        let ghost mut src: Seq<int> = Seq::empty();
        let mut i: usize = 0;
        while i < self.relations.len()
            invariant
                self.inv(),
                i <= self.relations@.len(),
                src.len() == auths@.len(),
                forall|m: int|
                    0 <= m < src.len() ==> {
                        &&& 0 <= #[trigger] src[m] < i
                        &&& self.relations@[src[m]]@ == RelationView::Auth(auths@[m]@)
                        &&& auths@[m]@.trust.issued_for == issued_for@
                    },
                forall|m: int, n: int| 0 <= m < n < src.len() ==> #[trigger] src[m] < #[trigger] src[n],
                forall|k: int|
                    0 <= k < i && (#[trigger] self.relations@[k])@ is Auth
                        && self.relations@[k]@.issued_for() == issued_for@ ==> src.contains(k),
            decreases self.relations@.len() - i,
        {
            match &self.relations[i] {
                TrustRelation::Auth(auth) => {
                    if auth.trust.issued_for == issued_for.0 {
                        auths.push(auth.clone());
                        proof {
                            let before = src;
                            src = src.push(i as int);
                            assert forall|k: int|
                                0 <= k < i + 1 && (#[trigger] self.relations@[k])@ is Auth
                                    && self.relations@[k]@.issued_for()
                                    == issued_for@ implies src.contains(k) by {
                                if k < i {
                                    assert(before.contains(k));
                                    let m = choose|m: int| 0 <= m < before.len() && before[m] == k;
                                    assert(src[m] == k);
                                } else {
                                    assert(src[before.len() as int] == k);
                                }
                            }
                        }
                    }
                },
                TrustRelation::Revocation(_) => {},
            }
            i += 1;
        }
        proof {
            let rels = self.relations();
            assert forall|m: int| 0 <= m < auths@.len() implies has_auth(rels, (#[trigger] auths@[m])@)
                && auths@[m]@.trust.issued_for == issued_for@ by {
                assert(self.relations@[src[m]]@.key() == crate::model::auth_key(auths@[m]@));
            }
            assert forall|issuer: Seq<u8>|
                rels.dom().contains((issued_for@, issuer)) && rels[(issued_for@, issuer)]
                    is Auth implies exists|m: int|
                0 <= m < auths@.len() && (#[trigger] auths@[m])@.issued_by == issuer by {
                let k = choose|k: int|
                    0 <= k < self.relations@.len() && (#[trigger] self.relations@[k])@.key() == (
                        issued_for@,
                        issuer,
                    );
                assert(src.contains(k));
                let m = choose|m: int| 0 <= m < src.len() && src[m] == k;
                assert(auths@[m]@.issued_by == issuer);
            }
            assert forall|m: int, n: int| 0 <= m < n < auths@.len() implies (#[trigger] auths@[m])@.issued_by
                != (#[trigger] auths@[n])@.issued_by by {
                assert(src[m] < src[n]);
                assert(self.relations@[src[m]]@.key() != self.relations@[src[n]]@.key());
            }
        }
        Ok(auths)
    }

    fn get_revocations(&self, issued_for: &PK) -> (out: Result<Vec<Revocation>, Self::Error>) {
        let mut revocations: Vec<Revocation> = Vec::new();
        let ghost mut src: Seq<int> = Seq::empty();
        let mut i: usize = 0;
        while i < self.relations.len()
            invariant
                self.inv(),
                i <= self.relations@.len(),
                src.len() == revocations@.len(),
                forall|m: int|
                    0 <= m < src.len() ==> {
                        &&& 0 <= #[trigger] src[m] < i
                        &&& self.relations@[src[m]]@ == RelationView::Revocation(revocations@[m]@)
                        &&& revocations@[m]@.pk == issued_for@
                    },
                forall|k: int|
                    0 <= k < i && (#[trigger] self.relations@[k])@ is Revocation
                        && self.relations@[k]@.issued_for() == issued_for@ ==> src.contains(k),
            decreases self.relations@.len() - i,
        {
            match &self.relations[i] {
                TrustRelation::Revocation(r) => {
                    if r.pk == issued_for.0 {
                        revocations.push(r.clone());
                        proof {
                            let before = src;
                            src = src.push(i as int);
                            assert forall|k: int|
                                0 <= k < i + 1 && (#[trigger] self.relations@[k])@ is Revocation
                                    && self.relations@[k]@.issued_for()
                                    == issued_for@ implies src.contains(k) by {
                                if k < i {
                                    assert(before.contains(k));
                                    let m = choose|m: int| 0 <= m < before.len() && before[m] == k;
                                    assert(src[m] == k);
                                } else {
                                    assert(src[before.len() as int] == k);
                                }
                            }
                        }
                    }
                },
                TrustRelation::Auth(_) => {},
            }
            i += 1;
        }
        proof {
            let rels = self.relations();
            assert forall|m: int| 0 <= m < revocations@.len() implies has_revocation(
                rels,
                (#[trigger] revocations@[m])@,
            ) && revocations@[m]@.pk == issued_for@ by {
                assert(self.relations@[src[m]]@.key() == (
                    revocations@[m]@.pk,
                    revocations@[m]@.revoked_by,
                ));
            }
            assert forall|issuer: Seq<u8>|
                rels.dom().contains((issued_for@, issuer)) && rels[(issued_for@, issuer)]
                    is Revocation implies exists|m: int|
                0 <= m < revocations@.len() && (#[trigger] revocations@[m])@.revoked_by == issuer by {
                let k = choose|k: int|
                    0 <= k < self.relations@.len() && (#[trigger] self.relations@[k])@.key() == (
                        issued_for@,
                        issuer,
                    );
                assert(src.contains(k));
                let m = choose|m: int| 0 <= m < src.len() && src[m] == k;
                assert(revocations@[m]@.revoked_by == issuer);
            }
        }
        Ok(revocations)
    }

    fn insert(&mut self, node: TrustRelation) -> (out: Result<(), Self::Error>) {
        let ghost before = self.relations@;
        let ghost old_map = self.relations_map@;
        match self.position(node.issued_for(), node.issued_by()) {
            Some(i) => {
                proof {
                    lemma_relation_replaced(before, old_map, i as int, node);
                    self.relations_map = Ghost(old_map.insert(node@.key(), node@));
                }
                self.relations[i] = node;
                assert(self.relations@ =~= before.update(i as int, node));
            },
            None => {
                proof {
                    lemma_relation_added(before, old_map, node);
                    self.relations_map = Ghost(old_map.insert(node@.key(), node@));
                }
                self.relations.push(node);
            },
        }
        Ok(())
    }

    fn get_root_weight_factor(&self, pk: &PK) -> (out: Result<Option<u32>, Self::Error>) {
        match self.root_position(pk) {
            Some(i) => Ok(Some(self.roots[i].weight_factor)),
            None => Ok(None),
        }
    }

    fn set_root_weight_factor(&mut self, pk: PK, weight_factor: u32) -> (out: Result<
        (),
        Self::Error,
    >) {
        let ghost before = self.roots@;
        let ghost old_map = self.roots_map@;
        let entry = RootEntry { key: pk, weight_factor };
        match self.root_position(&entry.key) {
            Some(i) => {
                proof {
                    lemma_root_replaced(before, old_map, i as int, entry);
                    self.roots_map = Ghost(old_map.insert(entry.key@, weight_factor));
                }
                self.roots[i] = entry;
                assert(self.roots@ =~= before.update(i as int, entry));
            },
            None => {
                proof {
                    lemma_root_added(before, old_map, entry);
                    self.roots_map = Ghost(old_map.insert(entry.key@, weight_factor));
                }
                self.roots.push(entry);
            },
        }
        Ok(())
    }

    fn root_keys(&self) -> (out: Result<Vec<PK>, Self::Error>) {
        let mut keys: Vec<PK> = Vec::new();
        let mut i: usize = 0;
        while i < self.roots.len()
            invariant
                self.inv(),
                i <= self.roots@.len(),
                keys@.len() == i,
                forall|m: int| 0 <= m < i ==> (#[trigger] keys@[m])@ == self.roots@[m].key@,
            decreases self.roots@.len() - i,
        {
            keys.push(self.roots[i].key.clone());
            i += 1;
        }
        proof {
            assert forall|m: int| 0 <= m < keys@.len() implies self.roots().dom().contains(
                (#[trigger] keys@[m])@,
            ) by {
                assert(self.roots_map@.dom().contains(self.roots@[m].key@));
            }
            assert forall|pk: Seq<u8>| self.roots().dom().contains(pk) implies exists|m: int|
                0 <= m < keys@.len() && (#[trigger] keys@[m])@ == pk by {
                let m = choose|m: int| 0 <= m < self.roots@.len() && (#[trigger] self.roots@[m]).key@ == pk;
                assert(keys@[m]@ == pk);
            }
        }
        Ok(keys)
    }

    fn revoke(&mut self, revocation: Revocation) -> (out: Result<(), Self::Error>) {
        self.update_relation(TrustRelation::Revocation(revocation))
    }

    fn update_auth(&mut self, auth: Auth, cur_time: u64) -> (out: Result<(), Self::Error>) {
        self.update_relation(TrustRelation::Auth(auth))
    }

    fn remove_expired(&mut self, current_time: u64) -> (out: Result<(), Self::Error>) {
        let ghost before = self.relations@;
        let ghost old_map = self.relations_map@;
        let mut kept: Vec<TrustRelation> = Vec::new();
        let ghost mut src: Seq<int> = Seq::empty();
        let mut i: usize = 0;
        while i < self.relations.len()
            invariant
                self.inv(),
                self.relations@ == before,
                self.relations_map@ == old_map,
                i <= before.len(),
                src.len() == kept@.len(),
                forall|m: int|
                    0 <= m < src.len() ==> {
                        &&& 0 <= #[trigger] src[m] < i
                        &&& before[src[m]]@ == kept@[m]@
                        &&& !expired_at(old_map, current_time, kept@[m]@.key())
                    },
                roots_match(self.roots@, self.roots_map@),
                forall|m: int, n: int| 0 <= m < n < src.len() ==> #[trigger] src[m] < #[trigger] src[n],
                forall|k: int|
                    0 <= k < i && !expired_at(old_map, current_time, (#[trigger] before[k])@.key())
                        ==> src.contains(k),
            decreases before.len() - i,
        {
            let rel = &self.relations[i];
            let expired = match rel {
                TrustRelation::Auth(auth) => auth.trust.expires_at <= current_time,
                TrustRelation::Revocation(_) => false,
            };
            assert(expired == expired_at(old_map, current_time, before[i as int]@.key()));
            if !expired {
                kept.push(rel.clone());
                proof {
                    let earlier = src;
                    src = src.push(i as int);
                    assert forall|k: int|
                        0 <= k < i + 1 && !expired_at(
                            old_map,
                            current_time,
                            (#[trigger] before[k])@.key(),
                        ) implies src.contains(k) by {
                        if k < i {
                            assert(earlier.contains(k));
                            let m = choose|m: int| 0 <= m < earlier.len() && earlier[m] == k;
                            assert(src[m] == k);
                        } else {
                            assert(src[earlier.len() as int] == k);
                        }
                    }
                }
            }
            i += 1;
        }
        proof {
            lemma_relations_kept(before, old_map, kept@, src, current_time);
            self.relations_map = Ghost(without_expired(old_map, current_time));
        }
        self.relations = kept;
        Ok(())
    }
}

} // verus!
