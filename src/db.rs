use vstd::prelude::*;

use crate::replication::{initial_info, opt_text, with_replica, ReplicationInfo, ReplicationInfoV};

verus! {

/// A stored value with its optional absolute expiry, in milliseconds since the
/// Unix epoch.
pub struct Entry {
    pub value: Vec<u8>,
    pub expiry: Option<u128>,
}

/// The value of an [`Entry`]: the bytes and the expiry.
pub type EntryV = (Seq<u8>, Option<u128>);

impl View for Entry {
    type V = EntryV;

    open spec fn view(&self) -> EntryV {
        (self.value@, self.expiry)
    }
}

struct Slot {
    key: String,
    entry: Entry,
}

/// The keyspace and the replication state of this server.
pub struct RedisState {
    db: Vec<Slot>,
    contents: Ghost<Map<Seq<char>, EntryV>>,
    replication_info: ReplicationInfo,
}

impl RedisState {
    /// The keyspace: each key with its entry.
    pub closed spec fn store(&self) -> Map<Seq<char>, EntryV> {
        self.contents@
    }

    /// The replication state.
    pub closed spec fn info(&self) -> ReplicationInfoV {
        self.replication_info@
    }

    /// Keys are unique in the backing vector, which holds exactly the keyspace.
    pub closed spec fn wf(&self) -> bool {
        &&& forall|i: int, j: int|
            0 <= i < j < self.db@.len() ==> #[trigger] self.db@[i].key@ != #[trigger] self.db@[j].key@
        &&& forall|i: int|
            0 <= i < self.db@.len() ==> self.contents@.contains_key(#[trigger] self.db@[i].key@)
                && self.contents@[self.db@[i].key@] == self.db@[i].entry@
        &&& forall|k: Seq<char>|
            #[trigger] self.contents@.contains_key(k) ==> exists|i: int|
                0 <= i < self.db@.len() && #[trigger] self.db@[i].key@ == k
    }

    /// An empty keyspace with the replication state of `ReplicationInfo::new`.
    pub fn new(replicaof: Option<String>, listening_port: String) -> (r: RedisState)
        ensures
            r.wf(),
            r.store() == Map::<Seq<char>, EntryV>::empty(),
            r.info() == initial_info(opt_text(replicaof), listening_port@),
    {
        RedisState {
            db: Vec::new(),
            contents: Ghost(Map::empty()),
            replication_info: ReplicationInfo::new(replicaof, listening_port),
        }
    }

    fn find(&self, key: &String) -> (r: Option<usize>)
        requires
            self.wf(),
        ensures
            r matches Some(i) ==> i < self.db@.len() && self.db@[i as int].key@ == key@,
            r is None ==> !self.store().contains_key(key@),
    {
        let mut i: usize = 0;
        while i < self.db.len()
            invariant
                self.wf(),
                i <= self.db@.len(),
                forall|j: int| 0 <= j < i ==> self.db@[j].key@ != key@,
            decreases self.db.len() - i,
        {
            if self.db[i].key == *key {
                return Some(i);
            }
            i = i + 1;
        }
        None
    }

    /// Stores `value` under `key`, replacing any earlier entry.
    pub fn insert(&mut self, key: String, value: Vec<u8>, expiry: Option<u128>)
        requires
            old(self).wf(),
        ensures
            final(self).wf(),
            final(self).store() == old(self).store().insert(key@, (value@, expiry)),
            final(self).info() == old(self).info(),
    {
        let ghost k = key@;
        let ghost ev = (value@, expiry);
        let entry = Entry { value, expiry };
        let found = self.find(&key);
        let ghost at: int = match found {
            Some(i) => i as int,
            None => old(self).db@.len() as int,
        };
        match found {
            Some(i) => {
                self.db[i] = Slot { key, entry };
            },
            None => {
                self.db.push(Slot { key, entry });
            },
        }
        self.contents = Ghost(self.contents@.insert(k, ev));
        assert forall|q: Seq<char>| #[trigger] self.contents@.contains_key(q) implies exists|i: int|
            0 <= i < self.db@.len() && #[trigger] self.db@[i].key@ == q by {
            if q != k {
                let i = choose|i: int| 0 <= i < old(self).db@.len() && #[trigger] old(self).db@[i].key@ == q;
                assert(self.db@[i].key@ == q);
            } else {
                assert(self.db@[at].key@ == k);
            }
        }
    }

    /// The entry under `key`, live or not.
    pub fn get(&self, key: &String) -> (r: Option<&Entry>)
        requires
            self.wf(),
        ensures
            r matches Some(e) ==> self.store().contains_key(key@) && self.store()[key@] == e@,
            r is None ==> !self.store().contains_key(key@),
    {
        match self.find(key) {
            Some(i) => Some(&self.db[i].entry),
            None => None,
        }
    }

    /// Deletes the entry under `key`, if any.
    pub fn remove(&mut self, key: &String)
        requires
            old(self).wf(),
        ensures
            final(self).wf(),
            final(self).store() == old(self).store().remove(key@),
            final(self).info() == old(self).info(),
    {
        let found = self.find(key);
        match found {
            Some(i) => {
                self.db.remove(i);
            },
            None => {},
        }
        self.contents = Ghost(self.contents@.remove(key@));
        assert forall|q: Seq<char>| #[trigger] self.contents@.contains_key(q) implies exists|i: int|
            0 <= i < self.db@.len() && #[trigger] self.db@[i].key@ == q by {
            let i = choose|i: int| 0 <= i < old(self).db@.len() && #[trigger] old(self).db@[i].key@ == q;
            if let Some(r) = found {
                if i < r {
                    assert(self.db@[i].key@ == q);
                } else {
                    assert(self.db@[i - 1].key@ == q);
                }
            } else {
                assert(self.db@[i].key@ == q);
            }
        }
    }

    /// A copy of the replication state.
    pub fn get_replication_info(&self) -> (r: ReplicationInfo)
        ensures
            r@ == self.info(),
    {
        self.replication_info.copy()
    }

    /// Records a replica; only a primary has replicas.
    pub fn add_replica(&mut self, addr: String)
        requires
            old(self).wf(),
            old(self).info().role == "master"@,
        ensures
            final(self).wf(),
            final(self).store() == old(self).store(),
            final(self).info() == with_replica(old(self).info(), addr@),
    {
        self.replication_info.add_replica(addr);
    }

    /// The addresses of the replicas, in the order they were recorded.
    pub fn get_replicas(&self) -> (r: Vec<String>)
        ensures
            crate::replication::texts(r@) == self.info().replicas,
    {
        self.replication_info.get_replicas()
    }
}

} // verus!
