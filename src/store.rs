//! The identity store: records keyed by subject identifier.
use vstd::prelude::*;

verus! {

/// An identity record.
pub struct User {
    pub id: String,
    pub name: String,
}

/// Identity records, at most one per identifier.
pub struct IdentityStore {
    users: Vec<User>,
}

impl IdentityStore {
    /// Each identifier names at most one record.
    pub closed spec fn wf(&self) -> bool {
        forall|i: int, j: int|
            0 <= i < j < self.users@.len() ==> self.users@[i].id@ != self.users@[j].id@
    }

    /// Identifier to display name.
    pub closed spec fn view(&self) -> Map<Seq<char>, Seq<char>> {
        Map::new(
            |id: Seq<char>| exists|i: int| 0 <= i < self.users@.len() && self.users@[i].id@ == id,
            |id: Seq<char>|
                self.users@[choose|i: int| 0 <= i < self.users@.len() && self.users@[i].id@ == id].name@,
        )
    }

    /// An empty store.
    pub fn new() -> (r: IdentityStore)
        ensures
            r.wf(),
            r@ == Map::<Seq<char>, Seq<char>>::empty(),
    {
        let r = IdentityStore { users: Vec::new() };
        assert(r@ =~= Map::<Seq<char>, Seq<char>>::empty());
        r
    }

    fn position(&self, id: &String) -> (r: Option<usize>)
        requires
            self.wf(),
        ensures
            r is None <==> !self@.contains_key(id@),
            r is Some ==> r->0 < self.users@.len() && self.users@[r->0 as int].id@ == id@,
    {
        let mut i: usize = 0;
        while i < self.users.len()
            invariant
                0 <= i <= self.users@.len(),
                forall|j: int| 0 <= j < i ==> self.users@[j].id@ != id@,
            decreases self.users.len() - i,
        {
            if self.users[i].id.eq(id) {
                return Some(i);
            }
            i = i + 1;
        }
        None
    }

    /// The record for `id`, if there is one.
    pub fn lookup(&self, id: &String) -> (r: Option<&User>)
        requires
            self.wf(),
        ensures
            r is None <==> !self@.contains_key(id@),
            r is Some ==> r->0.id@ == id@ && r->0.name@ == self@[id@],
    {
        match self.position(id) {
            Some(i) => {
                proof {
                    let k = choose|k: int|
                        0 <= k < self.users@.len() && self.users@[k].id@ == id@;
                    assert(k == i);
                }
                Some(&self.users[i])
            },
            None => None,
        }
    }

    /// Adds `user`, replacing the record with the same identifier.
    pub fn insert(&mut self, user: User)
        requires
            old(self).wf(),
        ensures
            final(self).wf(),
            final(self)@ == old(self)@.insert(user.id@, user.name@),
    {
        let ghost id = user.id@;
        let ghost name = user.name@;
        let pos = self.position(&user.id);
        match pos {
            Some(i) => {
                self.users.set(i, user);
            },
            None => {
                self.users.push(user);
            },
        }
        proof {
            let n = self.users@.len();
            assert forall|k: Seq<char>| #[trigger] self@.contains_key(k) == old(self)@.insert(
                id,
                name,
            ).contains_key(k) by {
                if k != id {
                    if self@.contains_key(k) {
                        let j = choose|j: int| 0 <= j < n && self.users@[j].id@ == k;
                        assert(old(self).users@[j].id@ == k);
                    }
                    if old(self)@.contains_key(k) {
                        let j = choose|j: int| 0 <= j < old(self).users@.len() && old(self).users@[j].id@ == k;
                        assert(self.users@[j].id@ == k);
                    }
                } else {
                    let j: int = if pos is Some { pos->0 as int } else { n - 1 };
                    assert(self.users@[j].id@ == k);
                }
            }
            assert forall|k: Seq<char>| #[trigger] self@.contains_key(k) implies self@[k]
                == old(self)@.insert(id, name)[k] by {
                let j = choose|j: int| 0 <= j < n && self.users@[j].id@ == k;
                if k == id {
                    let jj: int = if pos is Some { pos->0 as int } else { n - 1 };
                    assert(self.users@[jj].id@ == k);
                    assert(j == jj);
                } else {
                    assert(old(self).users@[j].id@ == k);
                    let oj = choose|oj: int| 0 <= oj < old(self).users@.len() && old(self).users@[oj].id@ == k;
                    assert(oj == j);
                }
            }
            assert(self@ =~= old(self)@.insert(id, name));
        }
    }
}

} // verus!
