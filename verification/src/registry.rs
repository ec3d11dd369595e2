//! The server's registry of connected clients, keyed by client id.
use vstd::prelude::*;

verus! {

/// A connected client, known to the server by its id.
pub struct Client {
    pub client_id: String,
}

/// The ids of a list of strings, in order.
pub open spec fn ids_view(v: Seq<String>) -> Seq<Seq<char>> {
    v.map_values(|s: String| s@)
}

/// The registry after `id` joins: an id that is already present keeps its
/// place, a new one comes last.
pub open spec fn joined(ids: Seq<Seq<char>>, id: Seq<char>) -> Seq<Seq<char>> {
    if ids.contains(id) {
        ids
    } else {
        ids.push(id)
    }
}

/// The ids of `ids` that a message from `current` reaches, in order: all of
/// them when `self_included`, else all but `current`.
pub open spec fn addressees(ids: Seq<Seq<char>>, current: Seq<char>, self_included: bool) -> Seq<
    Seq<char>,
>
    decreases ids.len(),
{
    if ids.len() == 0 {
        Seq::empty()
    } else {
        let rest = addressees(ids.drop_last(), current, self_included);
        if self_included || ids.last() != current {
            rest.push(ids.last())
        } else {
            rest
        }
    }
}

/// The registry after `id` leaves.
pub open spec fn without(ids: Seq<Seq<char>>, id: Seq<char>) -> Seq<Seq<char>> {
    addressees(ids, id, false)
}

/// The ids of connected clients, each once, in the order in which they
/// joined.
pub struct Clients {
    list: Vec<Client>,
}

impl View for Clients {
    type V = Seq<Seq<char>>;

    closed spec fn view(&self) -> Seq<Seq<char>> {
        self.list@.map_values(|c: Client| c.client_id@)
    }
}

impl Clients {
    /// No id occurs twice.
    pub open spec fn wf(&self) -> bool {
        self@.no_duplicates()
    }

    /// An empty registry.
    pub fn new() -> (clients: Clients)
        ensures
            clients@ == Seq::<Seq<char>>::empty(),
            clients.wf(),
    {
        let clients = Clients { list: Vec::new() };
        assert(clients@ =~= Seq::<Seq<char>>::empty());
        clients
    }

    /// The number of connected clients.
    pub fn len(&self) -> (n: usize)
        ensures
            n == self@.len(),
    {
        self.list.len()
    }

    /// Whether a client with this id is connected.
    pub fn contains(&self, id: &String) -> (found: bool)
        ensures
            found == self@.contains(id@),
    {
        let n = self.list.len();
        let mut i: usize = 0;
        while i < n
            invariant
                n == self.list@.len(),
                n == self@.len(),
                i <= n,
                forall|j: int| 0 <= j < i ==> self@[j] != id@,
            decreases n - i,
        {
            if self.list[i].client_id == *id {
                assert(self@[i as int] == id@);
                return true;
            }
            i = i + 1;
        }
        proof {
            if self@.contains(id@) {
                let k = choose|k: int| 0 <= k < self@.len() && self@[k] == id@;
                assert(self@[k] != id@);
            }
        }
        false
    }

    /// Registers `client`; where its id is already present, the registry
    /// keeps that one entry.
    pub fn insert(&mut self, client: Client)
        requires
            old(self).wf(),
        ensures
            final(self)@ == joined(old(self)@, client.client_id@),
            final(self).wf(),
    {
        if !self.contains(&client.client_id) {
            let ghost id = client.client_id@;
            self.list.push(client);
            proof {
                assert(self@ =~= old(self)@.push(id));
                assert forall|a: int, b: int|
                    0 <= a < self@.len() && 0 <= b < self@.len() && a != b implies self@[a]
                    != self@[b] by {
                    if b == self@.len() - 1 {
                        assert(old(self)@[a] == self@[a]);
                    } else if a == self@.len() - 1 {
                        assert(old(self)@[b] == self@[b]);
                    }
                }
            }
        }
    }

    /// The ids that a message from `current` reaches: every connected client
    /// when `self_included`, else every one but `current`, in registry order.
    pub fn recipients(&self, current: &String, self_included: bool) -> (tos: Vec<String>)
        ensures
            ids_view(tos@) == addressees(self@, current@, self_included),
    {
        let n = self.list.len();
        let mut tos: Vec<String> = Vec::new();
        let mut i: usize = 0;
        assert(self@.take(0) =~= Seq::<Seq<char>>::empty());
        while i < n
            invariant
                n == self.list@.len(),
                n == self@.len(),
                i <= n,
                ids_view(tos@) == addressees(self@.take(i as int), current@, self_included),
            decreases n - i,
        {
            assert(self@.take(i + 1).drop_last() =~= self@.take(i as int));
            let id = &self.list[i].client_id;
            if self_included || *id != *current {
                tos.push(id.clone());
            }
            assert(ids_view(tos@) =~= addressees(self@.take(i + 1), current@, self_included));
            i = i + 1;
        }
        assert(self@.take(n as int) =~= self@);
        tos
    }

    /// Removes the client with this id, where there is one.
    pub fn remove(&mut self, id: &String)
        requires
            old(self).wf(),
        ensures
            final(self)@ == without(old(self)@, id@),
            final(self).wf(),
    {
        let n = self.list.len();
        let mut kept: Vec<Client> = Vec::new();
        let mut i: usize = 0;
        let ghost all = self@;
        assert(all.take(0) =~= Seq::<Seq<char>>::empty());
        while i < n
            invariant
                n == self.list@.len(),
                all == self@,
                n == all.len(),
                i <= n,
                kept@.map_values(|c: Client| c.client_id@) == addressees(
                    all.take(i as int),
                    id@,
                    false,
                ),
            decreases n - i,
        {
            assert(all.take(i + 1).drop_last() =~= all.take(i as int));
            if self.list[i].client_id != *id {
                let c = Client { client_id: self.list[i].client_id.clone() };
                kept.push(c);
            }
            assert(kept@.map_values(|c: Client| c.client_id@) =~= addressees(
                all.take(i + 1),
                id@,
                false,
            ));
            i = i + 1;
        }
        assert(all.take(n as int) =~= all);
        self.list = kept;
        proof {
            lemma_addressees_no_duplicates(all, id@, false);
        }
    }
}

/// An id receives a message from `current` exactly when it is connected and
/// either the sender is included or it is not the sender.
pub proof fn lemma_addressees_members(
    ids: Seq<Seq<char>>,
    current: Seq<char>,
    self_included: bool,
    id: Seq<char>,
)
    ensures
        addressees(ids, current, self_included).contains(id) <==> (ids.contains(id) && (
        self_included || id != current)),
    decreases ids.len(),
{
    if ids.len() > 0 {
        let init = ids.drop_last();
        lemma_addressees_members(init, current, self_included, id);
        let rest = addressees(init, current, self_included);
        assert(ids =~= init.push(ids.last()));
        if ids.contains(id) && (self_included || id != current) {
            let k = choose|k: int| 0 <= k < ids.len() && ids[k] == id;
            if k < ids.len() - 1 {
                assert(init[k] == id);
                assert(init.contains(id));
            }
        }
        if self_included || ids.last() != current {
            assert(rest.push(ids.last())[rest.len() as int] == ids.last());
            if rest.push(ids.last()).contains(id) {
                let k = choose|k: int| 0 <= k < rest.len() + 1 && rest.push(ids.last())[k] == id;
                if k < rest.len() {
                    assert(rest[k] == id);
                }
            }
            if rest.contains(id) {
                let k = choose|k: int| 0 <= k < rest.len() && rest[k] == id;
                assert(rest.push(ids.last())[k] == id);
            }
        }
        if init.contains(id) {
            let k = choose|k: int| 0 <= k < init.len() && init[k] == id;
            assert(ids[k] == id);
        }
    }
}

/// Without its last id, a list with no duplicates keeps none, and no longer
/// holds that id.
proof fn lemma_drop_last_no_duplicates(ids: Seq<Seq<char>>)
    requires
        ids.no_duplicates(),
        ids.len() > 0,
    ensures
        ids.drop_last().no_duplicates(),
        !ids.drop_last().contains(ids.last()),
{
    let init = ids.drop_last();
    assert forall|a: int, b: int|
        0 <= a < init.len() && 0 <= b < init.len() && a != b implies init[a] != init[b] by {
        assert(init[a] == ids[a] && init[b] == ids[b]);
    }
    if init.contains(ids.last()) {
        let k = choose|k: int| 0 <= k < init.len() && init[k] == ids.last();
        assert(ids[k] == ids[ids.len() - 1]);
    }
}

/// Each connected client receives a broadcast at most once.
pub proof fn lemma_addressees_no_duplicates(
    ids: Seq<Seq<char>>,
    current: Seq<char>,
    self_included: bool,
)
    requires
        ids.no_duplicates(),
    ensures
        addressees(ids, current, self_included).no_duplicates(),
    decreases ids.len(),
{
    if ids.len() > 0 {
        let init = ids.drop_last();
        lemma_drop_last_no_duplicates(ids);
        lemma_addressees_no_duplicates(init, current, self_included);
        let rest = addressees(init, current, self_included);
        if self_included || ids.last() != current {
            lemma_addressees_members(init, current, self_included, ids.last());
            let grown = rest.push(ids.last());
            assert forall|a: int, b: int|
                0 <= a < grown.len() && 0 <= b < grown.len() && a != b implies grown[a]
                != grown[b] by {
                if a == rest.len() {
                    assert(rest[b] == grown[b]);
                    assert(rest.contains(grown[b]));
                } else if b == rest.len() {
                    assert(rest[a] == grown[a]);
                    assert(rest.contains(grown[a]));
                } else {
                    assert(rest[a] == grown[a] && rest[b] == grown[b]);
                }
            }
        }
    }
}

/// A message that includes its sender reaches every connected client, in
/// registry order.
pub proof fn lemma_addressees_all(ids: Seq<Seq<char>>, current: Seq<char>)
    ensures
        addressees(ids, current, true) == ids,
    decreases ids.len(),
{
    if ids.len() > 0 {
        lemma_addressees_all(ids.drop_last(), current);
        assert(ids.drop_last().push(ids.last()) =~= ids);
    }
}

/// A message from a client that is not connected reaches every connected
/// client; in particular removing an id that is not present changes nothing.
pub proof fn lemma_addressees_absent(ids: Seq<Seq<char>>, current: Seq<char>, self_included: bool)
    requires
        !ids.contains(current),
    ensures
        addressees(ids, current, self_included) == ids,
    decreases ids.len(),
{
    if ids.len() > 0 {
        let init = ids.drop_last();
        assert(!init.contains(current)) by {
            if init.contains(current) {
                let k = choose|k: int| 0 <= k < init.len() && init[k] == current;
                assert(ids[k] == current);
            }
        }
        lemma_addressees_absent(init, current, self_included);
        assert(ids[ids.len() - 1] != current);
        assert(init.push(ids.last()) =~= ids);
    }
}

/// A message from a connected client that excludes its sender reaches one
/// client fewer than are connected.
pub proof fn lemma_addressees_len(ids: Seq<Seq<char>>, current: Seq<char>)
    requires
        ids.no_duplicates(),
        ids.contains(current),
    ensures
        addressees(ids, current, false).len() == ids.len() - 1,
    decreases ids.len(),
{
    let init = ids.drop_last();
    lemma_drop_last_no_duplicates(ids);
    if ids.last() == current {
        lemma_addressees_absent(init, current, false);
    } else {
        let k = choose|k: int| 0 <= k < ids.len() && ids[k] == current;
        assert(k != ids.len() - 1);
        assert(init[k] == current);
        lemma_addressees_len(init, current);
    }
}

} // verus!
