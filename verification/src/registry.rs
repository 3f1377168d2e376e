//! The registry of live connections.

use crate::address::PeerAddr;
use crate::event::Connection;
use vstd::prelude::*;

verus! {

/// No address occurs twice among `entries`.
pub open spec fn distinct<H>(entries: Seq<Connection<H>>) -> bool {
    forall|i: int, j: int|
        0 <= i < j < entries.len() ==> (#[trigger] entries[i]).addr != (#[trigger] entries[j]).addr
}

/// `addr` is the address of one of `entries`.
pub open spec fn registered<H>(entries: Seq<Connection<H>>, addr: PeerAddr) -> bool {
    exists|i: int| 0 <= i < entries.len() && (#[trigger] entries[i]).addr == addr
}

/// A place among `entries` at which `addr` stands, where there is one.
pub open spec fn index_of<H>(entries: Seq<Connection<H>>, addr: PeerAddr) -> int {
    choose|i: int| 0 <= i < entries.len() && (#[trigger] entries[i]).addr == addr
}

/// The set of the addresses of `entries`.
pub open spec fn addresses<H>(entries: Seq<Connection<H>>) -> Set<PeerAddr> {
    Set::new(|addr: PeerAddr| registered(entries, addr))
}

/// `entries` with `conn` registered: in the place of the entry that had its
/// address, or at the end where none had.
pub open spec fn put<H>(entries: Seq<Connection<H>>, conn: Connection<H>) -> Seq<Connection<H>> {
    if registered(entries, conn.addr) {
        entries.update(index_of(entries, conn.addr), conn)
    } else {
        entries.push(conn)
    }
}

/// `entries` without the entry of `addr`; unchanged where there is none.
pub open spec fn without<H>(entries: Seq<Connection<H>>, addr: PeerAddr) -> Seq<Connection<H>> {
    if registered(entries, addr) {
        entries.remove(index_of(entries, addr))
    } else {
        entries
    }
}

/// The addresses of `entries`, in their order.
pub open spec fn addrs_of<H>(entries: Seq<Connection<H>>) -> Seq<PeerAddr> {
    entries.map_values(|c: Connection<H>| c.addr)
}

/// The addresses of `entries` other than `sender`, in the order of `entries`.
pub open spec fn others<H>(entries: Seq<Connection<H>>, sender: PeerAddr) -> Seq<PeerAddr> {
    addrs_of(entries).filter(|addr: PeerAddr| addr != sender)
}

/// Among distinct entries an address stands at one place only.
pub proof fn lemma_index_of<H>(entries: Seq<Connection<H>>, i: int)
    requires
        distinct(entries),
        0 <= i < entries.len(),
    ensures
        registered(entries, entries[i].addr),
        index_of(entries, entries[i].addr) == i,
{
    let k = index_of(entries, entries[i].addr);
    assert(0 <= k < entries.len() && entries[k].addr == entries[i].addr);
    if k < i {
        assert(entries[k].addr != entries[i].addr);
    } else if i < k {
        assert(entries[i].addr != entries[k].addr);
    }
}

/// Registering keeps the entries distinct and adds the address, and no other.
pub proof fn lemma_put<H>(entries: Seq<Connection<H>>, conn: Connection<H>)
    requires
        distinct(entries),
    ensures
        distinct(put(entries, conn)),
        addresses(put(entries, conn)) == addresses(entries).insert(conn.addr),
        put(entries, conn).len() == if registered(entries, conn.addr) {
            entries.len()
        } else {
            entries.len() + 1
        },
{
    let after = put(entries, conn);
    if registered(entries, conn.addr) {
        let k = index_of(entries, conn.addr);
        assert(0 <= k < entries.len() && entries[k].addr == conn.addr);
        assert forall|i: int, j: int| 0 <= i < j < after.len() implies (#[trigger] after[i]).addr
            != (#[trigger] after[j]).addr by {
            assert(after[i].addr == entries[i].addr);
            assert(after[j].addr == entries[j].addr);
        }
        assert forall|a: PeerAddr| registered(after, a) == (registered(entries, a) || a == conn.addr) by {
            if registered(after, a) {
                let i = index_of(after, a);
                assert(after[i].addr == entries[i].addr);
            }
            if registered(entries, a) {
                let i = index_of(entries, a);
                assert(after[i].addr == entries[i].addr);
            }
        }
    } else {
        assert forall|i: int, j: int| 0 <= i < j < after.len() implies (#[trigger] after[i]).addr
            != (#[trigger] after[j]).addr by {
            if j == entries.len() {
                assert(after[i] == entries[i]);
            } else {
                assert(after[i] == entries[i]);
                assert(after[j] == entries[j]);
            }
        }
        assert forall|a: PeerAddr| registered(after, a) == (registered(entries, a) || a == conn.addr) by {
            if registered(after, a) {
                let i = index_of(after, a);
                if i < entries.len() {
                    assert(after[i] == entries[i]);
                }
            }
            if registered(entries, a) {
                let i = index_of(entries, a);
                assert(after[i] == entries[i]);
            }
            if a == conn.addr {
                assert(after[entries.len() as int].addr == a);
            }
        }
    }
    assert(addresses(after) =~= addresses(entries).insert(conn.addr));
}

/// Removing keeps the entries distinct and takes the address out, and no other.
pub proof fn lemma_without<H>(entries: Seq<Connection<H>>, addr: PeerAddr)
    requires
        distinct(entries),
    ensures
        distinct(without(entries, addr)),
        !registered(without(entries, addr), addr),
        addresses(without(entries, addr)) == addresses(entries).remove(addr),
        without(entries, addr).len() == if registered(entries, addr) {
            entries.len() - 1
        } else {
            entries.len() as int
        },
        forall|i: int|
            0 <= i < without(entries, addr).len() ==> registered(
                entries,
                (#[trigger] without(entries, addr)[i]).addr,
            ),
{
    let after = without(entries, addr);
    if registered(entries, addr) {
        let k = index_of(entries, addr);
        assert(0 <= k < entries.len() && entries[k].addr == addr);
        assert forall|i: int| 0 <= i < after.len() implies (#[trigger] after[i]) == entries[if i
            < k {
            i
        } else {
            i + 1
        }] by {}
        assert forall|i: int, j: int| 0 <= i < j < after.len() implies (#[trigger] after[i]).addr
            != (#[trigger] after[j]).addr by {
            let i0 = if i < k {
                i
            } else {
                i + 1
            };
            let j0 = if j < k {
                j
            } else {
                j + 1
            };
            assert(after[i] == entries[i0]);
            assert(after[j] == entries[j0]);
        }
        assert forall|a: PeerAddr| registered(after, a) == (registered(entries, a) && a != addr) by {
            if registered(after, a) {
                let i = index_of(after, a);
                let i0 = if i < k {
                    i
                } else {
                    i + 1
                };
                assert(after[i] == entries[i0]);
                if i0 < k {
                    assert(entries[i0].addr != entries[k].addr);
                } else {
                    assert(entries[k].addr != entries[i0].addr);
                }
            }
            if registered(entries, a) && a != addr {
                let i = index_of(entries, a);
                if i < k {
                    assert(after[i] == entries[i]);
                } else {
                    assert(after[i - 1] == entries[i]);
                }
            }
        }
        assert forall|i: int| 0 <= i < after.len() implies registered(
            entries,
            (#[trigger] after[i]).addr,
        ) by {
            let i0 = if i < k {
                i
            } else {
                i + 1
            };
            assert(after[i] == entries[i0]);
        }
    } else {
        assert forall|a: PeerAddr| registered(after, a) == (registered(entries, a) && a != addr) by {}
    }
    assert(addresses(after) =~= addresses(entries).remove(addr));
}

/// What one more entry adds to the addresses other than `sender`.
pub proof fn lemma_others_push<H>(entries: Seq<Connection<H>>, conn: Connection<H>, sender: PeerAddr)
    ensures
        others(entries.push(conn), sender) == if conn.addr == sender {
            others(entries, sender)
        } else {
            others(entries, sender).push(conn.addr)
        },
{
    reveal(Seq::filter);
    let all = addrs_of(entries.push(conn));
    assert(all.drop_last() =~= addrs_of(entries));
    assert(all.last() == conn.addr);
}

/// The addresses other than `sender` are the registered addresses but
/// `sender`, each once: one fewer than the entries where `sender` is
/// registered, and as many where it is not.
pub proof fn lemma_others<H>(entries: Seq<Connection<H>>, sender: PeerAddr)
    requires
        distinct(entries),
    ensures
        forall|addr: PeerAddr|
            others(entries, sender).contains(addr) <==> registered(entries, addr) && addr
                != sender,
        others(entries, sender).no_duplicates(),
        others(entries, sender).len() == if registered(entries, sender) {
            entries.len() - 1
        } else {
            entries.len() as int
        },
    decreases entries.len(),
{
    let out = others(entries, sender);
    if entries.len() == 0 {
        reveal(Seq::filter);
        assert(addrs_of(entries) =~= Seq::<PeerAddr>::empty());
        assert(out =~= Seq::<PeerAddr>::empty());
        assert forall|addr: PeerAddr| out.contains(addr) <==> registered(entries, addr) && addr
            != sender by {}
    } else {
        let front = entries.drop_last();
        let last = entries.last();
        let before = others(front, sender);
        assert(entries =~= front.push(last));
        assert(distinct(front)) by {
            assert forall|i: int, j: int| 0 <= i < j < front.len() implies (#[trigger] front[i]).addr
                != (#[trigger] front[j]).addr by {
                assert(front[i] == entries[i]);
                assert(front[j] == entries[j]);
            }
        }
        lemma_others(front, sender);
        lemma_others_push(front, last, sender);
        assert(!registered(front, last.addr)) by {
            if registered(front, last.addr) {
                let i = index_of(front, last.addr);
                assert(front[i] == entries[i]);
                assert(entries[i].addr != entries[entries.len() - 1].addr);
            }
        }
        assert forall|addr: PeerAddr| registered(entries, addr) <==> registered(front, addr)
            || addr == last.addr by {
            if registered(entries, addr) {
                let i = index_of(entries, addr);
                if i < front.len() {
                    assert(front[i] == entries[i]);
                }
            }
            if registered(front, addr) {
                let i = index_of(front, addr);
                assert(front[i] == entries[i]);
            }
            if addr == last.addr {
                assert(entries[entries.len() - 1].addr == addr);
            }
        }
        assert forall|addr: PeerAddr| out.contains(addr) <==> registered(entries, addr) && addr
            != sender by {
            if last.addr != sender {
                if out.contains(addr) {
                    let i = choose|i: int| 0 <= i < out.len() && out[i] == addr;
                    if i < before.len() {
                        assert(before[i] == addr);
                    }
                }
                if before.contains(addr) {
                    let i = choose|i: int| 0 <= i < before.len() && before[i] == addr;
                    assert(out[i] == addr);
                }
                if addr == last.addr {
                    assert(out[before.len() as int] == addr);
                }
            }
        }
        if last.addr != sender {
            assert(!before.contains(last.addr));
            assert forall|i: int, j: int| 0 <= i < out.len() && 0 <= j < out.len() && i
                != j implies out[i] != out[j] by {
                if i < before.len() && j < before.len() {
                    assert(before[i] != before[j]);
                } else if i < before.len() {
                    assert(before.contains(before[i]));
                } else if j < before.len() {
                    assert(before.contains(before[j]));
                }
            }
        }
    }
}

/// The registry: which connection is live under which address. At most one
/// entry stands under an address at any time, and the entries keep the order
/// in which their addresses were first registered.
pub struct ClientRegistry<H> {
    entries: Vec<Connection<H>>,
}

impl<H> View for ClientRegistry<H> {
    type V = Seq<Connection<H>>;

    closed spec fn view(&self) -> Seq<Connection<H>> {
        self.entries@
    }
}

impl<H> ClientRegistry<H> {
    #[verifier::type_invariant]
    spec fn inv(self) -> bool {
        distinct(self.entries@)
    }

    /// An empty registry.
    pub fn new() -> (r: Self)
        ensures
            r@ == Seq::<Connection<H>>::empty(),
    {
        ClientRegistry { entries: Vec::new() }
    }

    /// How many connections are registered. No address is registered twice.
    pub fn len(&self) -> (r: usize)
        ensures
            r == self@.len(),
            distinct(self@),
    {
        proof {
            use_type_invariant(self);
        }
        self.entries.len()
    }

    /// Whether nothing is registered.
    pub fn is_empty(&self) -> (r: bool)
        ensures
            r == (self@.len() == 0),
    {
        self.entries.len() == 0
    }

    fn position(&self, addr: PeerAddr) -> (r: Option<usize>)
        ensures
            distinct(self@),
            match r {
                Some(i) => i < self@.len() && registered(self@, addr) && index_of(self@, addr) == i,
                None => !registered(self@, addr),
            },
    {
        proof {
            use_type_invariant(self);
        }
        let mut i: usize = 0;
        while i < self.entries.len()
            invariant
                distinct(self.entries@),
                i <= self.entries@.len(),
                forall|k: int| 0 <= k < i ==> (#[trigger] self.entries@[k]).addr != addr,
            decreases self.entries@.len() - i,
        {
            if self.entries[i].addr == addr {
                proof {
                    lemma_index_of(self.entries@, i as int);
                }
                return Some(i);
            }
            i += 1;
        }
        None
    }

    /// Whether a connection is registered under `addr`.
    pub fn contains(&self, addr: PeerAddr) -> (r: bool)
        ensures
            r == registered(self@, addr),
    {
        self.position(addr).is_some()
    }

    /// The handle registered under `addr`.
    pub fn get(&self, addr: PeerAddr) -> (r: Option<&H>)
        ensures
            match r {
                Some(handle) => registered(self@, addr) && *handle == self@[index_of(self@, addr)].handle,
                None => !registered(self@, addr),
            },
    {
        match self.position(addr) {
            Some(i) => Some(&self.entries[i].handle),
            None => None,
        }
    }

    /// Registers `conn` under its address. An entry that stood under that
    /// address is replaced and handed back.
    pub fn insert(&mut self, conn: Connection<H>) -> (r: Option<Connection<H>>)
        ensures
            distinct(old(self)@),
            final(self)@ == put(old(self)@, conn),
            match r {
                Some(replaced) => registered(old(self)@, conn.addr) && replaced == old(self)@[index_of(
                    old(self)@,
                    conn.addr,
                )],
                None => !registered(old(self)@, conn.addr),
            },
    {
        proof {
            use_type_invariant(&*self);
            lemma_put(self.entries@, conn);
        }
        let found = self.position(conn.addr);
        let mut entries: Vec<Connection<H>> = Vec::new();
        core::mem::swap(&mut self.entries, &mut entries);
        let replaced = match found {
            Some(i) => {
                let replaced = entries.remove(i);
                entries.insert(i, conn);
                assert(entries@ =~= put(old(self)@, conn));
                Some(replaced)
            },
            None => {
                entries.push(conn);
                None
            },
        };
        self.entries = entries;
        replaced
    }

    /// Takes out the entry under `addr` and hands it back; does nothing where
    /// there is none.
    pub fn remove(&mut self, addr: PeerAddr) -> (r: Option<Connection<H>>)
        ensures
            distinct(old(self)@),
            final(self)@ == without(old(self)@, addr),
            match r {
                Some(removed) => registered(old(self)@, addr) && removed == old(self)@[index_of(
                    old(self)@,
                    addr,
                )],
                None => !registered(old(self)@, addr),
            },
    {
        proof {
            use_type_invariant(&*self);
            lemma_without(self.entries@, addr);
        }
        let found = self.position(addr);
        let mut entries: Vec<Connection<H>> = Vec::new();
        core::mem::swap(&mut self.entries, &mut entries);
        let removed = match found {
            Some(i) => Some(entries.remove(i)),
            None => None,
        };
        self.entries = entries;
        removed
    }

    /// The registered addresses other than `sender`, in the order of the registry.
    pub fn others(&self, sender: PeerAddr) -> (r: Vec<PeerAddr>)
        ensures
            distinct(self@),
            r@ == others(self@, sender),
    {
        proof {
            use_type_invariant(self);
        }
        let mut out: Vec<PeerAddr> = Vec::new();
        let mut i: usize = 0;
        proof {
            reveal(Seq::filter);
            assert(addrs_of(self.entries@.take(0)) =~= Seq::<PeerAddr>::empty());
        }
        while i < self.entries.len()
            invariant
                i <= self.entries@.len(),
                out@ == others(self.entries@.take(i as int), sender),
            decreases self.entries@.len() - i,
        {
            proof {
                lemma_others_push(self.entries@.take(i as int), self.entries@[i as int], sender);
                assert(self.entries@.take(i as int).push(self.entries@[i as int])
                    =~= self.entries@.take(i + 1));
            }
            if self.entries[i].addr != sender {
                out.push(self.entries[i].addr);
            }
            i += 1;
        }
        assert(self.entries@.take(i as int) =~= self.entries@);
        out
    }
}

} // verus!
