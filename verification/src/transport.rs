//! The peer directory: which node lives at which address, and the clients
//! that have been made for those addresses.
//!
//! Sending never blocks and never retries: it yields the call to make, or
//! nothing where the message cannot be delivered. The consensus library
//! sends again what was lost.

use crate::mumpb::{spec_wrap, RaftMessage};
use crate::mumpb_grpc::{Call, CallModel, CallOption, Method, MumClient};
use crate::names::bytes_eq;
use crate::layout::copy_of;
use crate::wire::{message_to, spec_message_to};
use std::collections::HashMap;
use vstd::prelude::*;

verus! {

broadcast use vstd::std_specs::hash::group_hash_axioms;

/// The addresses of the clients in a pool.
pub open spec fn spec_addresses(conns: Seq<MumClient>) -> Seq<Seq<u8>> {
    conns.map_values(|c: MumClient| c.spec_address())
}

/// The clients of the peers of a node.
pub struct RaftClients {
    addrs: HashMap<u64, Vec<u8>>,
    conns: Vec<MumClient>,
}

impl RaftClients {
    /// The address of each known peer.
    pub closed spec fn spec_addrs(&self) -> Map<u64, Seq<u8>> {
        self.addrs@.map_values(|a: Vec<u8>| a@)
    }

    /// The addresses for which a client has been made, in the order in
    /// which they were made.
    pub closed spec fn spec_conns(&self) -> Seq<Seq<u8>> {
        spec_addresses(self.conns@)
    }

    /// What holds of every pool: no address has two clients.
    pub closed spec fn wf(&self) -> bool {
        forall|i: int, j: int|
            0 <= i < j < self.conns@.len() ==> (#[trigger] self.conns@[i]).spec_address() != (
            #[trigger] self.conns@[j]).spec_address()
    }

    /// A directory without peers.
    pub fn new() -> (c: RaftClients)
        ensures
            c.wf(),
            c.spec_addrs() == Map::<u64, Seq<u8>>::empty(),
            c.spec_conns() == Seq::<Seq<u8>>::empty(),
    {
        let c = RaftClients { addrs: HashMap::new(), conns: Vec::new() };
        assert(c.spec_addrs() =~= Map::<u64, Seq<u8>>::empty());
        assert(c.spec_conns() =~= Seq::<Seq<u8>>::empty());
        c
    }

    /// Makes `addr` the address of the peer `store_id`, known or new.
    pub fn upsert_peer(&mut self, store_id: u64, addr: &[u8])
        requires
            old(self).wf(),
        ensures
            final(self).wf(),
            final(self).spec_addrs() == old(self).spec_addrs().insert(store_id, addr@),
            final(self).spec_conns() == old(self).spec_conns(),
    {
        self.addrs.insert(store_id, copy_of(addr));
        assert(self.spec_addrs() =~= old(self).spec_addrs().insert(store_id, addr@));
    }

    /// Forgets the peer `store_id`. A client made for its address stays.
    pub fn delete_peer(&mut self, store_id: u64)
        requires
            old(self).wf(),
        ensures
            final(self).wf(),
            final(self).spec_addrs() == old(self).spec_addrs().remove(store_id),
            final(self).spec_conns() == old(self).spec_conns(),
    {
        self.addrs.remove(&store_id);
        assert(self.spec_addrs() =~= old(self).spec_addrs().remove(store_id));
    }

    /// The address of the peer `store_id`.
    pub fn address_of(&self, store_id: u64) -> (addr: Option<Vec<u8>>)
        ensures
            match addr {
                Some(a) => self.spec_addrs().contains_key(store_id) && self.spec_addrs()[store_id]
                    == a@,
                None => !self.spec_addrs().contains_key(store_id),
            },
    {
        match self.addrs.get(&store_id) {
            Some(a) => Some(copy_of(a.as_slice())),
            None => None,
        }
    }

    /// The place in the pool of the client for the peer `to`; the client is
    /// made first where the pool has none for the address of the peer.
    /// `None`, and nothing changes, where the peer is unknown.
    pub fn get_conn(&mut self, to: u64) -> (at: Option<usize>)
        requires
            old(self).wf(),
        ensures
            final(self).wf(),
            final(self).spec_addrs() == old(self).spec_addrs(),
            match at {
                Some(i) => {
                    &&& old(self).spec_addrs().contains_key(to)
                    &&& i < final(self).spec_conns().len()
                    &&& final(self).spec_conns()[i as int] == old(self).spec_addrs()[to]
                    &&& if old(self).spec_conns().contains(old(self).spec_addrs()[to]) {
                        final(self).spec_conns() == old(self).spec_conns()
                    } else {
                        final(self).spec_conns() == old(self).spec_conns().push(
                            old(self).spec_addrs()[to],
                        )
                    }
                },
                None => !old(self).spec_addrs().contains_key(to) && final(self).spec_conns() == old(
                    self,
                ).spec_conns(),
            },
    {
        let addr = match self.address_of(to) {
            Some(a) => a,
            None => {
                return None;
            },
        };
        let mut i: usize = 0;
        while i < self.conns.len()
            invariant
                i <= self.conns@.len(),
                old(self).wf(),
                self.conns@ == old(self).conns@,
                self.addrs@ == old(self).addrs@,
                old(self).spec_addrs().contains_key(to),
                old(self).spec_addrs()[to] == addr@,
                forall|j: int| 0 <= j < i ==> (#[trigger] self.conns@[j]).spec_address() != addr@,
            decreases self.conns@.len() - i,
        {
            if bytes_eq(self.conns[i].address().as_slice(), addr.as_slice()) {
                assert(self.spec_conns()[i as int] == addr@);
                assert(old(self).spec_conns().contains(addr@));
                return Some(i);
            }
            i = i + 1;
        }
        assert(!self.spec_conns().contains(addr@)) by {
            if self.spec_conns().contains(addr@) {
                let j = choose|j: int|
                    0 <= j < self.spec_conns().len() && self.spec_conns()[j] == addr@;
                assert(self.conns@[j].spec_address() == addr@);
            }
        }
        self.conns.push(MumClient::new(addr));
        assert(self.spec_conns() =~= old(self).spec_conns().push(addr@));
        Some(i)
    }

    /// The call that delivers `msg` to the peer it is addressed to, made
    /// with the pooled client of that peer and without waiting for the
    /// answer. `None` where the message names no addressee or an unknown
    /// one: the message is dropped.
    pub fn send(&mut self, msg: RaftMessage) -> (call: Option<Call>)
        requires
            old(self).wf(),
        ensures
            final(self).wf(),
            final(self).spec_addrs() == old(self).spec_addrs(),
            match call {
                Some(c) => {
                    &&& spec_message_to(msg.message@) matches Some(to)
                    &&& old(self).spec_addrs().contains_key(to)
                    &&& c@ == (CallModel {
                        address: old(self).spec_addrs()[to],
                        method: Method::Raft,
                        request: spec_wrap(msg.message@),
                        option: CallOption::spec_default(),
                        blocking: false,
                    })
                    &&& if old(self).spec_conns().contains(old(self).spec_addrs()[to]) {
                        final(self).spec_conns() == old(self).spec_conns()
                    } else {
                        final(self).spec_conns() == old(self).spec_conns().push(
                            old(self).spec_addrs()[to],
                        )
                    }
                },
                None => {
                    &&& (spec_message_to(msg.message@) matches Some(to) ==> !old(
                        self,
                    ).spec_addrs().contains_key(to))
                    &&& final(self).spec_conns() == old(self).spec_conns()
                },
            },
    {
        let to = match message_to(msg.message.as_slice()) {
            Some(to) => to,
            None => {
                return None;
            },
        };
        match self.get_conn(to) {
            Some(i) => {
                assert(self.spec_conns()[i as int] == self.conns@[i as int].spec_address());
                Some(self.conns[i].raft_async(&msg))
            },
            None => None,
        }
    }
}

} // verus!
