//! The poll-driven transport instance of one client.
//!
//! A dispatch stores or reads a record in the shared store, issues a fresh
//! request id and queues the response; `run` drains every queued response
//! into the request registry, exactly as the callback endpoint would deliver
//! them.  The driving loop that calls `run` periodically lives outside the
//! library, with the threads.

use vstd::prelude::*;
use crate::codec::copy_bytes;
use crate::errors::ClientError;
use crate::name::Name;
use crate::registry::{complete_spec, RequestRegistry, SlotV};
use crate::store::{store_get_spec, store_put_spec, Store};

verus! {

/// Mathematical model of a transport instance.
pub ghost struct TransportV {
    /// Queued responses, oldest first; `None` is a failure.
    pub pending: Seq<(u64, Option<Seq<u8>>)>,
    /// The next request id to issue.
    pub next_id: u64,
}

pub open spec fn opt_bytes_view(o: Option<Vec<u8>>) -> Option<Seq<u8>> {
    match o {
        Some(v) => Some(v@),
        None => None,
    }
}

/// The views of the queued responses.
pub open spec fn pending_views(s: Seq<(u64, Option<Vec<u8>>)>) -> Seq<(u64, Option<Seq<u8>>)> {
    s.map_values(|p: (u64, Option<Vec<u8>>)| (p.0, opt_bytes_view(p.1)))
}

/// Delivering all queued responses to the registry, oldest first.
pub open spec fn run_spec(m: Map<u64, SlotV>, pending: Seq<(u64, Option<Seq<u8>>)>) -> Map<
    u64,
    SlotV,
>
    decreases pending.len(),
{
    if pending.len() == 0 {
        m
    } else {
        run_spec(complete_spec(m, pending[0].0, pending[0].1), pending.drop_first())
    }
}

/// One client's connection to the store: issues request ids and queues the
/// responses until the driver pumps them.
pub struct Transport {
    pending: Vec<(u64, Option<Vec<u8>>)>,
    next_id: u64,
}

impl View for Transport {
    type V = TransportV;

    closed spec fn view(&self) -> TransportV {
        TransportV { pending: pending_views(self.pending@), next_id: self.next_id }
    }
}

impl Transport {
    pub fn new() -> (r: Transport)
        ensures
            r@.pending == Seq::<(u64, Option<Seq<u8>>)>::empty(),
            r@.next_id == 0,
    {
        let r = Transport { pending: Vec::new(), next_id: 0 };
        proof {
            assert(r@.pending =~= Seq::<(u64, Option<Seq<u8>>)>::empty());
        }
        r
    }

    /// Dispatches a PUT: stores the record under its name and queues the
    /// success acknowledgement.  Fails with `Io` only when the id space is
    /// exhausted.
    pub fn put(&mut self, store: &mut Store, name: &Name, contents: Vec<u8>) -> (r: Result<
        u64,
        ClientError,
    >)
        ensures
            r is Ok <==> old(self)@.next_id < u64::MAX,
            r matches Ok(id) ==> {
                &&& id == old(self)@.next_id
                &&& final(self)@.next_id == old(self)@.next_id + 1
                &&& final(self)@.pending == old(self)@.pending.push(
                    (id, Some(Seq::<u8>::empty())),
                )
                &&& final(store)@ == store_put_spec(old(store)@, name@, contents@)
            },
            r matches Err(e) ==> {
                &&& e == ClientError::Io
                &&& final(self)@ == old(self)@
                &&& final(store)@ == old(store)@
            },
    {
        if self.next_id == u64::MAX {
            return Err(ClientError::Io);
        }
        let id = self.next_id;
        self.next_id = self.next_id + 1;
        store.put_record(name, contents);
        let ghost pre = self@.pending;
        let ack: Vec<u8> = Vec::new();
        proof {
            assert(ack@ =~= Seq::<u8>::empty());
        }
        self.pending.push((id, Some(ack)));
        proof {
            assert(self@.pending =~= pre.push((id, Some(Seq::<u8>::empty()))));
        }
        Ok(id)
    }

    /// Bootstrap PUT of a public record before any key is registered on the
    /// network; no response is expected, so none is queued.
    pub fn unauthorised_put(&mut self, store: &mut Store, destination: &Name, contents: Vec<u8>)
        ensures
            final(self)@ == old(self)@,
            final(store)@ == store_put_spec(old(store)@, destination@, contents@),
    {
        store.put_record(destination, contents);
    }

    /// Dispatches a GET: queues the newest record under `name`, or a failure
    /// when the store holds none.  The in-memory store keeps one namespace,
    /// so the type tag does not narrow the lookup.
    pub fn get(&mut self, store: &Store, type_tag: u64, name: &Name) -> (r: Result<
        u64,
        ClientError,
    >)
        ensures
            r is Ok <==> old(self)@.next_id < u64::MAX,
            r matches Ok(id) ==> {
                &&& id == old(self)@.next_id
                &&& final(self)@.next_id == old(self)@.next_id + 1
                &&& final(self)@.pending == old(self)@.pending.push(
                    (id, store_get_spec(store@, name@)),
                )
            },
            r matches Err(e) ==> e == ClientError::Io && final(self)@ == old(self)@,
    {
        if self.next_id == u64::MAX {
            return Err(ClientError::Io);
        }
        let id = self.next_id;
        self.next_id = self.next_id + 1;
        let response = store.get_record(name);
        let ghost pre = self@.pending;
        let ghost rv = opt_bytes_view(response);
        proof {
            assert(rv == store_get_spec(store@, name@));
        }
        self.pending.push((id, response));
        proof {
            assert(self@.pending =~= pre.push((id, rv)));
        }
        Ok(id)
    }

    /// Drains every queued response into the registry, oldest first — the
    /// callback endpoint of the transport.
    pub fn run(&mut self, registry: &mut RequestRegistry)
        ensures
            final(self)@.pending == Seq::<(u64, Option<Seq<u8>>)>::empty(),
            final(self)@.next_id == old(self)@.next_id,
            final(registry)@ == run_spec(old(registry)@, old(self)@.pending),
            final(registry).generation() >= old(registry).generation(),
    {
        let ghost pend0 = self@.pending;
        let ghost m0 = registry@;
        let ghost g0 = registry.generation();
        let mut i: usize = 0;
        proof {
            assert(pend0.skip(0) =~= pend0);
        }
        while i < self.pending.len()
            invariant
                i <= self.pending@.len(),
                pend0 == pending_views(self.pending@),
                run_spec(m0, pend0) == run_spec(registry@, pend0.skip(i as int)),
                registry.generation() >= g0,
            decreases self.pending@.len() - i,
        {
            let id = self.pending[i].0;
            let resp: Option<Vec<u8>> = match &self.pending[i].1 {
                Some(b) => {
                    let c = copy_bytes(b);
                    proof {
                        assert(c.deep_view() =~= c@);
                    }
                    Some(c)
                },
                None => None,
            };
            let ghost rv = resp.deep_view();
            proof {
                assert(rv == pend0[i as int].1);
            }
            let ghost reg_pre = registry@;
            registry.complete(id, resp);
            proof {
                assert(pend0.skip(i as int)[0] == pend0[i as int]);
                assert(pend0.skip(i as int).drop_first() =~= pend0.skip(i as int + 1));
                assert(run_spec(reg_pre, pend0.skip(i as int)) == run_spec(
                    complete_spec(reg_pre, id, rv),
                    pend0.skip(i as int + 1),
                ));
            }
            i = i + 1;
        }
        proof {
            assert(pend0.skip(pend0.len() as int) =~= Seq::<(u64, Option<Seq<u8>>)>::empty());
        }
        self.pending.clear();
        proof {
            assert(self@.pending =~= Seq::<(u64, Option<Seq<u8>>)>::empty());
        }
    }
}

} // verus!
