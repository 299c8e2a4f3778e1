//! The request correlation table.
//!
//! Outstanding request identifiers map to slots: `Pending` until the
//! transport answers, then `Ready` with the payload or `Failed`.  Slot
//! transitions are monotone — once terminal, a slot never changes — and a
//! slot is removed at most once, by the response getter that owns its id.

use vstd::prelude::*;
use std::collections::HashMap;
use crate::errors::ClientError;

verus! {

broadcast use vstd::std_specs::hash::group_hash_axioms;

/// The state of one outstanding request.
pub enum Slot {
    Pending,
    Ready(Vec<u8>),
    Failed(ClientError),
}

/// Mathematical model of a slot.
pub ghost enum SlotV {
    Pending,
    Ready(Seq<u8>),
    Failed(ClientError),
}

pub open spec fn slot_view(s: Slot) -> SlotV {
    match s {
        Slot::Pending => SlotV::Pending,
        Slot::Ready(b) => SlotV::Ready(b@),
        Slot::Failed(e) => SlotV::Failed(e),
    }
}

/// A slot is terminal once it carries a payload or an error.
pub open spec fn is_terminal(s: SlotV) -> bool {
    !(s is Pending)
}

/// The terminal slot a transport response produces.
pub open spec fn terminal_of(resp: Option<Seq<u8>>) -> SlotV {
    match resp {
        Some(b) => SlotV::Ready(b),
        None => SlotV::Failed(ClientError::ResponseFailure),
    }
}

/// Delivering a response: a pending or absent slot becomes terminal; a
/// terminal slot is left untouched (transitions are monotone).  An absent id
/// is stashed, since a transport may answer before the caller has
/// registered the id.
pub open spec fn complete_spec(m: Map<u64, SlotV>, id: u64, resp: Option<Seq<u8>>) -> Map<
    u64,
    SlotV,
> {
    if m.contains_key(id) && is_terminal(m[id]) {
        m
    } else {
        m.insert(id, terminal_of(resp))
    }
}

/// What taking a slot yields: the payload or error of a terminal slot; a
/// pending or absent slot times out.
pub open spec fn take_result_spec(m: Map<u64, SlotV>, id: u64) -> Result<Seq<u8>, ClientError> {
    if m.contains_key(id) {
        match m[id] {
            SlotV::Ready(b) => Ok(b),
            SlotV::Failed(e) => Err(e),
            SlotV::Pending => Err(ClientError::Timeout),
        }
    } else {
        Err(ClientError::Timeout)
    }
}

/// Maps outstanding request ids to their slots and counts deliveries.
pub struct RequestRegistry {
    slots: HashMap<u64, Slot>,
    generation: u64,
}

impl View for RequestRegistry {
    type V = Map<u64, SlotV>;

    closed spec fn view(&self) -> Map<u64, SlotV> {
        self.slots@.map_values(|s: Slot| slot_view(s))
    }
}

impl RequestRegistry {
    /// Number of deliveries so far; waiters watch it change.
    pub closed spec fn generation(&self) -> u64 {
        self.generation
    }

    pub fn new() -> (r: RequestRegistry)
        ensures
            r@ == Map::<u64, SlotV>::empty(),
            r.generation() == 0,
    {
        let r = RequestRegistry { slots: HashMap::new(), generation: 0 };
        proof {
            assert(r@ =~= Map::<u64, SlotV>::empty());
        }
        r
    }

    /// Registers a fresh id.  Callers must never register an id twice.
    pub fn insert_pending(&mut self, id: u64)
        requires
            !old(self)@.contains_key(id),
        ensures
            final(self)@ == old(self)@.insert(id, SlotV::Pending),
            final(self).generation() == old(self).generation(),
    {
        let ghost pre = self@;
        self.slots.insert(id, Slot::Pending);
        proof {
            assert(self@ =~= pre.insert(id, SlotV::Pending));
        }
    }

    /// Delivers a transport response for `id`, as `complete_spec` says, and
    /// bumps the generation so that waiters wake.
    pub fn complete(&mut self, id: u64, resp: Option<Vec<u8>>)
        ensures
            final(self)@ == complete_spec(old(self)@, id, resp.deep_view()),
            final(self).generation() == (if old(self).generation() < u64::MAX {
                old(self).generation() + 1
            } else {
                u64::MAX as int
            }),
    {
        let ghost pre = self@;
        if self.generation < u64::MAX {
            self.generation = self.generation + 1;
        }
        let mut already_terminal: bool = false;
        match self.slots.get(&id) {
            Some(s) => {
                proof {
                    assert(self.slots@.contains_key(id) && self.slots@[id] == *s);
                    assert(pre.contains_key(id) && pre[id] == slot_view(*s));
                }
                match s {
                    Slot::Pending => {},
                    _ => {
                        already_terminal = true;
                    },
                }
            },
            None => {
                proof {
                    assert(!self.slots@.contains_key(id));
                    assert(!pre.contains_key(id));
                }
            },
        }
        if !already_terminal {
            let ghost rv = resp.deep_view();
            let slot = match resp {
                Some(b) => {
                    proof {
                        assert(b.deep_view() =~= b@);
                        assert(rv == Some(b@));
                    }
                    Slot::Ready(b)
                },
                None => Slot::Failed(ClientError::ResponseFailure),
            };
            let ghost sv = slot_view(slot);
            self.slots.insert(id, slot);
            proof {
                assert(self@ =~= pre.insert(id, sv));
                assert(sv == terminal_of(rv));
            }
        } else {
            proof {
                assert(pre.contains_key(id) && is_terminal(pre[id]));
                assert(self@ == pre);
            }
        }
    }

    /// Removes the slot of `id` and returns its outcome; a slot that is
    /// still pending, or absent, yields `Timeout` (its slot is removed too,
    /// as on an expired deadline).
    pub fn take(&mut self, id: u64) -> (r: Result<Vec<u8>, ClientError>)
        ensures
            final(self)@ == old(self)@.remove(id),
            final(self).generation() == old(self).generation(),
            (match take_result_spec(old(self)@, id) {
                Ok(b) => r matches Ok(v) && v@ == b,
                Err(e) => r matches Err(e2) && e2 == e,
            }),
    {
        let ghost pre = self@;
        let r = match self.slots.remove(&id) {
            None => Err(ClientError::Timeout),
            Some(Slot::Pending) => Err(ClientError::Timeout),
            Some(Slot::Ready(b)) => Ok(b),
            Some(Slot::Failed(e)) => Err(e),
        };
        proof {
            assert(self@ =~= pre.remove(id));
        }
        r
    }

    /// Discards the slot of `id`, terminal or not; a later late delivery
    /// will be stashed and never read.
    pub fn cancel(&mut self, id: u64)
        ensures
            final(self)@ == old(self)@.remove(id),
            final(self).generation() == old(self).generation(),
    {
        let ghost pre = self@;
        self.slots.remove(&id);
        proof {
            assert(self@ =~= pre.remove(id));
        }
    }
}

/// Once a slot is terminal, delivering again changes nothing: every id
/// transitions at most once.
pub proof fn lemma_complete_preserves_terminal(m: Map<u64, SlotV>, id: u64, resp: Option<Seq<u8>>)
    requires
        m.contains_key(id),
        is_terminal(m[id]),
    ensures
        complete_spec(m, id, resp) == m,
{
}

/// Delivering a response leaves the slot of `id` present and terminal:
/// together with the lemma above, every id transitions exactly once.
pub proof fn lemma_complete_makes_terminal(m: Map<u64, SlotV>, id: u64, resp: Option<Seq<u8>>)
    ensures
        complete_spec(m, id, resp).contains_key(id),
        is_terminal(complete_spec(m, id, resp)[id]),
{
}

/// The whole life of one request id, in one statement: registered pending,
/// it becomes terminal on the first delivery with exactly that response, a
/// second delivery changes nothing, taking yields the response, and after
/// the take the slot is gone — so every issued id transitions exactly once
/// and is consumed at most once.
pub proof fn lemma_slot_lifecycle(
    m: Map<u64, SlotV>,
    id: u64,
    resp: Option<Seq<u8>>,
    resp2: Option<Seq<u8>>,
)
    requires
        !m.contains_key(id),
    ensures
        ({
            let delivered = complete_spec(m.insert(id, SlotV::Pending), id, resp);
            &&& delivered[id] == terminal_of(resp)
            &&& is_terminal(delivered[id])
            &&& complete_spec(delivered, id, resp2) == delivered
            &&& take_result_spec(delivered, id) == (match resp {
                Some(b) => Ok::<Seq<u8>, ClientError>(b),
                None => Err::<Seq<u8>, ClientError>(ClientError::ResponseFailure),
            })
            &&& !delivered.remove(id).contains_key(id)
        }),
{
}

/// Delivering a response for `id` touches no other slot.
pub proof fn lemma_complete_frame(m: Map<u64, SlotV>, id: u64, resp: Option<Seq<u8>>, other: u64)
    requires
        other != id,
    ensures
        complete_spec(m, id, resp).contains_key(other) == m.contains_key(other),
        m.contains_key(other) ==> complete_spec(m, id, resp)[other] == m[other],
{
}

} // verus!
