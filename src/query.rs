//! Outstanding queries and their one-shot responses.
use vstd::prelude::*;
use std::collections::HashMap;
use crate::location::{Location, LocationModel};

verus! {

broadcast use vstd::std_specs::hash::group_hash_axioms;

/// A response to a query.
#[derive(Debug, Clone, Copy, PartialEq, Eq, Structural)]
pub enum Response {
    Null,
    /// The index of the instruction that failed, if one did.
    ExecutionResult(Option<u32>),
    Version(u32),
    DispatchResult(bool),
}

/// The mathematical value of a query record.
pub enum SlotModel {
    Expecting(LocationModel),
    Received(Response),
}

/// A query record: awaiting a response from a location, or answered.
#[derive(Debug)]
pub enum ResponseSlot {
    Expecting(Location),
    Received(Response),
}

impl View for ResponseSlot {
    type V = SlotModel;

    open spec fn view(&self) -> SlotModel {
        match self {
            ResponseSlot::Expecting(l) => SlotModel::Expecting(l@),
            ResponseSlot::Received(r) => SlotModel::Received(*r),
        }
    }
}

/// The query table, keyed by query id.
pub struct QueryTable {
    slots: HashMap<u64, ResponseSlot>,
}

impl View for QueryTable {
    type V = Map<u64, SlotModel>;

    closed spec fn view(&self) -> Map<u64, SlotModel> {
        self.slots@.map_values(|s: ResponseSlot| s@)
    }
}

/// The table after a response to `query_id` arrives: an awaited record
/// becomes answered, anything else stays as it was.
pub open spec fn resolved(m: Map<u64, SlotModel>, query_id: u64, response: Response) -> Map<u64, SlotModel> {
    if m.contains_key(query_id) && m[query_id] is Expecting {
        m.insert(query_id, SlotModel::Received(response))
    } else {
        m
    }
}

/// Whether the table awaits a response to `query_id` from `origin`.
pub open spec fn expecting(m: Map<u64, SlotModel>, origin: LocationModel, query_id: u64) -> bool {
    m.contains_key(query_id) && m[query_id] == SlotModel::Expecting(origin)
}

/// The response recorded for `query_id`, if it was answered.
pub open spec fn response_of(m: Map<u64, SlotModel>, query_id: u64) -> Option<Response> {
    if m.contains_key(query_id) {
        match m[query_id] {
            SlotModel::Received(r) => Some(r),
            SlotModel::Expecting(_) => None,
        }
    } else {
        None
    }
}

impl QueryTable {
    /// A table with no queries.
    pub fn new() -> (r: QueryTable)
        ensures
            r@ == Map::<u64, SlotModel>::empty(),
    {
        let r = QueryTable { slots: HashMap::new() };
        assert(r@ =~= Map::<u64, SlotModel>::empty());
        r
    }

    /// Awaits a response to `query_id` from `from`, replacing any earlier
    /// record for that id.
    pub fn expect_response(&mut self, query_id: u64, from: Location)
        ensures
            final(self)@ == old(self)@.insert(query_id, SlotModel::Expecting(from@)),
    {
        let ghost fv = from@;
        self.slots.insert(query_id, ResponseSlot::Expecting(from));
        assert(self@ =~= old(self)@.insert(query_id, SlotModel::Expecting(fv)));
    }

    /// Whether a response to `query_id` is awaited from exactly `origin`.
    pub fn expecting_response(&self, origin: &Location, query_id: u64) -> (r: bool)
        ensures
            r == expecting(self@, origin@, query_id),
    {
        match self.slots.get(&query_id) {
            Some(ResponseSlot::Expecting(l)) => l.same(origin),
            _ => false,
        }
    }

    /// Records `response` for `query_id` if it is awaited; otherwise does
    /// nothing.
    pub fn on_response(&mut self, query_id: u64, response: Response)
        ensures
            final(self)@ == resolved(old(self)@, query_id, response),
    {
        let awaited = match self.slots.get(&query_id) {
            Some(ResponseSlot::Expecting(_)) => true,
            _ => false,
        };
        if awaited {
            self.slots.insert(query_id, ResponseSlot::Received(response));
            assert(self@ =~= old(self)@.insert(query_id, SlotModel::Received(response)));
        }
    }

    /// The response recorded for `query_id`, if it was answered; the record
    /// stays.
    pub fn response(&self, query_id: u64) -> (r: Option<Response>)
        ensures
            r == response_of(self@, query_id),
    {
        match self.slots.get(&query_id) {
            Some(ResponseSlot::Received(r)) => Some(*r),
            _ => None,
        }
    }
}

/// A second response never replaces the first: after two responses to the
/// same awaited query, the first is the one recorded, and the query is no
/// longer awaited from anyone.
pub proof fn law_first_response_wins(
    m: Map<u64, SlotModel>,
    query_id: u64,
    origin: LocationModel,
    first: Response,
    second: Response,
)
    requires
        expecting(m, origin, query_id),
    ensures
        response_of(resolved(resolved(m, query_id, first), query_id, second), query_id) == Some(first),
        forall|o: LocationModel| !expecting(resolved(m, query_id, first), o, query_id),
        resolved(resolved(m, query_id, first), query_id, second) == resolved(m, query_id, first),
{
}

} // verus!
