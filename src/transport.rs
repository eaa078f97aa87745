//! Two-phase sending: price a message first, then deliver it.
use vstd::prelude::*;
use crate::asset::{Bundle, BundleModel};
use crate::location::{Location, LocationModel};

verus! {

/// Why a message could not be sent.
#[derive(Debug, Clone, Copy, PartialEq, Eq, Structural)]
pub enum SendError {
    NotApplicable,
    Transport,
    Unroutable,
    DestinationUnsupported,
    ExceedsMaxMessageSize,
    MissingArgument,
    Fees,
}

/// A priced message, ready to be delivered exactly once.
pub struct SendTicket<M> {
    dest: Location,
    message: M,
}

impl<M> SendTicket<M> {
    /// The destination this ticket delivers to.
    pub closed spec fn destination(&self) -> LocationModel {
        self.dest@
    }

    /// The message this ticket delivers.
    pub closed spec fn message(&self) -> M {
        self.message
    }
}

/// A sender that charges a fixed price per message and records what it
/// delivered.
pub struct MessageSender<M> {
    price: Bundle,
    sent: Vec<(Location, M)>,
}

impl<M> MessageSender<M> {
    pub closed spec fn wf(&self) -> bool {
        self.price.wf()
    }

    /// The price of one message.
    pub closed spec fn price(&self) -> BundleModel {
        self.price@
    }

    /// What was delivered so far, oldest first.
    pub closed spec fn sent(&self) -> Seq<(LocationModel, M)> {
        self.sent@.map_values(|e: (Location, M)| (e.0@, e.1))
    }

    /// A sender charging nothing that has sent nothing.
    pub fn new() -> (r: MessageSender<M>)
        ensures
            r.wf(),
            r.price() == BundleModel::empty(),
            r.sent() == Seq::<(LocationModel, M)>::empty(),
    {
        let r = MessageSender { price: Bundle::new(), sent: Vec::new() };
        assert(r.sent() =~= Seq::<(LocationModel, M)>::empty());
        r
    }

    /// Charges `price` for each later message.
    pub fn set_send_price(&mut self, price: Bundle)
        requires
            price.wf(),
        ensures
            final(self).wf(),
            final(self).price() == price@,
            final(self).sent() == old(self).sent(),
    {
        self.price = price;
    }

    /// Prices `message` for `dest` and hands back a ticket for it, without
    /// sending anything.
    pub fn validate(&self, dest: Location, message: M) -> (r: Result<(SendTicket<M>, Bundle), SendError>)
        requires
            self.wf(),
        ensures
            r.is_ok(),
            match r {
                Ok((t, p)) => {
                    &&& t.destination() == dest@
                    &&& t.message() == message
                    &&& p.wf()
                    &&& p@ == self.price()
                },
                Err(_) => true,
            },
    {
        Ok((SendTicket { dest, message }, self.price.clone()))
    }

    /// Delivers a validated message.
    pub fn deliver(&mut self, ticket: SendTicket<M>) -> (r: Result<(), SendError>)
        ensures
            r.is_ok(),
            final(self).wf() == old(self).wf(),
            final(self).price() == old(self).price(),
            final(self).sent() == old(self).sent().push((ticket.destination(), ticket.message())),
    {
        let ghost e = (ticket.dest@, ticket.message);
        self.sent.push((ticket.dest, ticket.message));
        assert(self.sent() =~= old(self).sent().push(e));
        Ok(())
    }

    /// The destinations delivered to so far, oldest first.
    pub fn sent_destinations(&self) -> (r: Vec<Location>)
        ensures
            r@.len() == self.sent().len(),
            forall|i: int| 0 <= i < r@.len() ==> #[trigger] r@[i]@ == self.sent()[i].0,
    {
        let mut r: Vec<Location> = Vec::new();
        let mut i: usize = 0;
        while i < self.sent.len()
            invariant
                i <= self.sent@.len(),
                r@.len() == i,
                forall|j: int| 0 <= j < i ==> #[trigger] r@[j]@ == self.sent()[j].0,
            decreases self.sent@.len() - i,
        {
            r.push(self.sent[i].0.clone());
            i = i + 1;
        }
        r
    }
}

} // verus!
