//! The ordered chain of admission filters that a message must pass.
use vstd::prelude::*;
use crate::location::{Location, LocationModel};
use crate::query::{expecting, QueryTable, SlotModel};

verus! {

/// The parts of a message that the filters look at.
#[derive(Debug, Clone, Copy, PartialEq, Eq, Structural)]
pub enum MessageShape {
    /// A lone response to the query `query_id`.
    QueryResponse(u64),
    /// Pays for its own execution first, buying at most `weight_limit`
    /// (without a limit where it is `None`).
    PaidExecution { weight_limit: Option<u64> },
    /// A lone version subscription or cancellation.
    Subscription,
    /// Anything else.
    Other,
}

/// Which origins a filter accepts.
#[derive(Debug, Clone)]
pub enum OriginFilter {
    Everything,
    Only(Vec<Location>),
}

/// The mathematical value of an origin filter.
pub enum OriginsModel {
    Everything,
    Only(Seq<LocationModel>),
}

impl View for OriginFilter {
    type V = OriginsModel;

    open spec fn view(&self) -> OriginsModel {
        match self {
            OriginFilter::Everything => OriginsModel::Everything,
            OriginFilter::Only(v) => OriginsModel::Only(locations_view(v@)),
        }
    }
}

/// The values of a list of locations.
pub open spec fn locations_view(v: Seq<Location>) -> Seq<LocationModel> {
    v.map_values(|l: Location| l@)
}

/// Whether `f` accepts `origin`.
pub open spec fn origin_allowed(f: OriginsModel, origin: LocationModel) -> bool {
    match f {
        OriginsModel::Everything => true,
        OriginsModel::Only(s) => s.contains(origin),
    }
}

impl OriginFilter {
    /// Whether this filter accepts `origin`.
    pub fn allows(&self, origin: &Location) -> (r: bool)
        ensures
            r == origin_allowed(self@, origin@),
    {
        match self {
            OriginFilter::Everything => true,
            OriginFilter::Only(v) => {
                let ghost s = locations_view(v@);
                let mut i: usize = 0;
                while i < v.len()
                    invariant
                        *self == OriginFilter::Only(*v),
                        i <= v@.len(),
                        s == locations_view(v@),
                        forall|j: int| 0 <= j < i ==> #[trigger] s[j] != origin@,
                    decreases v@.len() - i,
                {
                    if v[i].same(origin) {
                        assert(s[i as int] == v@[i as int]@);
                        assert(s.contains(origin@));
                        return true;
                    }
                    i = i + 1;
                }
                false
            },
        }
    }
}

/// One admission filter.
#[derive(Debug, Clone)]
pub enum Barrier {
    /// Admits a message whose weight the remaining weight credit covers,
    /// and spends that credit.
    TakeWeightCredit,
    /// Admits a lone response to a query awaited from the message's origin.
    AllowKnownQueryResponses,
    /// Admits a message that pays for at least its weight, from an accepted
    /// origin.
    AllowTopLevelPaidExecutionFrom(OriginFilter),
    /// Admits any message from an accepted origin.
    AllowUnpaidExecutionFrom(OriginFilter),
    /// Admits a lone version subscription request from an accepted origin.
    AllowSubscriptionsFrom(OriginFilter),
}

/// The mathematical value of a filter.
pub enum BarrierModel {
    TakeWeightCredit,
    AllowKnownQueryResponses,
    AllowTopLevelPaidExecutionFrom(OriginsModel),
    AllowUnpaidExecutionFrom(OriginsModel),
    AllowSubscriptionsFrom(OriginsModel),
}

impl View for Barrier {
    type V = BarrierModel;

    open spec fn view(&self) -> BarrierModel {
        match self {
            Barrier::TakeWeightCredit => BarrierModel::TakeWeightCredit,
            Barrier::AllowKnownQueryResponses => BarrierModel::AllowKnownQueryResponses,
            Barrier::AllowTopLevelPaidExecutionFrom(f) => BarrierModel::AllowTopLevelPaidExecutionFrom(f@),
            Barrier::AllowUnpaidExecutionFrom(f) => BarrierModel::AllowUnpaidExecutionFrom(f@),
            Barrier::AllowSubscriptionsFrom(f) => BarrierModel::AllowSubscriptionsFrom(f@),
        }
    }
}

/// Whether the filter `b` admits `message` from `origin` with weight
/// `weight`, given the weight credit and the query table.
pub open spec fn admits(
    b: BarrierModel,
    origin: LocationModel,
    message: MessageShape,
    weight: u64,
    credit: u64,
    queries: Map<u64, SlotModel>,
) -> bool {
    match b {
        BarrierModel::TakeWeightCredit => weight <= credit,
        BarrierModel::AllowKnownQueryResponses => match message {
            MessageShape::QueryResponse(id) => expecting(queries, origin, id),
            _ => false,
        },
        BarrierModel::AllowTopLevelPaidExecutionFrom(f) => origin_allowed(f, origin) && match message {
            MessageShape::PaidExecution { weight_limit } => match weight_limit {
                Some(limit) => weight <= limit,
                None => true,
            },
            _ => false,
        },
        BarrierModel::AllowUnpaidExecutionFrom(f) => origin_allowed(f, origin),
        BarrierModel::AllowSubscriptionsFrom(f) => origin_allowed(f, origin) && message
            == MessageShape::Subscription,
    }
}

/// The first filter of `chain` that admits the message, if any.
pub open spec fn first_admitting(
    chain: Seq<BarrierModel>,
    origin: LocationModel,
    message: MessageShape,
    weight: u64,
    credit: u64,
    queries: Map<u64, SlotModel>,
) -> Option<BarrierModel>
    decreases chain.len(),
{
    if chain.len() == 0 {
        None
    } else if admits(chain[0], origin, message, weight, credit, queries) {
        Some(chain[0])
    } else {
        first_admitting(chain.drop_first(), origin, message, weight, credit, queries)
    }
}

/// Whether a message may execute.
#[derive(Debug, Clone, Copy, PartialEq, Eq, Structural)]
pub enum Verdict {
    Admit,
    Deny,
}

impl Barrier {
    /// Whether this filter admits the message.
    pub fn admits(
        &self,
        origin: &Location,
        message: &MessageShape,
        weight: u64,
        credit: u64,
        queries: &QueryTable,
    ) -> (r: bool)
        ensures
            r == admits(self@, origin@, *message, weight, credit, queries@),
    {
        match self {
            Barrier::TakeWeightCredit => weight <= credit,
            Barrier::AllowKnownQueryResponses => match message {
                MessageShape::QueryResponse(id) => queries.expecting_response(origin, *id),
                _ => false,
            },
            Barrier::AllowTopLevelPaidExecutionFrom(f) => {
                let paid = match message {
                    MessageShape::PaidExecution { weight_limit } => match weight_limit {
                        Some(limit) => weight <= *limit,
                        None => true,
                    },
                    _ => false,
                };
                paid && f.allows(origin)
            },
            Barrier::AllowUnpaidExecutionFrom(f) => f.allows(origin),
            Barrier::AllowSubscriptionsFrom(f) => *message == MessageShape::Subscription && f.allows(
                origin,
            ),
        }
    }
}

/// A fixed-order chain of filters; the first one that admits a message
/// decides.
pub struct BarrierChain {
    pub filters: Vec<Barrier>,
}

impl View for BarrierChain {
    type V = Seq<BarrierModel>;

    open spec fn view(&self) -> Seq<BarrierModel> {
        self.filters@.map_values(|b: Barrier| b@)
    }
}

impl BarrierChain {
    /// A chain of `filters`, tried in this order.
    pub fn new(filters: Vec<Barrier>) -> (r: BarrierChain)
        ensures
            r.filters@ == filters@,
    {
        BarrierChain { filters }
    }

    /// Admits the message where some filter does, the first such deciding;
    /// denies it, changing nothing, where none does. Weight credit is spent
    /// only where the credit filter is the one that admits.
    pub fn should_execute(
        &self,
        origin: &Location,
        message: &MessageShape,
        weight: u64,
        credit: &mut u64,
        queries: &QueryTable,
    ) -> (r: Verdict)
        ensures
            ({
                let first = first_admitting(self@, origin@, *message, weight, *old(credit), queries@);
                &&& (r == Verdict::Admit) == first.is_some()
                &&& *final(credit) == if first == Some(BarrierModel::TakeWeightCredit) {
                    (*old(credit) - weight) as u64
                } else {
                    *old(credit)
                }
            }),
    {
        let ghost s = self@;
        let ghost c0 = *credit;
        assert(s.subrange(0, s.len() as int) =~= s);
        let mut i: usize = 0;
        while i < self.filters.len()
            invariant
                i <= s.len(),
                s == self@,
                s.len() == self.filters@.len(),
                *credit == c0,
                c0 == *old(credit),
                first_admitting(s, origin@, *message, weight, c0, queries@) == first_admitting(
                    s.subrange(i as int, s.len() as int),
                    origin@,
                    *message,
                    weight,
                    c0,
                    queries@,
                ),
            decreases s.len() - i,
        {
            let ghost rest = s.subrange(i as int, s.len() as int);
            assert(rest[0] == s[i as int]);
            assert(rest.drop_first() =~= s.subrange(i + 1, s.len() as int));
            assert(s[i as int] == self.filters@[i as int]@);
            if self.filters[i].admits(origin, message, weight, *credit, queries) {
                assert(first_admitting(rest, origin@, *message, weight, c0, queries@) == Some(s[i as int]));
                let takes_credit = match &self.filters[i] {
                    Barrier::TakeWeightCredit => true,
                    _ => false,
                };
                assert(takes_credit == (s[i as int] == BarrierModel::TakeWeightCredit));
                if takes_credit {
                    *credit = *credit - weight;
                }
                return Verdict::Admit;
            }
            i = i + 1;
        }
        Verdict::Deny
    }
}

/// The first filter that admits a message decides, whatever follows it; in
/// particular a chain that starts by accepting every origin admits every
/// message, even where every later filter would deny it.
pub proof fn law_first_filter_wins(
    chain: Seq<BarrierModel>,
    origin: LocationModel,
    message: MessageShape,
    weight: u64,
    credit: u64,
    queries: Map<u64, SlotModel>,
)
    requires
        chain.len() > 0,
    ensures
        admits(chain[0], origin, message, weight, credit, queries) ==> first_admitting(
            chain,
            origin,
            message,
            weight,
            credit,
            queries,
        ) == Some(chain[0]),
        chain[0] == BarrierModel::AllowUnpaidExecutionFrom(OriginsModel::Everything)
            ==> first_admitting(chain, origin, message, weight, credit, queries).is_some(),
{
}

} // verus!
