use xcm_policy::barrier::{Barrier, BarrierChain, MessageShape, OriginFilter, Verdict};
use xcm_policy::location::{Junction, Location};
use xcm_policy::query::QueryTable;

fn sibling(n: u32) -> Location {
    Location::with_junction(1, Junction::Parachain(n))
}

#[test]
fn first_filter_wins() {
    let chain = BarrierChain::new(vec![
        Barrier::AllowUnpaidExecutionFrom(OriginFilter::Everything),
        Barrier::AllowUnpaidExecutionFrom(OriginFilter::Only(vec![])),
    ]);
    let q = QueryTable::new();
    let mut credit: u64 = 0;
    for m in [MessageShape::Other, MessageShape::Subscription, MessageShape::QueryResponse(1)] {
        assert_eq!(chain.should_execute(&sibling(1), &m, 1_000, &mut credit, &q), Verdict::Admit);
    }
    assert_eq!(credit, 0);
}

#[test]
fn every_filter_declining_denies() {
    let chain = BarrierChain::new(vec![
        Barrier::TakeWeightCredit,
        Barrier::AllowUnpaidExecutionFrom(OriginFilter::Only(vec![sibling(2)])),
    ]);
    let q = QueryTable::new();
    let mut credit: u64 = 5;
    assert_eq!(chain.should_execute(&sibling(1), &MessageShape::Other, 10, &mut credit, &q), Verdict::Deny);
    assert_eq!(credit, 5);
    assert_eq!(chain.should_execute(&sibling(2), &MessageShape::Other, 10, &mut credit, &q), Verdict::Admit);
    assert_eq!(credit, 5);
}

#[test]
fn weight_credit_is_spent_when_it_admits() {
    let chain = BarrierChain::new(vec![Barrier::TakeWeightCredit]);
    let q = QueryTable::new();
    let mut credit: u64 = 30;
    assert_eq!(chain.should_execute(&sibling(1), &MessageShape::Other, 10, &mut credit, &q), Verdict::Admit);
    assert_eq!(credit, 20);
    assert_eq!(chain.should_execute(&sibling(1), &MessageShape::Other, 25, &mut credit, &q), Verdict::Deny);
    assert_eq!(credit, 20);
}

#[test]
fn paid_execution_needs_enough_weight_bought() {
    let chain = BarrierChain::new(vec![Barrier::AllowTopLevelPaidExecutionFrom(OriginFilter::Only(vec![
        sibling(1),
    ]))]);
    let q = QueryTable::new();
    let mut credit: u64 = 0;
    let enough = MessageShape::PaidExecution { weight_limit: Some(50) };
    let short = MessageShape::PaidExecution { weight_limit: Some(49) };
    let unlimited = MessageShape::PaidExecution { weight_limit: None };
    assert_eq!(chain.should_execute(&sibling(1), &enough, 50, &mut credit, &q), Verdict::Admit);
    assert_eq!(chain.should_execute(&sibling(1), &short, 50, &mut credit, &q), Verdict::Deny);
    assert_eq!(chain.should_execute(&sibling(1), &unlimited, 50, &mut credit, &q), Verdict::Admit);
    assert_eq!(chain.should_execute(&sibling(2), &enough, 50, &mut credit, &q), Verdict::Deny);
    assert_eq!(chain.should_execute(&sibling(1), &MessageShape::Other, 50, &mut credit, &q), Verdict::Deny);
}

#[test]
fn known_query_responses_are_admitted() {
    let chain = BarrierChain::new(vec![Barrier::AllowKnownQueryResponses]);
    let mut q = QueryTable::new();
    q.expect_response(9, sibling(1));
    let mut credit: u64 = 0;
    let m = MessageShape::QueryResponse(9);
    assert_eq!(chain.should_execute(&sibling(1), &m, 10, &mut credit, &q), Verdict::Admit);
    assert_eq!(chain.should_execute(&sibling(2), &m, 10, &mut credit, &q), Verdict::Deny);
    let other = MessageShape::QueryResponse(8);
    assert_eq!(chain.should_execute(&sibling(1), &other, 10, &mut credit, &q), Verdict::Deny);
}

#[test]
fn subscriptions_from_listed_origins() {
    let chain = BarrierChain::new(vec![Barrier::AllowSubscriptionsFrom(OriginFilter::Only(vec![sibling(3)]))]);
    let q = QueryTable::new();
    let mut credit: u64 = 0;
    assert_eq!(chain.should_execute(&sibling(3), &MessageShape::Subscription, 1, &mut credit, &q), Verdict::Admit);
    assert_eq!(chain.should_execute(&sibling(3), &MessageShape::Other, 1, &mut credit, &q), Verdict::Deny);
    assert_eq!(chain.should_execute(&sibling(4), &MessageShape::Subscription, 1, &mut credit, &q), Verdict::Deny);
}
