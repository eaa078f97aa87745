use xcm_policy::location::{Junction, Location};
use xcm_policy::query::{QueryTable, Response};

fn origin() -> Location {
    Location::with_junction(1, Junction::Parachain(1000))
}

#[test]
fn first_response_wins() {
    let mut q = QueryTable::new();
    q.expect_response(7, origin());
    assert!(q.expecting_response(&origin(), 7));
    assert_eq!(q.response(7), None);
    q.on_response(7, Response::Version(1));
    assert!(!q.expecting_response(&origin(), 7));
    q.on_response(7, Response::Version(2));
    assert_eq!(q.response(7), Some(Response::Version(1)));
    assert_eq!(q.response(7), Some(Response::Version(1)));
}

#[test]
fn expecting_needs_exact_origin() {
    let mut q = QueryTable::new();
    q.expect_response(1, origin());
    assert!(!q.expecting_response(&Location::parent(), 1));
    assert!(!q.expecting_response(&origin(), 2));
}

#[test]
fn response_to_unknown_query_is_ignored() {
    let mut q = QueryTable::new();
    q.on_response(3, Response::Null);
    assert_eq!(q.response(3), None);
    assert!(!q.expecting_response(&origin(), 3));
}

#[test]
fn expect_overwrites_earlier_record() {
    let mut q = QueryTable::new();
    q.expect_response(4, origin());
    q.on_response(4, Response::ExecutionResult(None));
    q.expect_response(4, Location::parent());
    assert_eq!(q.response(4), None);
    assert!(q.expecting_response(&Location::parent(), 4));
    q.on_response(4, Response::DispatchResult(true));
    assert_eq!(q.response(4), Some(Response::DispatchResult(true)));
}
