use xcm_policy::asset::{Asset, Bundle};
use xcm_policy::location::{Junction, Location};
use xcm_policy::transport::MessageSender;

#[test]
fn validate_prices_without_sending() {
    let mut s: MessageSender<u32> = MessageSender::new();
    s.set_send_price(Bundle::from_asset(Asset::fungible(Location::here(), 3)));
    let dest = Location::with_junction(1, Junction::Parachain(4));
    let (ticket, price) = s.validate(dest.clone(), 17).unwrap();
    assert_eq!(price.amount(&Location::here()), 3);
    assert!(s.sent_destinations().is_empty());
    s.deliver(ticket).unwrap();
    let sent = s.sent_destinations();
    assert_eq!(sent.len(), 1);
    assert!(sent[0] == dest);
}
