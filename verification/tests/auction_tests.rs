//! Auction lifecycle: create, start, bid, cancel, claim, and the admin
//! list that authorizes starts and cancellations.

use marketplace::error::ContractError;
use marketplace::instr::Instruction;
use marketplace::market::Market;
use marketplace::state::InstantiateMsg;

fn new_market() -> Market {
    Market::instantiate(InstantiateMsg {
        owner: "owner".to_string(),
        collection_fabric_address: "fee_recipient".to_string(),
        native_denom: "coin".to_string(),
        royalty: 5,
    })
}

fn mp() -> String {
    "marketplace".to_string()
}

/// Create an auction owned by `seller` with the given prices and times,
/// the ownership query answering `seller` as the host would.
fn create(
    m: &mut Market,
    seller: &str,
    coll: &str,
    token: &str,
    start_price: u128,
    step: u128,
    start_time: u64,
    end_time: u64,
    royalty: u128,
    now: u64,
) -> Result<Vec<Instruction>, ContractError> {
    m.execute_list_nft_for_auction(
        seller.to_string(),
        coll.to_string(),
        token.to_string(),
        start_price,
        step,
        start_time,
        end_time,
        royalty,
        &seller.to_string(),
        now,
        &mp(),
    )
}

fn assert_custody(i: &Instruction, coll: &str, token: &str, dest: &str) {
    match i {
        Instruction::TransferCustody { collection, token_id, to } => {
            assert_eq!(collection, coll);
            assert_eq!(token_id, token);
            assert_eq!(to, dest);
        }
        _ => panic!("expected a custody transfer"),
    }
}

fn assert_pay(i: &Instruction, dest: &str, coin: &str, amt: u128) {
    match i {
        Instruction::Pay { to, denom, amount } => {
            assert_eq!(to, dest);
            assert_eq!(denom, coin);
            assert_eq!(*amount, amt);
        }
        _ => panic!("expected a payment"),
    }
}

#[test]
fn create_auction_takes_custody() {
    let mut m = new_market();
    let instrs = create(&mut m, "alice", "C", "1", 10, 2, 100, 200, 5, 50).unwrap();
    assert_eq!(instrs.len(), 1);
    assert_custody(&instrs[0], "C", "1", "marketplace");
    assert_eq!(m.query_auction_count(), 1);
    let a = m.query_auction_by_index(&"C".to_string(), &"1".to_string()).unwrap();
    assert_eq!(a.seller, "alice");
    assert_eq!(a.start_price, 10);
    assert_eq!(a.current_price, 0);
    assert!(a.current_bidder.is_none());
}

#[test]
fn create_auction_validations() {
    let mut m = new_market();
    // the ownership query disagrees with the claimed owner
    let r = m.execute_list_nft_for_auction(
        "alice".to_string(),
        "C".to_string(),
        "1".to_string(),
        10,
        2,
        100,
        200,
        5,
        &"someone_else".to_string(),
        50,
        &mp(),
    );
    assert_eq!(r.unwrap_err(), ContractError::AuthorizationError);
    // zero start price
    let r = create(&mut m, "alice", "C", "1", 0, 2, 100, 200, 5, 50);
    assert_eq!(r.unwrap_err(), ContractError::ValidationError);
    // zero bid step
    let r = create(&mut m, "alice", "C", "1", 10, 0, 100, 200, 5, 50);
    assert_eq!(r.unwrap_err(), ContractError::ValidationError);
    // end before start
    let r = create(&mut m, "alice", "C", "1", 10, 2, 200, 100, 5, 50);
    assert_eq!(r.unwrap_err(), ContractError::ValidationError);
    // start in the past
    let r = create(&mut m, "alice", "C", "1", 10, 2, 100, 200, 5, 150);
    assert_eq!(r.unwrap_err(), ContractError::ValidationError);
    assert_eq!(m.query_auction_count(), 0);
}

#[test]
fn create_auction_on_listed_token_conflicts() {
    let mut m = new_market();
    m.execute_list_nft_for_sale(
        "alice".to_string(),
        "C".to_string(),
        "1".to_string(),
        100,
        5,
        &mp(),
    )
    .unwrap();
    let r = create(&mut m, "alice", "C", "1", 10, 2, 100, 200, 5, 50);
    assert_eq!(r.unwrap_err(), ContractError::StateConflict);
    // and the other way round: a live auction blocks a listing
    let mut m2 = new_market();
    create(&mut m2, "alice", "C", "1", 10, 2, 100, 200, 5, 50).unwrap();
    let r = m2.execute_list_nft_for_sale(
        "alice".to_string(),
        "C".to_string(),
        "1".to_string(),
        100,
        5,
        &mp(),
    );
    assert_eq!(r.unwrap_err(), ContractError::StateConflict);
}

#[test]
fn start_auction_opens_bidding() {
    let mut m = new_market();
    create(&mut m, "alice", "C", "1", 10, 2, 100, 200, 5, 50).unwrap();
    // too early
    let r = m.start_auction(&"alice".to_string(), "C".to_string(), "1".to_string(), 99);
    assert_eq!(r.unwrap_err(), ContractError::StateConflict);
    // a stranger may not start it
    let r = m.start_auction(&"mallory".to_string(), "C".to_string(), "1".to_string(), 100);
    assert_eq!(r.unwrap_err(), ContractError::AuthorizationError);
    // the seller may
    m.start_auction(&"alice".to_string(), "C".to_string(), "1".to_string(), 100).unwrap();
    // and only once
    let r = m.start_auction(&"alice".to_string(), "C".to_string(), "1".to_string(), 101);
    assert_eq!(r.unwrap_err(), ContractError::StateConflict);
}

#[test]
fn admin_may_start_auction() {
    let mut m = new_market();
    create(&mut m, "alice", "C", "1", 10, 2, 100, 200, 5, 50).unwrap();
    m.add_admin(&"owner".to_string(), "carol".to_string()).unwrap();
    m.start_auction(&"carol".to_string(), "C".to_string(), "1".to_string(), 100).unwrap();
}

#[test]
fn bid_steps_must_respect_minimum() {
    // start price 10, minimum step 2: a first bid of 10 is accepted, 11
    // is rejected since 11 < 10 + 2, and 12 is accepted refunding 10
    let mut m = new_market();
    create(&mut m, "alice", "C", "1", 10, 2, 100, 200, 5, 50).unwrap();
    m.start_auction(&"alice".to_string(), "C".to_string(), "1".to_string(), 100).unwrap();
    let instrs = m
        .bid_nft(&"b1".to_string(), "C".to_string(), "1".to_string(), 10, 110, &mp())
        .unwrap();
    assert_eq!(instrs.len(), 1);
    assert_pay(&instrs[0], "marketplace", "coin", 10);
    let r = m.bid_nft(&"b2".to_string(), "C".to_string(), "1".to_string(), 11, 120, &mp());
    assert_eq!(r.unwrap_err(), ContractError::ValidationError);
    let instrs = m
        .bid_nft(&"b2".to_string(), "C".to_string(), "1".to_string(), 12, 130, &mp())
        .unwrap();
    assert_eq!(instrs.len(), 2);
    assert_pay(&instrs[0], "marketplace", "coin", 12);
    assert_pay(&instrs[1], "b1", "coin", 10);
    let a = m.query_auction_by_index(&"C".to_string(), &"1".to_string()).unwrap();
    assert_eq!(a.current_price, 12);
    assert_eq!(a.current_bidder.as_deref(), Some("b2"));
}

#[test]
fn bid_outside_window_rejected() {
    let mut m = new_market();
    create(&mut m, "alice", "C", "1", 10, 2, 100, 200, 5, 50).unwrap();
    // bidding not open yet
    let r = m.bid_nft(&"b1".to_string(), "C".to_string(), "1".to_string(), 10, 120, &mp());
    assert_eq!(r.unwrap_err(), ContractError::StateConflict);
    m.start_auction(&"alice".to_string(), "C".to_string(), "1".to_string(), 100).unwrap();
    // below the start price
    let r = m.bid_nft(&"b1".to_string(), "C".to_string(), "1".to_string(), 9, 120, &mp());
    assert_eq!(r.unwrap_err(), ContractError::ValidationError);
    // at or past the end time
    let r = m.bid_nft(&"b1".to_string(), "C".to_string(), "1".to_string(), 10, 200, &mp());
    assert_eq!(r.unwrap_err(), ContractError::StateConflict);
    // on a token never auctioned
    let r = m.bid_nft(&"b1".to_string(), "D".to_string(), "9".to_string(), 10, 120, &mp());
    assert_eq!(r.unwrap_err(), ContractError::NotFoundError);
}

#[test]
fn cancel_auction_before_start_returns_token() {
    let mut m = new_market();
    create(&mut m, "alice", "C", "1", 10, 2, 100, 200, 5, 50).unwrap();
    let instrs = m
        .cancel_auction(&"alice".to_string(), "C".to_string(), "1".to_string())
        .unwrap();
    assert_eq!(instrs.len(), 1);
    assert_custody(&instrs[0], "C", "1", "alice");
    // the record stays, terminally cancelled, and a fresh auction may
    // replace it
    create(&mut m, "alice", "C", "1", 20, 3, 300, 400, 5, 250).unwrap();
}

#[test]
fn cancel_auction_after_start_conflicts() {
    let mut m = new_market();
    create(&mut m, "alice", "C", "1", 10, 2, 100, 200, 5, 50).unwrap();
    m.start_auction(&"alice".to_string(), "C".to_string(), "1".to_string(), 100).unwrap();
    let r = m.cancel_auction(&"alice".to_string(), "C".to_string(), "1".to_string());
    assert_eq!(r.unwrap_err(), ContractError::StateConflict);
}

#[test]
fn claim_with_winner_splits_royalty() {
    let mut m = new_market();
    create(&mut m, "alice", "C", "1", 10, 2, 100, 200, 10, 50).unwrap();
    m.start_auction(&"alice".to_string(), "C".to_string(), "1".to_string(), 100).unwrap();
    m.bid_nft(&"b1".to_string(), "C".to_string(), "1".to_string(), 25, 110, &mp()).unwrap();
    let instrs = m.claim_nft("C".to_string(), "1".to_string(), 200).unwrap();
    assert_eq!(instrs.len(), 3);
    assert_custody(&instrs[0], "C", "1", "b1");
    // floor(25 * 10 / 100) = 2 to the fee recipient, 23 to the seller
    assert_pay(&instrs[1], "alice", "coin", 23);
    assert_pay(&instrs[2], "fee_recipient", "coin", 2);
}

#[test]
fn claim_without_bids_returns_token_and_pays_nobody() {
    let mut m = new_market();
    create(&mut m, "alice", "C", "1", 10, 2, 100, 200, 5, 50).unwrap();
    m.start_auction(&"alice".to_string(), "C".to_string(), "1".to_string(), 100).unwrap();
    let instrs = m.claim_nft("C".to_string(), "1".to_string(), 200).unwrap();
    assert_eq!(instrs.len(), 1);
    assert_custody(&instrs[0], "C", "1", "alice");
}

#[test]
fn claim_twice_conflicts() {
    let mut m = new_market();
    create(&mut m, "alice", "C", "1", 10, 2, 100, 200, 5, 50).unwrap();
    m.start_auction(&"alice".to_string(), "C".to_string(), "1".to_string(), 100).unwrap();
    m.claim_nft("C".to_string(), "1".to_string(), 200).unwrap();
    let r = m.claim_nft("C".to_string(), "1".to_string(), 201);
    assert_eq!(r.unwrap_err(), ContractError::StateConflict);
}

#[test]
fn claim_before_end_conflicts() {
    let mut m = new_market();
    create(&mut m, "alice", "C", "1", 10, 2, 100, 200, 5, 50).unwrap();
    m.start_auction(&"alice".to_string(), "C".to_string(), "1".to_string(), 100).unwrap();
    let r = m.claim_nft("C".to_string(), "1".to_string(), 199);
    assert_eq!(r.unwrap_err(), ContractError::StateConflict);
}

#[test]
fn admin_list_is_owner_governed() {
    let mut m = new_market();
    // only the owner adds admins
    let r = m.add_admin(&"mallory".to_string(), "carol".to_string());
    assert_eq!(r.unwrap_err(), ContractError::AuthorizationError);
    m.add_admin(&"owner".to_string(), "carol".to_string()).unwrap();
    assert!(m.query_is_admin(&"carol".to_string()));
    assert!(!m.query_is_admin(&"dave".to_string()));
    // re-adding an existing admin fails
    let r = m.add_admin(&"owner".to_string(), "carol".to_string());
    assert_eq!(r.unwrap_err(), ContractError::StateConflict);
    // removing a non-admin fails
    let r = m.remove_admin(&"owner".to_string(), &"dave".to_string());
    assert_eq!(r.unwrap_err(), ContractError::NotFoundError);
    // only the owner removes admins
    let r = m.remove_admin(&"carol".to_string(), &"carol".to_string());
    assert_eq!(r.unwrap_err(), ContractError::AuthorizationError);
    m.remove_admin(&"owner".to_string(), &"carol".to_string()).unwrap();
    assert!(!m.query_is_admin(&"carol".to_string()));
}

#[test]
fn queries_on_missing_keys_are_not_found() {
    let m = new_market();
    let r = m.query_auction_by_index(&"C".to_string(), &"1".to_string());
    assert_eq!(r.unwrap_err(), ContractError::NotFoundError);
    assert_eq!(m.query_auction_count(), 0);
    assert_eq!(m.query_listing_count(), 0);
}
