//! Fixed-price sale lifecycle: list, cancel, buy, batch buy.

use marketplace::error::ContractError;
use marketplace::instr::Instruction;
use marketplace::market::Market;
use marketplace::state::InstantiateMsg;

fn new_market() -> Market {
    Market::instantiate(InstantiateMsg {
        owner: "owner".to_string(),
        collection_fabric_address: "fee_recipient".to_string(),
        native_denom: "coin".to_string(),
        royalty: 5,
    })
}

fn mp() -> String {
    "marketplace".to_string()
}

fn list(m: &mut Market, seller: &str, coll: &str, token: &str, price: u128, royalty: u128) {
    m.execute_list_nft_for_sale(
        seller.to_string(),
        coll.to_string(),
        token.to_string(),
        price,
        royalty,
        &mp(),
    )
    .expect("listing should succeed");
}

fn assert_custody(i: &Instruction, coll: &str, token: &str, dest: &str) {
    match i {
        Instruction::TransferCustody { collection, token_id, to } => {
            assert_eq!(collection, coll);
            assert_eq!(token_id, token);
            assert_eq!(to, dest);
        }
        _ => panic!("expected a custody transfer"),
    }
}

fn assert_pay(i: &Instruction, dest: &str, coin: &str, amt: u128) {
    match i {
        Instruction::Pay { to, denom, amount } => {
            assert_eq!(to, dest);
            assert_eq!(denom, coin);
            assert_eq!(*amount, amt);
        }
        _ => panic!("expected a payment"),
    }
}

#[test]
fn list_records_listing_and_deposit() {
    let mut m = new_market();
    let instrs = m
        .execute_list_nft_for_sale(
            "alice".to_string(),
            "C".to_string(),
            "1".to_string(),
            100,
            5,
            &mp(),
        )
        .unwrap();
    assert_eq!(instrs.len(), 1);
    assert_custody(&instrs[0], "C", "1", "marketplace");
    assert_eq!(m.query_listing_count(), 1);
    let l = m.query_listing_by_index(&"C".to_string(), &"1".to_string()).unwrap();
    assert_eq!(l.seller, "alice");
    assert_eq!(l.price, 100);
    assert_eq!(l.royalty, 5);
}

#[test]
fn list_same_token_twice_conflicts() {
    let mut m = new_market();
    list(&mut m, "alice", "C", "1", 100, 5);
    let r = m.execute_list_nft_for_sale(
        "alice".to_string(),
        "C".to_string(),
        "1".to_string(),
        200,
        5,
        &mp(),
    );
    assert_eq!(r.unwrap_err(), ContractError::StateConflict);
    assert_eq!(m.query_listing_count(), 1);
}

#[test]
fn list_with_royalty_over_hundred_rejected() {
    let mut m = new_market();
    let r = m.execute_list_nft_for_sale(
        "alice".to_string(),
        "C".to_string(),
        "1".to_string(),
        100,
        101,
        &mp(),
    );
    assert_eq!(r.unwrap_err(), ContractError::ValidationError);
}

#[test]
fn cancel_listing_returns_token_to_seller() {
    let mut m = new_market();
    list(&mut m, "alice", "C", "1", 100, 5);
    let instrs = m
        .cancel_listing(&"alice".to_string(), "C".to_string(), "1".to_string())
        .unwrap();
    assert_eq!(instrs.len(), 1);
    assert_custody(&instrs[0], "C", "1", "alice");
    assert_eq!(m.query_listing_count(), 0);
    let r = m.query_listing_by_index(&"C".to_string(), &"1".to_string());
    assert_eq!(r.unwrap_err(), ContractError::NotFoundError);
}

#[test]
fn cancel_listing_by_stranger_rejected() {
    let mut m = new_market();
    list(&mut m, "alice", "C", "1", 100, 5);
    let r = m.cancel_listing(&"mallory".to_string(), "C".to_string(), "1".to_string());
    assert_eq!(r.unwrap_err(), ContractError::AuthorizationError);
    assert_eq!(m.query_listing_count(), 1);
}

#[test]
fn cancel_missing_listing_not_found() {
    let mut m = new_market();
    let r = m.cancel_listing(&"alice".to_string(), "C".to_string(), "1".to_string());
    assert_eq!(r.unwrap_err(), ContractError::NotFoundError);
}

#[test]
fn buy_splits_price_between_seller_and_fee_recipient() {
    // list token "1" of collection C at price 100, royalty 5 percent; a
    // buyer paying exactly 100 gets the token, the seller 95, the fee
    // recipient 5, and the listing and deposit are gone
    let mut m = new_market();
    list(&mut m, "alice", "C", "1", 100, 5);
    let instrs = m
        .buy_nft(&"bob".to_string(), "C".to_string(), "1".to_string(), 100)
        .unwrap();
    assert_eq!(instrs.len(), 3);
    assert_custody(&instrs[0], "C", "1", "bob");
    assert_pay(&instrs[1], "alice", "coin", 95);
    assert_pay(&instrs[2], "fee_recipient", "coin", 5);
    let r = m.query_listing_by_index(&"C".to_string(), &"1".to_string());
    assert_eq!(r.unwrap_err(), ContractError::NotFoundError);
    // another listing by the same seller for the same token works again
    list(&mut m, "bob", "C", "1", 50, 0);
}

#[test]
fn buy_rounds_fee_down_and_remainder_to_seller() {
    let mut m = new_market();
    list(&mut m, "alice", "C", "1", 103, 5);
    let instrs = m
        .buy_nft(&"bob".to_string(), "C".to_string(), "1".to_string(), 103)
        .unwrap();
    // floor(103 * 5 / 100) = 5, so the seller keeps 98: the sum is exact
    assert_pay(&instrs[1], "alice", "coin", 98);
    assert_pay(&instrs[2], "fee_recipient", "coin", 5);
}

#[test]
fn buy_large_price_fee_exact() {
    let mut m = new_market();
    list(&mut m, "alice", "C", "1", 999, 33);
    let instrs = m
        .buy_nft(&"bob".to_string(), "C".to_string(), "1".to_string(), 999)
        .unwrap();
    // floor(999 * 33 / 100) = 329
    assert_pay(&instrs[1], "alice", "coin", 670);
    assert_pay(&instrs[2], "fee_recipient", "coin", 329);
}

#[test]
fn buy_wrong_amount_rejected() {
    let mut m = new_market();
    list(&mut m, "alice", "C", "1", 100, 5);
    let r = m.buy_nft(&"bob".to_string(), "C".to_string(), "1".to_string(), 99);
    assert_eq!(r.unwrap_err(), ContractError::PaymentError);
    let r = m.buy_nft(&"bob".to_string(), "C".to_string(), "1".to_string(), 101);
    assert_eq!(r.unwrap_err(), ContractError::PaymentError);
    assert_eq!(m.query_listing_count(), 1);
}

#[test]
fn buy_own_listing_rejected() {
    let mut m = new_market();
    list(&mut m, "alice", "C", "1", 100, 5);
    let r = m.buy_nft(&"alice".to_string(), "C".to_string(), "1".to_string(), 100);
    assert_eq!(r.unwrap_err(), ContractError::StateConflict);
}

#[test]
fn buy_unlisted_token_not_found() {
    let mut m = new_market();
    let r = m.buy_nft(&"bob".to_string(), "C".to_string(), "1".to_string(), 100);
    assert_eq!(r.unwrap_err(), ContractError::NotFoundError);
}

#[test]
fn buy_does_not_change_listing_gauge() {
    let mut m = new_market();
    list(&mut m, "alice", "C", "1", 100, 5);
    assert_eq!(m.query_listing_count(), 1);
    m.buy_nft(&"bob".to_string(), "C".to_string(), "1".to_string(), 100).unwrap();
    // the gauge counts creations net of cancellations; a sale leaves it
    assert_eq!(m.query_listing_count(), 1);
}

#[test]
fn buy_batch_settles_every_ask() {
    let mut m = new_market();
    list(&mut m, "alice", "C", "1", 100, 5);
    list(&mut m, "carol", "D", "2", 40, 5);
    let asks = vec![
        ("C".to_string(), "1".to_string()),
        ("D".to_string(), "2".to_string()),
    ];
    let instrs = m.buy_batch(&"bob".to_string(), &asks, 140).unwrap();
    assert_eq!(instrs.len(), 4);
    assert_custody(&instrs[0], "C", "1", "bob");
    assert_custody(&instrs[1], "D", "2", "bob");
    // batch settlement pays each seller the full listed price
    assert_pay(&instrs[2], "alice", "coin", 100);
    assert_pay(&instrs[3], "carol", "coin", 40);
    assert!(m.query_listing_by_index(&"C".to_string(), &"1".to_string()).is_err());
    assert!(m.query_listing_by_index(&"D".to_string(), &"2".to_string()).is_err());
}

#[test]
fn buy_batch_with_unlisted_ask_changes_nothing() {
    let mut m = new_market();
    list(&mut m, "alice", "C", "1", 100, 5);
    let asks = vec![
        ("C".to_string(), "1".to_string()),
        ("D".to_string(), "2".to_string()),
    ];
    let r = m.buy_batch(&"bob".to_string(), &asks, 140);
    assert_eq!(r.unwrap_err(), ContractError::NotFoundError);
    assert!(m.query_listing_by_index(&"C".to_string(), &"1".to_string()).is_ok());
    assert_eq!(m.query_listing_count(), 1);
}

#[test]
fn buy_batch_with_wrong_total_changes_nothing() {
    let mut m = new_market();
    list(&mut m, "alice", "C", "1", 100, 5);
    list(&mut m, "carol", "D", "2", 40, 5);
    let asks = vec![
        ("C".to_string(), "1".to_string()),
        ("D".to_string(), "2".to_string()),
    ];
    let r = m.buy_batch(&"bob".to_string(), &asks, 139);
    assert_eq!(r.unwrap_err(), ContractError::PaymentError);
    assert!(m.query_listing_by_index(&"C".to_string(), &"1".to_string()).is_ok());
    assert!(m.query_listing_by_index(&"D".to_string(), &"2".to_string()).is_ok());
}

#[test]
fn buy_batch_with_own_listing_changes_nothing() {
    let mut m = new_market();
    list(&mut m, "alice", "C", "1", 100, 5);
    list(&mut m, "bob", "D", "2", 40, 5);
    let asks = vec![
        ("C".to_string(), "1".to_string()),
        ("D".to_string(), "2".to_string()),
    ];
    let r = m.buy_batch(&"bob".to_string(), &asks, 140);
    assert_eq!(r.unwrap_err(), ContractError::StateConflict);
    assert!(m.query_listing_by_index(&"C".to_string(), &"1".to_string()).is_ok());
}

#[test]
fn buy_batch_with_repeated_ask_changes_nothing() {
    let mut m = new_market();
    list(&mut m, "alice", "C", "1", 100, 5);
    let asks = vec![
        ("C".to_string(), "1".to_string()),
        ("C".to_string(), "1".to_string()),
    ];
    let r = m.buy_batch(&"bob".to_string(), &asks, 200);
    assert_eq!(r.unwrap_err(), ContractError::NotFoundError);
    assert!(m.query_listing_by_index(&"C".to_string(), &"1".to_string()).is_ok());
}

#[test]
fn buy_batch_of_nothing_for_nothing() {
    let mut m = new_market();
    let asks: Vec<(String, String)> = vec![];
    let instrs = m.buy_batch(&"bob".to_string(), &asks, 0).unwrap();
    assert_eq!(instrs.len(), 0);
}

#[test]
fn error_descriptions_name_their_category() {
    assert_eq!(ContractError::ValidationError.describe(), "validation error");
    assert_eq!(ContractError::NotFoundError.describe(), "not found");
}
