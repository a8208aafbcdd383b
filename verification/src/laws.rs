//! Cross-cutting laws of the marketplace, stated over the same views and
//! decision functions that the commands' own contracts use.

use vstd::prelude::*;

use crate::error::ContractError;
use crate::market::{
    add_admin_err, bid_err, cancel_auction_err, claim_err, min_accept, remove_admin_err, MarketV,
};
use crate::state::{is_terminal, status_step_ok, AuctionStatus};

verus! {

/// A terminal auction status admits no further transition: any allowed
/// step out of `Ended` or `Cancelled` stays put.
pub proof fn lemma_terminal_statuses_stuck(pre: AuctionStatus, post: AuctionStatus)
    requires
        is_terminal(pre),
        status_step_ok(pre, post),
    ensures
        post == pre,
{
}

/// Bid monotonicity: once an auction has a standing bidder at some
/// price, any further acceptable bid is at least that price plus the
/// minimum step, whenever that threshold is representable. Chained with
/// the bid command's contract, which sets the standing price to each
/// accepted bid and refunds the previous bidder in the same result, two
/// consecutively accepted bids b1 then b2 satisfy
/// `price(b2) >= price(b1) + min_bid_step`.
pub proof fn lemma_bid_monotonicity(m: MarketV, c: Seq<char>, t: Seq<char>, now: int, p2: int)
    requires
        m.auctions.contains_key((c, t)),
        m.auctions[(c, t)].current_bidder is Some,
        m.auctions[(c, t)].current_price + m.auctions[(c, t)].min_bid_step <= u128::MAX as int,
        bid_err(m, c, t, p2, now) is None,
    ensures
        p2 >= m.auctions[(c, t)].current_price + m.auctions[(c, t)].min_bid_step,
{
    assert(min_accept(m.auctions[(c, t)]) == m.auctions[(c, t)].current_price + m.auctions[
        (c, t)
    ].min_bid_step);
}

/// Claim is idempotent in failure: once an auction has been claimed its
/// status is `Ended`, and any further claim is a state conflict.
pub proof fn lemma_claim_twice_conflicts(m: MarketV, c: Seq<char>, t: Seq<char>, now: int)
    requires
        m.auctions.contains_key((c, t)),
        m.auctions[(c, t)].status == AuctionStatus::Ended,
    ensures
        claim_err(m, c, t, now) == Some(ContractError::StateConflict),
{
}

/// Cancelling an auction whose status has left `WaitingAuction` is a
/// state conflict, even for the seller.
pub proof fn lemma_cancel_after_waiting_conflicts(
    m: MarketV,
    caller: Seq<char>,
    c: Seq<char>,
    t: Seq<char>,
)
    requires
        m.auctions.contains_key((c, t)),
        m.auctions[(c, t)].seller == caller,
        m.auctions[(c, t)].status != AuctionStatus::WaitingAuction,
    ensures
        cancel_auction_err(m, caller, c, t) == Some(ContractError::StateConflict),
{
}

/// Re-adding an existing admin is a state conflict, even for the owner.
pub proof fn lemma_add_admin_twice_conflicts(m: MarketV, addr: Seq<char>)
    requires
        m.is_admin_spec(addr),
    ensures
        add_admin_err(m, m.state.owner, addr) == Some(ContractError::StateConflict),
{
}

/// Removing an address that is not an admin is a not-found failure, even
/// for the owner.
pub proof fn lemma_remove_absent_admin_fails(m: MarketV, addr: Seq<char>)
    requires
        !m.is_admin_spec(addr),
    ensures
        remove_admin_err(m, m.state.owner, addr) == Some(ContractError::NotFoundError),
{
}

} // verus!
