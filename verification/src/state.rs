//! The marketplace's data model: configuration, global gauges, listing,
//! auction and deposit records, and the mathematical views that the
//! contracts are stated over.

use vstd::prelude::*;

verus! {

/// Currency denomination and the default royalty percentage. Set at
/// creation; the current commands read only the denomination.
#[derive(Debug)]
pub struct Config {
    pub native_denom: String,
    pub royalty: u128,
}

/// Mathematical view of [`Config`].
pub struct ConfigV {
    pub native_denom: Seq<char>,
    pub royalty: int,
}

impl View for Config {
    type V = ConfigV;

    open spec fn view(&self) -> ConfigV {
        ConfigV { native_denom: self.native_denom@, royalty: self.royalty as int }
    }
}

/// The single mutable global record: the owner, the fee recipient, and the
/// two monotonically-adjusted gauges.
#[derive(Debug)]
pub struct State {
    pub owner: String,
    pub collection_fabric_address: String,
    pub listing_count: u128,
    pub auction_count: u128,
}

/// Mathematical view of [`State`].
pub struct StateV {
    pub owner: Seq<char>,
    pub collection_fabric_address: Seq<char>,
    pub listing_count: int,
    pub auction_count: int,
}

impl View for State {
    type V = StateV;

    open spec fn view(&self) -> StateV {
        StateV {
            owner: self.owner@,
            collection_fabric_address: self.collection_fabric_address@,
            listing_count: self.listing_count as int,
            auction_count: self.auction_count as int,
        }
    }
}

/// A fixed-price sale record, keyed by (collection, token id).
#[derive(Debug)]
pub struct Listing {
    pub seller: String,
    pub collection: String,
    pub token_id: String,
    pub price: u128,
    pub royalty: u128,
}

/// Mathematical view of [`Listing`].
pub struct ListingV {
    pub seller: Seq<char>,
    pub collection: Seq<char>,
    pub token_id: Seq<char>,
    pub price: int,
    pub royalty: int,
}

impl View for Listing {
    type V = ListingV;

    open spec fn view(&self) -> ListingV {
        ListingV {
            seller: self.seller@,
            collection: self.collection@,
            token_id: self.token_id@,
            price: self.price as int,
            royalty: self.royalty as int,
        }
    }
}

/// Lifecycle of an auction. The only transitions are
/// `WaitingAuction -> InAuction -> Ended` and
/// `WaitingAuction -> Cancelled`; `Ended` and `Cancelled` are terminal.
#[derive(Clone, Copy, Debug, PartialEq, Eq, Structural)]
pub enum AuctionStatus {
    /// Created; bidding has not been opened yet.
    WaitingAuction,
    /// Bidding is open.
    InAuction,
    /// Claimed after its end time; terminal.
    Ended,
    /// Cancelled before bidding opened; terminal.
    Cancelled,
}

/// A timed-auction record, keyed by (collection, token id). Never deleted:
/// its status becomes terminal instead.
#[derive(Debug)]
pub struct Auction {
    pub seller: String,
    pub collection: String,
    pub token_id: String,
    pub start_price: u128,
    pub min_bid_step: u128,
    pub start_time: u64,
    pub end_time: u64,
    pub current_price: u128,
    pub current_bidder: Option<String>,
    pub status: AuctionStatus,
    pub royalty: u128,
}

/// Mathematical view of [`Auction`].
pub struct AuctionV {
    pub seller: Seq<char>,
    pub collection: Seq<char>,
    pub token_id: Seq<char>,
    pub start_price: int,
    pub min_bid_step: int,
    pub start_time: int,
    pub end_time: int,
    pub current_price: int,
    pub current_bidder: Option<Seq<char>>,
    pub status: AuctionStatus,
    pub royalty: int,
}

impl View for Auction {
    type V = AuctionV;

    open spec fn view(&self) -> AuctionV {
        AuctionV {
            seller: self.seller@,
            collection: self.collection@,
            token_id: self.token_id@,
            start_price: self.start_price as int,
            min_bid_step: self.min_bid_step as int,
            start_time: self.start_time as int,
            end_time: self.end_time as int,
            current_price: self.current_price as int,
            current_bidder: match self.current_bidder {
                Some(ref b) => Some(b@),
                None => None,
            },
            status: self.status,
            royalty: self.royalty as int,
        }
    }
}

/// An escrow receipt: the marketplace holds custody of the token on behalf
/// of this owner. Keyed by (collection, owner, token id).
#[derive(Debug)]
pub struct Deposits {
    pub owner: String,
    pub collection: String,
    pub token_id: String,
}

/// Mathematical view of [`Deposits`].
pub struct DepositsV {
    pub owner: Seq<char>,
    pub collection: Seq<char>,
    pub token_id: Seq<char>,
}

impl View for Deposits {
    type V = DepositsV;

    open spec fn view(&self) -> DepositsV {
        DepositsV { owner: self.owner@, collection: self.collection@, token_id: self.token_id@ }
    }
}

/// Everything the marketplace needs at creation.
#[derive(Debug)]
pub struct InstantiateMsg {
    pub owner: String,
    pub collection_fabric_address: String,
    pub native_denom: String,
    pub royalty: u128,
}

/// A status is live while the auction still owes custody of its token:
/// before bidding opens and while bidding runs.
pub open spec fn is_live(s: AuctionStatus) -> bool {
    s == AuctionStatus::WaitingAuction || s == AuctionStatus::InAuction
}

/// `Ended` and `Cancelled` admit no further transition.
pub open spec fn is_terminal(s: AuctionStatus) -> bool {
    s == AuctionStatus::Ended || s == AuctionStatus::Cancelled
}

/// The allowed single-command evolutions of one auction record's status:
/// stay put, open bidding, cancel before bidding, or end after bidding.
pub open spec fn status_step_ok(pre: AuctionStatus, post: AuctionStatus) -> bool {
    ||| post == pre
    ||| (pre == AuctionStatus::WaitingAuction && post == AuctionStatus::InAuction)
    ||| (pre == AuctionStatus::WaitingAuction && post == AuctionStatus::Cancelled)
    ||| (pre == AuctionStatus::InAuction && post == AuctionStatus::Ended)
}

} // verus!
