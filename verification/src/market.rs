//! The marketplace core: one value holding the durable keyed state, and
//! one method per inbound command. Each command validates its input
//! against the current state, applies its effect in one atomic step, and
//! returns the outbound instructions; a failing command returns an error
//! and leaves the state exactly as it was.

use vstd::prelude::*;

use crate::error::ContractError;
use crate::instr::{instr_views, InstrV, Instruction};
use crate::state::{
    is_live, is_terminal, status_step_ok, Auction, AuctionStatus, AuctionV, Config, ConfigV,
    Deposits, DepositsV, InstantiateMsg, Listing, ListingV, State, StateV,
};
use crate::table::{
    kv_map, kv_unique, lemma_kv_map_dom, lemma_kv_map_index, lemma_kv_map_push,
    lemma_kv_map_remove, lemma_kv_unique_push,
};

verus! {

/// The key of a listing or auction record: (collection, token id).
pub open spec fn listing_key(l: ListingV) -> (Seq<char>, Seq<char>) {
    (l.collection, l.token_id)
}

/// The key of an auction record: (collection, token id).
pub open spec fn auction_key(a: AuctionV) -> (Seq<char>, Seq<char>) {
    (a.collection, a.token_id)
}

/// The key of a deposit record: (collection, owner, token id).
pub open spec fn deposit_key(d: DepositsV) -> (Seq<char>, Seq<char>, Seq<char>) {
    (d.collection, d.owner, d.token_id)
}

/// Listing records paired with their keys.
pub open spec fn listing_pairs(s: Seq<Listing>) -> Seq<((Seq<char>, Seq<char>), ListingV)> {
    s.map_values(|l: Listing| (listing_key(l@), l@))
}

/// Auction records paired with their keys.
pub open spec fn auction_pairs(s: Seq<Auction>) -> Seq<((Seq<char>, Seq<char>), AuctionV)> {
    s.map_values(|a: Auction| (auction_key(a@), a@))
}

/// Deposit records paired with their keys.
pub open spec fn deposit_pairs(s: Seq<Deposits>) -> Seq<
    ((Seq<char>, Seq<char>, Seq<char>), DepositsV),
> {
    s.map_values(|d: Deposits| (deposit_key(d@), d@))
}

/// Mathematical view of the whole marketplace state.
pub struct MarketV {
    pub config: ConfigV,
    pub state: StateV,
    pub listings: Map<(Seq<char>, Seq<char>), ListingV>,
    pub auctions: Map<(Seq<char>, Seq<char>), AuctionV>,
    pub deposits: Map<(Seq<char>, Seq<char>, Seq<char>), DepositsV>,
    pub admins: Seq<Seq<char>>,
}

impl MarketV {
    /// A live auction at this key: one that still owes custody.
    pub open spec fn has_live_auction(self, c: Seq<char>, t: Seq<char>) -> bool {
        self.auctions.contains_key((c, t)) && is_live(self.auctions[(c, t)].status)
    }

    /// This address is on the admin list.
    pub open spec fn is_admin_spec(self, a: Seq<char>) -> bool {
        exists|i: int| 0 <= i < self.admins.len() && self.admins[i] == a
    }
}

/// The custody invariant that every command preserves: a (collection,
/// token id) carries a Listing or a live Auction if and only if a matching
/// Deposit exists; the two managers never hold the same key at once; and
/// every record is internally in range (royalty at most 100 percent,
/// positive auction prices and steps, ordered times).
pub open spec fn wf(m: MarketV) -> bool {
    &&& forall|k: (Seq<char>, Seq<char>)| #[trigger] m.listings.contains_key(k) ==> {
        let l = m.listings[k];
        &&& listing_key(l) == k
        &&& l.royalty <= 100
        &&& m.deposits.contains_key((l.collection, l.seller, l.token_id))
        &&& !m.has_live_auction(k.0, k.1)
    }
    &&& forall|k: (Seq<char>, Seq<char>)| #[trigger] m.auctions.contains_key(k) ==> {
        let a = m.auctions[k];
        &&& auction_key(a) == k
        &&& a.royalty <= 100
        &&& a.start_price >= 1
        &&& a.min_bid_step >= 1
        &&& a.start_time <= a.end_time
        &&& (is_live(a.status) ==> m.deposits.contains_key((a.collection, a.seller, a.token_id)))
    }
    &&& forall|dk: (Seq<char>, Seq<char>, Seq<char>)| #[trigger] m.deposits.contains_key(dk) ==> {
        let d = m.deposits[dk];
        &&& deposit_key(d) == dk
        &&& ({
            ||| (m.listings.contains_key((dk.0, dk.2)) && m.listings[(dk.0, dk.2)].seller == dk.1)
            ||| (m.auctions.contains_key((dk.0, dk.2)) && is_live(m.auctions[(dk.0, dk.2)].status)
                && m.auctions[(dk.0, dk.2)].seller == dk.1)
        })
    }
}

/// Every auction record present before a command is still present after
/// it, and its status has moved only along the allowed transitions:
/// `WaitingAuction` to `InAuction`, `WaitingAuction` to `Cancelled`,
/// `InAuction` to `Ended`, or not at all. Every command ensures this;
/// auction creation, which may replace a whole terminal record, states
/// its stronger effect separately.
pub open spec fn statuses_step_ok(pre: MarketV, post: MarketV) -> bool {
    forall|k: (Seq<char>, Seq<char>)| #[trigger]
        pre.auctions.contains_key(k) ==> post.auctions.contains_key(k) && status_step_ok(
            pre.auctions[k].status,
            post.auctions[k].status,
        )
}

/// The outcome category of a command, for stating exactly when each error
/// is returned.
pub open spec fn err_of<T>(r: Result<T, ContractError>) -> Option<ContractError> {
    match r {
        Ok(_) => None,
        Err(e) => Some(e),
    }
}

/// A gauge adjusted upward, held at its ceiling rather than wrapping.
pub open spec fn gauge_inc(n: int) -> int {
    if n == u128::MAX as int {
        n
    } else {
        n + 1
    }
}

/// A gauge adjusted downward, held at zero rather than wrapping.
pub open spec fn gauge_dec(n: int) -> int {
    if n <= 0 {
        0
    } else {
        n - 1
    }
}

/// Why a list-for-sale command fails, if it does: an out-of-range royalty
/// percentage; an escrow deposit already held for this owner and token; or
/// a record already occupying the (collection, token id) key.
pub open spec fn list_for_sale_err(
    m: MarketV,
    owner: Seq<char>,
    c: Seq<char>,
    t: Seq<char>,
    royalty: int,
) -> Option<ContractError> {
    if royalty > 100 {
        Some(ContractError::ValidationError)
    } else if m.deposits.contains_key((c, owner, t)) {
        Some(ContractError::StateConflict)
    } else if m.listings.contains_key((c, t)) || m.has_live_auction(c, t) {
        Some(ContractError::StateConflict)
    } else {
        None
    }
}

/// Why a cancel-listing command fails, if it does: no listing under the
/// key, or a caller who is not the seller holding the deposit.
pub open spec fn cancel_listing_err(m: MarketV, caller: Seq<char>, c: Seq<char>, t: Seq<char>) -> Option<
    ContractError,
> {
    if !m.listings.contains_key((c, t)) {
        Some(ContractError::NotFoundError)
    } else if m.listings[(c, t)].seller != caller {
        Some(ContractError::AuthorizationError)
    } else {
        None
    }
}

/// Why a buy command fails, if it does: no listing under the key, the
/// buyer is the seller, or the funds differ from the listed price.
pub open spec fn buy_err(
    m: MarketV,
    buyer: Seq<char>,
    c: Seq<char>,
    t: Seq<char>,
    funds: int,
) -> Option<ContractError> {
    if !m.listings.contains_key((c, t)) {
        Some(ContractError::NotFoundError)
    } else if m.listings[(c, t)].seller == buyer {
        Some(ContractError::StateConflict)
    } else if funds != m.listings[(c, t)].price {
        Some(ContractError::PaymentError)
    } else {
        None
    }
}

/// The (collection, token id) keys a batch of asks names, in order.
pub open spec fn ask_keys(asks: Seq<(String, String)>) -> Seq<(Seq<char>, Seq<char>)> {
    asks.map_values(|a: (String, String)| (a.0@, a.1@))
}

/// The first validation failure over the asks, scanned in order: an ask
/// without a listing, or one whose seller is the buyer.
pub open spec fn batch_scan_err(
    m: MarketV,
    buyer: Seq<char>,
    keys: Seq<(Seq<char>, Seq<char>)>,
) -> Option<ContractError>
    decreases keys.len(),
{
    if keys.len() == 0 {
        None
    } else if !m.listings.contains_key(keys[0]) {
        Some(ContractError::NotFoundError)
    } else if m.listings[keys[0]].seller == buyer {
        Some(ContractError::StateConflict)
    } else {
        batch_scan_err(m, buyer, keys.drop_first())
    }
}

/// The sum of the listed prices the asks name, an ask occurring twice
/// counting twice; an ask without a listing adds nothing.
pub open spec fn batch_total(m: MarketV, keys: Seq<(Seq<char>, Seq<char>)>) -> int
    decreases keys.len(),
{
    if keys.len() == 0 {
        0
    } else {
        (if m.listings.contains_key(keys[0]) {
            m.listings[keys[0]].price
        } else {
            0
        }) + batch_total(m, keys.drop_first())
    }
}

/// No element occurs twice.
pub open spec fn distinct_seq<T>(s: Seq<T>) -> bool {
    forall|i: int, j: int| 0 <= i < j < s.len() ==> s[i] != s[j]
}

/// Why a batch buy fails, if it does: the first scan failure; then funds
/// that differ from the total; then an ask named twice, whose second
/// settlement would find nothing left to settle.
pub open spec fn buy_batch_err(
    m: MarketV,
    buyer: Seq<char>,
    keys: Seq<(Seq<char>, Seq<char>)>,
    funds: int,
) -> Option<ContractError> {
    if batch_scan_err(m, buyer, keys) is Some {
        batch_scan_err(m, buyer, keys)
    } else if funds != batch_total(m, keys) {
        Some(ContractError::PaymentError)
    } else if !distinct_seq(keys) {
        Some(ContractError::NotFoundError)
    } else {
        None
    }
}

/// The deposit keys released by a batch: each ask's collection, its
/// listing's seller, and its token id.
pub open spec fn batch_deposit_keys(m: MarketV, keys: Seq<(Seq<char>, Seq<char>)>) -> Seq<
    (Seq<char>, Seq<char>, Seq<char>),
> {
    keys.map_values(|k: (Seq<char>, Seq<char>)| (k.0, m.listings[k].seller, k.1))
}

/// The custody instructions of a batch, one per ask, in ask order.
pub open spec fn batch_nft_instrs(buyer: Seq<char>, keys: Seq<(Seq<char>, Seq<char>)>) -> Seq<
    InstrV,
> {
    keys.map_values(
        |k: (Seq<char>, Seq<char>)|
            InstrV::TransferCustody { collection: k.0, token_id: k.1, to: buyer },
    )
}

/// The payment instructions of a batch, one per ask, in ask order: each
/// seller receives the full listed price.
pub open spec fn batch_pay_instrs(m: MarketV, keys: Seq<(Seq<char>, Seq<char>)>) -> Seq<InstrV> {
    keys.map_values(
        |k: (Seq<char>, Seq<char>)|
            InstrV::Pay {
                to: m.listings[k].seller,
                denom: m.config.native_denom,
                amount: m.listings[k].price,
            },
    )
}

/// Why an auction-create command fails, if it does. The host queries the
/// custody collaborator for the token's owner before the command runs and
/// passes the answer as `nft_owner`; a mismatch with the claimed owner is
/// an authorization failure. Zero prices or steps, misordered times, a
/// start in the past, and an out-of-range royalty are validation
/// failures; an existing deposit or an occupied key is a state conflict.
pub open spec fn create_auction_err(
    m: MarketV,
    owner: Seq<char>,
    c: Seq<char>,
    t: Seq<char>,
    start_price: int,
    min_bid_step: int,
    start_time: int,
    end_time: int,
    royalty: int,
    nft_owner: Seq<char>,
    now: int,
) -> Option<ContractError> {
    if nft_owner != owner {
        Some(ContractError::AuthorizationError)
    } else if start_price == 0 {
        Some(ContractError::ValidationError)
    } else if min_bid_step == 0 {
        Some(ContractError::ValidationError)
    } else if end_time < start_time {
        Some(ContractError::ValidationError)
    } else if start_time < now {
        Some(ContractError::ValidationError)
    } else if royalty > 100 {
        Some(ContractError::ValidationError)
    } else if m.deposits.contains_key((c, owner, t)) {
        Some(ContractError::StateConflict)
    } else if m.listings.contains_key((c, t)) || m.has_live_auction(c, t) {
        Some(ContractError::StateConflict)
    } else {
        None
    }
}

/// Why a start-auction command fails, if it does: no auction under the
/// key; a caller who is neither the seller nor an admin; a status other
/// than waiting; or a start time still in the future.
pub open spec fn start_auction_err(
    m: MarketV,
    caller: Seq<char>,
    c: Seq<char>,
    t: Seq<char>,
    now: int,
) -> Option<ContractError> {
    if !m.auctions.contains_key((c, t)) {
        Some(ContractError::NotFoundError)
    } else if m.auctions[(c, t)].seller != caller && !m.is_admin_spec(caller) {
        Some(ContractError::AuthorizationError)
    } else if m.auctions[(c, t)].status != AuctionStatus::WaitingAuction {
        Some(ContractError::StateConflict)
    } else if m.auctions[(c, t)].start_time > now {
        Some(ContractError::StateConflict)
    } else {
        None
    }
}

/// Why a cancel-auction command fails, if it does: no auction under the
/// key; a caller who is neither the seller nor an admin; or bidding was
/// already permitted to start (cancellation is then disallowed to protect
/// bidder funds).
pub open spec fn cancel_auction_err(
    m: MarketV,
    caller: Seq<char>,
    c: Seq<char>,
    t: Seq<char>,
) -> Option<ContractError> {
    if !m.auctions.contains_key((c, t)) {
        Some(ContractError::NotFoundError)
    } else if m.auctions[(c, t)].seller != caller && !m.is_admin_spec(caller) {
        Some(ContractError::AuthorizationError)
    } else if m.auctions[(c, t)].status != AuctionStatus::WaitingAuction {
        Some(ContractError::StateConflict)
    } else {
        None
    }
}

/// Machine-range addition held at the ceiling: a bid threshold that would
/// overflow fails closed by demanding the largest representable price.
pub open spec fn sat_add(x: int, y: int) -> int {
    if x + y > u128::MAX as int {
        u128::MAX as int
    } else {
        x + y
    }
}

/// The price a bid must reach to be accepted: the start price while no
/// one has bid, afterwards the standing price plus the minimum step.
pub open spec fn min_accept(a: AuctionV) -> int {
    if a.current_bidder is Some {
        sat_add(a.current_price, a.min_bid_step)
    } else {
        a.start_price
    }
}

/// Why a bid fails, if it does: no auction under the key; bidding not
/// open; the auction past its end time; or a price below the start price
/// or below the standing price plus the minimum step.
pub open spec fn bid_err(
    m: MarketV,
    c: Seq<char>,
    t: Seq<char>,
    price: int,
    now: int,
) -> Option<ContractError> {
    if !m.auctions.contains_key((c, t)) {
        Some(ContractError::NotFoundError)
    } else {
        let a = m.auctions[(c, t)];
        if a.status != AuctionStatus::InAuction {
            Some(ContractError::StateConflict)
        } else if now >= a.end_time {
            Some(ContractError::StateConflict)
        } else if price < a.start_price {
            Some(ContractError::ValidationError)
        } else if price < min_accept(a) {
            Some(ContractError::ValidationError)
        } else {
            None
        }
    }
}

/// Why a claim fails, if it does: no auction under the key; bidding never
/// opened or the auction was already claimed or cancelled; or the end
/// time has not arrived.
pub open spec fn claim_err(m: MarketV, c: Seq<char>, t: Seq<char>, now: int) -> Option<
    ContractError,
> {
    if !m.auctions.contains_key((c, t)) {
        Some(ContractError::NotFoundError)
    } else {
        let a = m.auctions[(c, t)];
        if a.status != AuctionStatus::InAuction {
            Some(ContractError::StateConflict)
        } else if now < a.end_time {
            Some(ContractError::StateConflict)
        } else {
            None
        }
    }
}

/// Why an add-admin command fails, if it does: a caller other than the
/// owner, or an address already on the list.
pub open spec fn add_admin_err(m: MarketV, caller: Seq<char>, addr: Seq<char>) -> Option<
    ContractError,
> {
    if caller != m.state.owner {
        Some(ContractError::AuthorizationError)
    } else if m.is_admin_spec(addr) {
        Some(ContractError::StateConflict)
    } else {
        None
    }
}

/// Why a remove-admin command fails, if it does: a caller other than the
/// owner, or an address not on the list.
pub open spec fn remove_admin_err(m: MarketV, caller: Seq<char>, addr: Seq<char>) -> Option<
    ContractError,
> {
    if caller != m.state.owner {
        Some(ContractError::AuthorizationError)
    } else if !m.is_admin_spec(addr) {
        Some(ContractError::NotFoundError)
    } else {
        None
    }
}

/// The marketplace state: configuration, the global record, the three
/// keyed stores, and the admin list.
pub struct Market {
    pub config: Config,
    pub state: State,
    pub listings: Vec<Listing>,
    pub auctions: Vec<Auction>,
    pub deposits: Vec<Deposits>,
    pub admins: Vec<String>,
}

impl View for Market {
    type V = MarketV;

    open spec fn view(&self) -> MarketV {
        MarketV {
            config: self.config@,
            state: self.state@,
            listings: kv_map(listing_pairs(self.listings@)),
            auctions: kv_map(auction_pairs(self.auctions@)),
            deposits: kv_map(deposit_pairs(self.deposits@)),
            admins: self.admins@.map_values(|a: String| a@),
        }
    }
}

impl Market {
    /// The stored vectors hold pairwise-distinct keys, so each denotes its
    /// map faithfully.
    pub closed spec fn repr_ok(&self) -> bool {
        &&& kv_unique(listing_pairs(self.listings@))
        &&& kv_unique(auction_pairs(self.auctions@))
        &&& kv_unique(deposit_pairs(self.deposits@))
        &&& forall|i: int, j: int|
            0 <= i < j < self.admins@.len() ==> self.admins@[i]@ != self.admins@[j]@
    }

    /// Validity of a marketplace value: a faithful representation whose
    /// abstract state satisfies the custody invariant. Established by
    /// [`Market::instantiate`] and preserved by every command.
    pub closed spec fn inv(&self) -> bool {
        self.repr_ok() && wf(self@)
    }

    /// A valid marketplace satisfies the custody invariant.
    pub proof fn lemma_inv_wf(&self)
        requires
            self.inv(),
        ensures
            wf(self@),
    {
    }

    /// Create the marketplace: no records, no admins, both gauges at zero.
    pub fn instantiate(msg: InstantiateMsg) -> (m: Market)
        ensures
            m.inv(),
            m@.config.native_denom == msg.native_denom@,
            m@.config.royalty == msg.royalty as int,
            m@.state.owner == msg.owner@,
            m@.state.collection_fabric_address == msg.collection_fabric_address@,
            m@.state.listing_count == 0,
            m@.state.auction_count == 0,
            m@.listings == Map::<(Seq<char>, Seq<char>), ListingV>::empty(),
            m@.auctions == Map::<(Seq<char>, Seq<char>), AuctionV>::empty(),
            m@.deposits == Map::<(Seq<char>, Seq<char>, Seq<char>), DepositsV>::empty(),
            m@.admins == Seq::<Seq<char>>::empty(),
    {
        let m = Market {
            config: Config { native_denom: msg.native_denom, royalty: msg.royalty },
            state: State {
                owner: msg.owner,
                collection_fabric_address: msg.collection_fabric_address,
                listing_count: 0,
                auction_count: 0,
            },
            listings: Vec::new(),
            auctions: Vec::new(),
            deposits: Vec::new(),
            admins: Vec::new(),
        };
        proof {
            assert(listing_pairs(m.listings@) =~= Seq::empty());
            assert(auction_pairs(m.auctions@) =~= Seq::empty());
            assert(deposit_pairs(m.deposits@) =~= Seq::empty());
            assert(m@.admins =~= Seq::<Seq<char>>::empty());
        }
        m
    }

    /// Index of the listing with this key, if one exists.
    fn find_listing(&self, collection: &String, token_id: &String) -> (r: Option<usize>)
        requires
            self.inv(),
        ensures
            match r {
                Some(i) => {
                    &&& i < self.listings.len()
                    &&& self.listings@[i as int]@.collection == collection@
                    &&& self.listings@[i as int]@.token_id == token_id@
                    &&& self@.listings.contains_key((collection@, token_id@))
                    &&& self@.listings[(collection@, token_id@)] == self.listings@[i as int]@
                },
                None => !self@.listings.contains_key((collection@, token_id@)),
            },
    {
        let n = self.listings.len();
        let mut i: usize = 0;
        while i < n
            invariant
                self.inv(),
                n == self.listings.len(),
                i <= n,
                forall|j: int|
                    0 <= j < i ==> !(self.listings@[j]@.collection == collection@
                        && self.listings@[j]@.token_id == token_id@),
            decreases n - i,
        {
            let l = &self.listings[i];
            if l.collection == *collection && l.token_id == *token_id {
                proof {
                    lemma_kv_map_index(listing_pairs(self.listings@), i as int);
                }
                return Some(i);
            }
            i += 1;
        }
        proof {
            lemma_kv_map_dom(listing_pairs(self.listings@));
        }
        None
    }

    /// Index of the auction with this key, if one exists.
    fn find_auction(&self, collection: &String, token_id: &String) -> (r: Option<usize>)
        requires
            self.inv(),
        ensures
            match r {
                Some(i) => {
                    &&& i < self.auctions.len()
                    &&& self.auctions@[i as int]@.collection == collection@
                    &&& self.auctions@[i as int]@.token_id == token_id@
                    &&& self@.auctions.contains_key((collection@, token_id@))
                    &&& self@.auctions[(collection@, token_id@)] == self.auctions@[i as int]@
                },
                None => !self@.auctions.contains_key((collection@, token_id@)),
            },
    {
        let n = self.auctions.len();
        let mut i: usize = 0;
        while i < n
            invariant
                self.inv(),
                n == self.auctions.len(),
                i <= n,
                forall|j: int|
                    0 <= j < i ==> !(self.auctions@[j]@.collection == collection@
                        && self.auctions@[j]@.token_id == token_id@),
            decreases n - i,
        {
            let a = &self.auctions[i];
            if a.collection == *collection && a.token_id == *token_id {
                proof {
                    lemma_kv_map_index(auction_pairs(self.auctions@), i as int);
                }
                return Some(i);
            }
            i += 1;
        }
        proof {
            lemma_kv_map_dom(auction_pairs(self.auctions@));
        }
        None
    }

    /// Index of the deposit with this key, if one exists.
    fn find_deposit(&self, collection: &String, owner: &String, token_id: &String) -> (r: Option<
        usize,
    >)
        requires
            self.inv(),
        ensures
            match r {
                Some(i) => {
                    &&& i < self.deposits.len()
                    &&& self.deposits@[i as int]@.collection == collection@
                    &&& self.deposits@[i as int]@.owner == owner@
                    &&& self.deposits@[i as int]@.token_id == token_id@
                    &&& self@.deposits.contains_key((collection@, owner@, token_id@))
                },
                None => !self@.deposits.contains_key((collection@, owner@, token_id@)),
            },
    {
        let n = self.deposits.len();
        let mut i: usize = 0;
        while i < n
            invariant
                self.inv(),
                n == self.deposits.len(),
                i <= n,
                forall|j: int|
                    0 <= j < i ==> !(self.deposits@[j]@.collection == collection@
                        && self.deposits@[j]@.owner == owner@ && self.deposits@[j]@.token_id
                        == token_id@),
            decreases n - i,
        {
            let d = &self.deposits[i];
            if d.collection == *collection && d.owner == *owner && d.token_id == *token_id {
                proof {
                    lemma_kv_map_index(deposit_pairs(self.deposits@), i as int);
                }
                return Some(i);
            }
            i += 1;
        }
        proof {
            lemma_kv_map_dom(deposit_pairs(self.deposits@));
        }
        None
    }

    /// List a token for fixed-price sale on behalf of `owner`: record the
    /// escrow deposit and the listing, adjust the listing gauge upward,
    /// and instruct the custody collaborator to move the token to the
    /// marketplace (`marketplace` is the marketplace's own account).
    pub fn execute_list_nft_for_sale(
        &mut self,
        owner: String,
        collection: String,
        token_id: String,
        price: u128,
        royalty: u128,
        marketplace: &String,
    ) -> (r: Result<Vec<Instruction>, ContractError>)
        requires
            old(self).inv(),
        ensures
            final(self).inv(),
            statuses_step_ok(old(self)@, final(self)@),
            err_of(r) == list_for_sale_err(
                old(self)@,
                owner@,
                collection@,
                token_id@,
                royalty as int,
            ),
            r is Err ==> *final(self) == *old(self),
            r matches Ok(instrs) ==> {
                &&& final(self)@.listings == old(self)@.listings.insert(
                    (collection@, token_id@),
                    ListingV {
                        seller: owner@,
                        collection: collection@,
                        token_id: token_id@,
                        price: price as int,
                        royalty: royalty as int,
                    },
                )
                &&& final(self)@.deposits == old(self)@.deposits.insert(
                    (collection@, owner@, token_id@),
                    DepositsV { owner: owner@, collection: collection@, token_id: token_id@ },
                )
                &&& final(self)@.auctions == old(self)@.auctions
                &&& final(self)@.admins == old(self)@.admins
                &&& final(self)@.config == old(self)@.config
                &&& final(self)@.state == StateV {
                    listing_count: gauge_inc(old(self)@.state.listing_count),
                    ..old(self)@.state
                }
                &&& instr_views(instrs@) =~= seq![
                    InstrV::TransferCustody {
                        collection: collection@,
                        token_id: token_id@,
                        to: marketplace@,
                    },
                ]
            },
    {
        if royalty > 100 {
            return Err(ContractError::ValidationError);
        }
        if self.find_deposit(&collection, &owner, &token_id).is_some() {
            return Err(ContractError::StateConflict);
        }
        if self.find_listing(&collection, &token_id).is_some() {
            return Err(ContractError::StateConflict);
        }
        if let Some(ai) = self.find_auction(&collection, &token_id) {
            let live = matches!(
                self.auctions[ai].status,
                AuctionStatus::WaitingAuction | AuctionStatus::InAuction
            );
            if live {
                return Err(ContractError::StateConflict);
            }
        }
        let ghost pre = self@;
        let ghost lkey = (collection@, token_id@);
        let ghost dkey = (collection@, owner@, token_id@);
        let deposit = Deposits {
            owner: owner.clone(),
            collection: collection.clone(),
            token_id: token_id.clone(),
        };
        let listing = Listing {
            seller: owner,
            collection: collection.clone(),
            token_id: token_id.clone(),
            price,
            royalty,
        };
        let ghost lv = listing@;
        let ghost dv = deposit@;
        proof {
            lemma_kv_map_push(deposit_pairs(self.deposits@), dkey, dv);
            lemma_kv_unique_push(deposit_pairs(self.deposits@), dkey, dv);
            lemma_kv_map_push(listing_pairs(self.listings@), lkey, lv);
            lemma_kv_unique_push(listing_pairs(self.listings@), lkey, lv);
        }
        self.deposits.push(deposit);
        self.listings.push(listing);
        proof {
            assert(deposit_pairs(self.deposits@) =~= deposit_pairs(old(self).deposits@).push(
                (dkey, dv),
            ));
            assert(listing_pairs(self.listings@) =~= listing_pairs(old(self).listings@).push(
                (lkey, lv),
            ));
        }
        if self.state.listing_count < u128::MAX {
            self.state.listing_count = self.state.listing_count + 1;
        }
        let instrs = vec![
            Instruction::TransferCustody {
                collection: collection,
                token_id: token_id,
                to: marketplace.clone(),
            },
        ];
        proof {
            let post = self@;
            assert(post.listings == pre.listings.insert(lkey, lv));
            assert(post.deposits == pre.deposits.insert(dkey, dv));
            assert(auction_pairs(self.auctions@) =~= auction_pairs(old(self).auctions@));
            assert(post.auctions == pre.auctions);
            assert(wf(post)) by {
                assert forall|k: (Seq<char>, Seq<char>)| #[trigger] post.listings.contains_key(
                    k,
                ) implies {
                    let l = post.listings[k];
                    &&& listing_key(l) == k
                    &&& l.royalty <= 100
                    &&& post.deposits.contains_key((l.collection, l.seller, l.token_id))
                    &&& !post.has_live_auction(k.0, k.1)
                } by {
                    if k != lkey {
                        assert(pre.listings.contains_key(k));
                    }
                }
                assert forall|dk: (Seq<char>, Seq<char>, Seq<char>)|
                    #[trigger] post.deposits.contains_key(dk) implies {
                    let d = post.deposits[dk];
                    &&& deposit_key(d) == dk
                    &&& ({
                        ||| (post.listings.contains_key((dk.0, dk.2)) && post.listings[
                            (dk.0, dk.2)
                        ].seller == dk.1)
                        ||| (post.auctions.contains_key((dk.0, dk.2)) && is_live(
                            post.auctions[(dk.0, dk.2)].status,
                        ) && post.auctions[(dk.0, dk.2)].seller == dk.1)
                    })
                } by {
                    if dk != dkey {
                        assert(pre.deposits.contains_key(dk));
                        assert((dk.0, dk.2) != lkey);
                    }
                }
            }
            assert(instr_views(instrs@) =~= seq![
                InstrV::TransferCustody {
                    collection: lkey.0,
                    token_id: lkey.1,
                    to: marketplace@,
                },
            ]);
        }
        Ok(instrs)
    }

    /// Cancel a fixed-price listing: only the seller holding the deposit
    /// may do so. Removes the listing and the deposit, adjusts the gauge
    /// downward, and returns the token to the seller.
    pub fn cancel_listing(&mut self, caller: &String, collection: String, token_id: String) -> (r:
        Result<Vec<Instruction>, ContractError>)
        requires
            old(self).inv(),
        ensures
            final(self).inv(),
            statuses_step_ok(old(self)@, final(self)@),
            err_of(r) == cancel_listing_err(old(self)@, caller@, collection@, token_id@),
            r is Err ==> *final(self) == *old(self),
            r matches Ok(instrs) ==> {
                &&& final(self)@.listings == old(self)@.listings.remove((collection@, token_id@))
                &&& final(self)@.deposits == old(self)@.deposits.remove(
                    (collection@, caller@, token_id@),
                )
                &&& final(self)@.auctions == old(self)@.auctions
                &&& final(self)@.admins == old(self)@.admins
                &&& final(self)@.config == old(self)@.config
                &&& final(self)@.state == StateV {
                    listing_count: gauge_dec(old(self)@.state.listing_count),
                    ..old(self)@.state
                }
                &&& instr_views(instrs@) =~= seq![
                    InstrV::TransferCustody {
                        collection: collection@,
                        token_id: token_id@,
                        to: caller@,
                    },
                ]
            },
    {
        let li = match self.find_listing(&collection, &token_id) {
            Some(i) => i,
            None => {
                return Err(ContractError::NotFoundError);
            },
        };
        if !(self.listings[li].seller == *caller) {
            return Err(ContractError::AuthorizationError);
        }
        let ghost pre = self@;
        let ghost lkey = (collection@, token_id@);
        let ghost dkey = (collection@, caller@, token_id@);
        let di = match self.find_deposit(&collection, caller, &token_id) {
            Some(i) => i,
            None => {
                proof {
                    assert(pre.deposits.contains_key(dkey));
                }
                return Err(ContractError::NotFoundError);
            },
        };
        proof {
            lemma_kv_map_remove(listing_pairs(self.listings@), li as int);
            lemma_kv_map_remove(deposit_pairs(self.deposits@), di as int);
        }
        let _listing = self.listings.remove(li);
        let _deposit = self.deposits.remove(di);
        proof {
            assert(listing_pairs(self.listings@) =~= listing_pairs(old(self).listings@).remove(
                li as int,
            ));
            assert(deposit_pairs(self.deposits@) =~= deposit_pairs(old(self).deposits@).remove(
                di as int,
            ));
        }
        if self.state.listing_count > 0 {
            self.state.listing_count = self.state.listing_count - 1;
        }
        let instrs = vec![
            Instruction::TransferCustody {
                collection: collection,
                token_id: token_id,
                to: caller.clone(),
            },
        ];
        proof {
            let post = self@;
            assert(post.listings == pre.listings.remove(lkey));
            assert(post.deposits == pre.deposits.remove(dkey));
            assert(auction_pairs(self.auctions@) =~= auction_pairs(old(self).auctions@));
            assert(post.auctions == pre.auctions);
            assert(wf(post)) by {
                assert forall|k: (Seq<char>, Seq<char>)| #[trigger] post.listings.contains_key(
                    k,
                ) implies {
                    let l = post.listings[k];
                    &&& listing_key(l) == k
                    &&& l.royalty <= 100
                    &&& post.deposits.contains_key((l.collection, l.seller, l.token_id))
                    &&& !post.has_live_auction(k.0, k.1)
                } by {
                    assert(pre.listings.contains_key(k));
                    let l = pre.listings[k];
                    assert((l.collection, l.seller, l.token_id) != dkey);
                }
                assert forall|k: (Seq<char>, Seq<char>)| #[trigger] post.auctions.contains_key(
                    k,
                ) implies {
                    let a = post.auctions[k];
                    is_live(a.status) ==> post.deposits.contains_key(
                        (a.collection, a.seller, a.token_id),
                    )
                } by {
                    assert(pre.auctions.contains_key(k));
                    let a = pre.auctions[k];
                    if is_live(a.status) {
                        assert(!pre.has_live_auction(lkey.0, lkey.1));
                        assert((a.collection, a.seller, a.token_id) != dkey);
                    }
                }
                assert forall|dk: (Seq<char>, Seq<char>, Seq<char>)|
                    #[trigger] post.deposits.contains_key(dk) implies {
                    let d = post.deposits[dk];
                    &&& deposit_key(d) == dk
                    &&& ({
                        ||| (post.listings.contains_key((dk.0, dk.2)) && post.listings[
                            (dk.0, dk.2)
                        ].seller == dk.1)
                        ||| (post.auctions.contains_key((dk.0, dk.2)) && is_live(
                            post.auctions[(dk.0, dk.2)].status,
                        ) && post.auctions[(dk.0, dk.2)].seller == dk.1)
                    })
                } by {
                    assert(pre.deposits.contains_key(dk));
                    if (dk.0, dk.2) == lkey {
                        assert(dk == dkey);
                    }
                }
            }
        }
        Ok(instrs)
    }

    /// Buy a listed token at exactly its listed price. The royalty share
    /// `floor(price * royalty / 100)` goes to the fee recipient and the
    /// remainder to the seller, atomically with the custody transfer to
    /// the buyer; the listing and its deposit are removed.
    pub fn buy_nft(&mut self, buyer: &String, collection: String, token_id: String, funds_paid:
        u128) -> (r: Result<Vec<Instruction>, ContractError>)
        requires
            old(self).inv(),
        ensures
            final(self).inv(),
            statuses_step_ok(old(self)@, final(self)@),
            err_of(r) == buy_err(old(self)@, buyer@, collection@, token_id@, funds_paid as int),
            r is Err ==> *final(self) == *old(self),
            r matches Ok(instrs) ==> {
                let l = old(self)@.listings[(collection@, token_id@)];
                let fee = crate::royalty::royalty_of(l.price, l.royalty);
                &&& final(self)@.listings == old(self)@.listings.remove((collection@, token_id@))
                &&& final(self)@.deposits == old(self)@.deposits.remove(
                    (collection@, l.seller, token_id@),
                )
                &&& final(self)@.auctions == old(self)@.auctions
                &&& final(self)@.admins == old(self)@.admins
                &&& final(self)@.config == old(self)@.config
                &&& final(self)@.state == old(self)@.state
                &&& instr_views(instrs@) =~= seq![
                    InstrV::TransferCustody {
                        collection: collection@,
                        token_id: token_id@,
                        to: buyer@,
                    },
                    InstrV::Pay {
                        to: l.seller,
                        denom: old(self)@.config.native_denom,
                        amount: l.price - fee,
                    },
                    InstrV::Pay {
                        to: old(self)@.state.collection_fabric_address,
                        denom: old(self)@.config.native_denom,
                        amount: fee,
                    },
                ]
            },
    {
        let li = match self.find_listing(&collection, &token_id) {
            Some(i) => i,
            None => {
                return Err(ContractError::NotFoundError);
            },
        };
        if self.listings[li].seller == *buyer {
            return Err(ContractError::StateConflict);
        }
        if funds_paid != self.listings[li].price {
            return Err(ContractError::PaymentError);
        }
        let ghost pre = self@;
        let ghost lkey = (collection@, token_id@);
        let ghost dkey = (collection@, pre.listings[lkey].seller, token_id@);
        let di = match self.find_deposit(&collection, &self.listings[li].seller, &token_id) {
            Some(i) => i,
            None => {
                proof {
                    assert(pre.deposits.contains_key(dkey));
                }
                return Err(ContractError::NotFoundError);
            },
        };
        proof {
            lemma_kv_map_remove(listing_pairs(self.listings@), li as int);
            lemma_kv_map_remove(deposit_pairs(self.deposits@), di as int);
        }
        let listing = self.listings.remove(li);
        let _deposit = self.deposits.remove(di);
        proof {
            assert(listing_pairs(self.listings@) =~= listing_pairs(old(self).listings@).remove(
                li as int,
            ));
            assert(deposit_pairs(self.deposits@) =~= deposit_pairs(old(self).deposits@).remove(
                di as int,
            ));
        }
        let fee = crate::royalty::compute_royalty(listing.price, listing.royalty);
        let seller_amount = listing.price - fee;
        let instrs = vec![
            Instruction::TransferCustody {
                collection: collection,
                token_id: token_id,
                to: buyer.clone(),
            },
            Instruction::Pay {
                to: listing.seller,
                denom: self.config.native_denom.clone(),
                amount: seller_amount,
            },
            Instruction::Pay {
                to: self.state.collection_fabric_address.clone(),
                denom: self.config.native_denom.clone(),
                amount: fee,
            },
        ];
        proof {
            let post = self@;
            assert(post.listings == pre.listings.remove(lkey));
            assert(post.deposits == pre.deposits.remove(dkey));
            assert(auction_pairs(self.auctions@) =~= auction_pairs(old(self).auctions@));
            assert(post.auctions == pre.auctions);
            assert(wf(post)) by {
                assert forall|k: (Seq<char>, Seq<char>)| #[trigger] post.listings.contains_key(
                    k,
                ) implies {
                    let l = post.listings[k];
                    &&& listing_key(l) == k
                    &&& l.royalty <= 100
                    &&& post.deposits.contains_key((l.collection, l.seller, l.token_id))
                    &&& !post.has_live_auction(k.0, k.1)
                } by {
                    assert(pre.listings.contains_key(k));
                    let l = pre.listings[k];
                    assert((l.collection, l.seller, l.token_id) != dkey);
                }
                assert forall|k: (Seq<char>, Seq<char>)| #[trigger] post.auctions.contains_key(
                    k,
                ) implies {
                    let a = post.auctions[k];
                    is_live(a.status) ==> post.deposits.contains_key(
                        (a.collection, a.seller, a.token_id),
                    )
                } by {
                    assert(pre.auctions.contains_key(k));
                    let a = pre.auctions[k];
                    if is_live(a.status) {
                        assert(!pre.has_live_auction(lkey.0, lkey.1));
                        assert((a.collection, a.seller, a.token_id) != dkey);
                    }
                }
                assert forall|dk: (Seq<char>, Seq<char>, Seq<char>)|
                    #[trigger] post.deposits.contains_key(dk) implies {
                    let d = post.deposits[dk];
                    &&& deposit_key(d) == dk
                    &&& ({
                        ||| (post.listings.contains_key((dk.0, dk.2)) && post.listings[
                            (dk.0, dk.2)
                        ].seller == dk.1)
                        ||| (post.auctions.contains_key((dk.0, dk.2)) && is_live(
                            post.auctions[(dk.0, dk.2)].status,
                        ) && post.auctions[(dk.0, dk.2)].seller == dk.1)
                    })
                } by {
                    assert(pre.deposits.contains_key(dk));
                    if (dk.0, dk.2) == lkey {
                        assert(dk == dkey);
                    }
                }
            }
        }
        Ok(instrs)
    }

    /// Buy several listed tokens in one atomic command. A first pass
    /// validates every ask and accumulates the total price; if any ask is
    /// invalid or the funds differ from the total, nothing changes and
    /// nothing is emitted. Only then does the second pass settle every
    /// ask: custody to the buyer, the full listed price to its seller,
    /// and the listing and deposit removed.
    pub fn buy_batch(&mut self, buyer: &String, asks: &Vec<(String, String)>, funds_paid: u128) -> (r:
        Result<Vec<Instruction>, ContractError>)
        requires
            old(self).inv(),
        ensures
            final(self).inv(),
            statuses_step_ok(old(self)@, final(self)@),
            err_of(r) == buy_batch_err(old(self)@, buyer@, ask_keys(asks@), funds_paid as int),
            r is Err ==> *final(self) == *old(self),
            r matches Ok(instrs) ==> {
                let keys = ask_keys(asks@);
                &&& final(self)@.listings == old(self)@.listings.remove_keys(keys.to_set())
                &&& final(self)@.deposits == old(self)@.deposits.remove_keys(
                    batch_deposit_keys(old(self)@, keys).to_set(),
                )
                &&& final(self)@.auctions == old(self)@.auctions
                &&& final(self)@.admins == old(self)@.admins
                &&& final(self)@.config == old(self)@.config
                &&& final(self)@.state == old(self)@.state
                &&& instr_views(instrs@) =~= batch_nft_instrs(buyer@, keys) + batch_pay_instrs(
                    old(self)@,
                    keys,
                )
            },
    {
        let ghost keys = ask_keys(asks@);
        let ghost pre = old(self)@;
        let n = asks.len();
        let mut total: u128 = 0;
        let ghost mut gtotal: int = 0;
        let mut overflowed: bool = false;
        let mut i: usize = 0;
        proof {
            assert(keys.subrange(0, n as int) =~= keys);
        }
        while i < n
            invariant
                old(self).inv(),
                *self == *old(self),
                n == asks.len(),
                keys == ask_keys(asks@),
                pre == old(self)@,
                i <= n,
                batch_scan_err(pre, buyer@, keys) == batch_scan_err(
                    pre,
                    buyer@,
                    keys.subrange(i as int, n as int),
                ),
                batch_total(pre, keys) == gtotal + batch_total(
                    pre,
                    keys.subrange(i as int, n as int),
                ),
                !overflowed ==> total as int == gtotal,
                overflowed ==> gtotal > u128::MAX as int,
                forall|j: int|
                    0 <= j < i ==> #[trigger] pre.listings.contains_key(keys[j])
                        && pre.listings[keys[j]].seller != buyer@,
            decreases n - i,
        {
            let ghost suffix = keys.subrange(i as int, n as int);
            proof {
                assert(suffix[0] == keys[i as int]);
                assert(keys[i as int] == (asks@[i as int].0@, asks@[i as int].1@));
            }
            let li = match self.find_listing(&asks[i].0, &asks[i].1) {
                Some(li) => li,
                None => {
                    return Err(ContractError::NotFoundError);
                },
            };
            if self.listings[li].seller == *buyer {
                return Err(ContractError::StateConflict);
            }
            let p = self.listings[li].price;
            if !overflowed {
                if total <= u128::MAX - p {
                    total = total + p;
                } else {
                    overflowed = true;
                }
            }
            proof {
                gtotal = gtotal + p as int;
                assert(suffix.drop_first() =~= keys.subrange(i + 1, n as int));
                assert(batch_scan_err(pre, buyer@, suffix) == batch_scan_err(
                    pre,
                    buyer@,
                    keys.subrange(i + 1, n as int),
                ));
                assert(batch_total(pre, suffix) == p + batch_total(
                    pre,
                    keys.subrange(i + 1, n as int),
                ));
            }
            i += 1;
        }
        proof {
            assert(keys.subrange(n as int, n as int) =~= Seq::<(Seq<char>, Seq<char>)>::empty());
            assert(batch_scan_err(pre, buyer@, keys) is None);
            assert(batch_total(pre, keys) == gtotal);
        }
        if overflowed || funds_paid != total {
            return Err(ContractError::PaymentError);
        }
        let mut oi: usize = 0;
        while oi < n
            invariant
                old(self).inv(),
                *self == *old(self),
                n == asks.len(),
                keys == ask_keys(asks@),
                pre == old(self)@,
                batch_scan_err(pre, buyer@, keys) is None,
                funds_paid as int == batch_total(pre, keys),
                oi <= n,
                forall|a: int, b: int| 0 <= a < b < n && a < oi ==> keys[a] != keys[b],
            decreases n - oi,
        {
            let mut j: usize = oi + 1;
            while j < n
                invariant
                    old(self).inv(),
                    *self == *old(self),
                    n == asks.len(),
                    keys == ask_keys(asks@),
                    pre == old(self)@,
                    batch_scan_err(pre, buyer@, keys) is None,
                    funds_paid as int == batch_total(pre, keys),
                    oi < n,
                    oi + 1 <= j <= n,
                    forall|a: int, b: int| 0 <= a < b < n && a < oi ==> keys[a] != keys[b],
                    forall|b: int| oi < b < j ==> keys[oi as int] != keys[b],
                decreases n - j,
            {
                proof {
                    assert(keys[oi as int] == (asks@[oi as int].0@, asks@[oi as int].1@));
                    assert(keys[j as int] == (asks@[j as int].0@, asks@[j as int].1@));
                }
                if asks[oi].0 == asks[j].0 && asks[oi].1 == asks[j].1 {
                    proof {
                        assert(keys[oi as int] == keys[j as int]);
                        assert(!distinct_seq(keys));
                    }
                    return Err(ContractError::NotFoundError);
                }
                j += 1;
            }
            oi += 1;
        }
        assert(distinct_seq(keys));
        let ghost dkeys = batch_deposit_keys(pre, keys);
        let mut nft_instrs: Vec<Instruction> = Vec::new();
        let mut pay_instrs: Vec<Instruction> = Vec::new();
        let mut ci: usize = 0;
        proof {
            assert(pre.listings.remove_keys(keys.subrange(0, 0).to_set()) =~= pre.listings);
            assert(pre.deposits.remove_keys(dkeys.subrange(0, 0).to_set()) =~= pre.deposits);
            assert(instr_views(nft_instrs@) =~= batch_nft_instrs(buyer@, keys.subrange(0, 0)));
            assert(instr_views(pay_instrs@) =~= batch_pay_instrs(pre, keys.subrange(0, 0)));
        }
        while ci < n
            invariant
                self.inv(),
                n == asks.len(),
                keys == ask_keys(asks@),
                dkeys == batch_deposit_keys(pre, keys),
                ci <= n,
                distinct_seq(keys),
                forall|j: int|
                    0 <= j < n ==> #[trigger] pre.listings.contains_key(keys[j])
                        && pre.listings[keys[j]].seller != buyer@,
                forall|j: int|
                    ci <= j < n ==> #[trigger] self@.listings.contains_key(keys[j])
                        && self@.listings[keys[j]] == pre.listings[keys[j]],
                self@.listings == pre.listings.remove_keys(keys.subrange(0, ci as int).to_set()),
                self@.deposits == pre.deposits.remove_keys(dkeys.subrange(0, ci as int).to_set()),
                self@.auctions == pre.auctions,
                self@.admins == pre.admins,
                self@.config == pre.config,
                self@.state == pre.state,
                instr_views(nft_instrs@) == batch_nft_instrs(buyer@, keys.subrange(0, ci as int)),
                instr_views(pay_instrs@) == batch_pay_instrs(pre, keys.subrange(0, ci as int)),
            decreases n - ci,
        {
            let ghost cur = self@;
            let ghost k = keys[ci as int];
            proof {
                assert(k == (asks@[ci as int].0@, asks@[ci as int].1@));
            }
            let li = match self.find_listing(&asks[ci].0, &asks[ci].1) {
                Some(v) => v,
                None => {
                    proof {
                        assert(cur.listings.contains_key(k));
                    }
                    return Err(ContractError::NotFoundError);
                },
            };
            let ghost dk = dkeys[ci as int];
            proof {
                assert(dk == (k.0, pre.listings[k].seller, k.1));
                assert(cur.listings[k] == pre.listings[k]);
                assert(cur.listings.contains_key(k));
                assert(cur.deposits.contains_key(
                    (
                        cur.listings[k].collection,
                        cur.listings[k].seller,
                        cur.listings[k].token_id,
                    ),
                ));
                assert(listing_key(cur.listings[k]) == k);
                assert(cur.deposits.contains_key(dk));
            }
            let di = match self.find_deposit(&asks[ci].0, &self.listings[li].seller, &asks[ci].1) {
                Some(v) => v,
                None => {
                    proof {
                        assert(false);
                    }
                    return Err(ContractError::NotFoundError);
                },
            };
            let ghost nft_prev = nft_instrs@;
            let ghost pay_prev = pay_instrs@;
            nft_instrs.push(
                Instruction::TransferCustody {
                    collection: asks[ci].0.clone(),
                    token_id: asks[ci].1.clone(),
                    to: buyer.clone(),
                },
            );
            pay_instrs.push(
                Instruction::Pay {
                    to: self.listings[li].seller.clone(),
                    denom: self.config.native_denom.clone(),
                    amount: self.listings[li].price,
                },
            );
            proof {
                assert(nft_instrs@ =~= nft_prev.push(nft_instrs@[nft_prev.len() as int]));
                assert(nft_instrs@[nft_prev.len() as int]@ == (InstrV::TransferCustody {
                    collection: k.0,
                    token_id: k.1,
                    to: buyer@,
                }));
                assert(pay_instrs@[pay_prev.len() as int]@ == (InstrV::Pay {
                    to: cur.listings[k].seller,
                    denom: cur.config.native_denom,
                    amount: cur.listings[k].price,
                }));
            }
            proof {
                lemma_kv_map_remove(listing_pairs(self.listings@), li as int);
                lemma_kv_map_remove(deposit_pairs(self.deposits@), di as int);
            }
            let ghost lvec = self.listings@;
            let ghost dvec = self.deposits@;
            let _listing = self.listings.remove(li);
            let _deposit = self.deposits.remove(di);
            proof {
                assert(listing_pairs(self.listings@) =~= listing_pairs(lvec).remove(li as int));
                assert(deposit_pairs(self.deposits@) =~= deposit_pairs(dvec).remove(di as int));
                let post = self@;
                assert(post.listings == cur.listings.remove(k));
                assert(post.deposits == cur.deposits.remove(dk));
                assert(post.auctions == cur.auctions);
                assert(keys.subrange(0, ci + 1) =~= keys.subrange(0, ci as int).push(k));
                assert(dkeys.subrange(0, ci + 1) =~= dkeys.subrange(0, ci as int).push(dk));
                assert(post.listings =~= pre.listings.remove_keys(
                    keys.subrange(0, ci + 1).to_set(),
                )) by {
                    assert forall|x: (Seq<char>, Seq<char>)|
                        keys.subrange(0, ci + 1).to_set().contains(x)
                            <==> (keys.subrange(0, ci as int).to_set().contains(x) || x == k) by {
                        if keys.subrange(0, ci + 1).contains(x) {
                            let ix = choose|ix: int|
                                0 <= ix < keys.subrange(0, ci + 1).len() && #[trigger] keys.subrange(
                                    0,
                                    ci + 1,
                                )[ix] == x;
                            if ix < ci {
                                assert(keys.subrange(0, ci as int)[ix] == x);
                            }
                        }
                        if keys.subrange(0, ci as int).contains(x) {
                            let ix = choose|ix: int|
                                0 <= ix < keys.subrange(0, ci as int).len() && #[trigger] keys.subrange(
                                    0,
                                    ci as int,
                                )[ix] == x;
                            assert(keys.subrange(0, ci + 1)[ix] == x);
                        }
                        if x == k {
                            assert(keys.subrange(0, ci + 1)[ci as int] == x);
                        }
                    }
                }
                assert(post.deposits =~= pre.deposits.remove_keys(
                    dkeys.subrange(0, ci + 1).to_set(),
                )) by {
                    assert forall|x: (Seq<char>, Seq<char>, Seq<char>)|
                        dkeys.subrange(0, ci + 1).to_set().contains(x)
                            <==> (dkeys.subrange(0, ci as int).to_set().contains(x) || x == dk) by {
                        if dkeys.subrange(0, ci + 1).contains(x) {
                            let ix = choose|ix: int|
                                0 <= ix < dkeys.subrange(0, ci + 1).len() && #[trigger] dkeys.subrange(
                                    0,
                                    ci + 1,
                                )[ix] == x;
                            if ix < ci {
                                assert(dkeys.subrange(0, ci as int)[ix] == x);
                            }
                        }
                        if dkeys.subrange(0, ci as int).contains(x) {
                            let ix = choose|ix: int|
                                0 <= ix < dkeys.subrange(0, ci as int).len() && #[trigger] dkeys.subrange(
                                    0,
                                    ci as int,
                                )[ix] == x;
                            assert(dkeys.subrange(0, ci + 1)[ix] == x);
                        }
                        if x == dk {
                            assert(dkeys.subrange(0, ci + 1)[ci as int] == x);
                        }
                    }
                }
                assert(wf(post)) by {
                    assert forall|kk: (Seq<char>, Seq<char>)| #[trigger] post.listings.contains_key(
                        kk,
                    ) implies {
                        let l = post.listings[kk];
                        &&& listing_key(l) == kk
                        &&& l.royalty <= 100
                        &&& post.deposits.contains_key((l.collection, l.seller, l.token_id))
                        &&& !post.has_live_auction(kk.0, kk.1)
                    } by {
                        assert(cur.listings.contains_key(kk));
                        let l = cur.listings[kk];
                        assert((l.collection, l.seller, l.token_id) != dk);
                    }
                    assert forall|kk: (Seq<char>, Seq<char>)| #[trigger] post.auctions.contains_key(
                        kk,
                    ) implies {
                        let a = post.auctions[kk];
                        is_live(a.status) ==> post.deposits.contains_key(
                            (a.collection, a.seller, a.token_id),
                        )
                    } by {
                        assert(cur.auctions.contains_key(kk));
                        let a = cur.auctions[kk];
                        if is_live(a.status) {
                            assert(!cur.has_live_auction(k.0, k.1));
                            assert((a.collection, a.seller, a.token_id) != dk);
                        }
                    }
                    assert forall|dkk: (Seq<char>, Seq<char>, Seq<char>)|
                        #[trigger] post.deposits.contains_key(dkk) implies {
                        let d = post.deposits[dkk];
                        &&& deposit_key(d) == dkk
                        &&& ({
                            ||| (post.listings.contains_key((dkk.0, dkk.2)) && post.listings[
                                (dkk.0, dkk.2)
                            ].seller == dkk.1)
                            ||| (post.auctions.contains_key((dkk.0, dkk.2)) && is_live(
                                post.auctions[(dkk.0, dkk.2)].status,
                            ) && post.auctions[(dkk.0, dkk.2)].seller == dkk.1)
                        })
                    } by {
                        assert(cur.deposits.contains_key(dkk));
                        if (dkk.0, dkk.2) == k {
                            assert(dkk == dk);
                        }
                    }
                }
                assert forall|j: int|
                    ci + 1 <= j < n implies #[trigger] post.listings.contains_key(keys[j])
                    && post.listings[keys[j]] == pre.listings[keys[j]] by {
                    assert(keys[j] != k);
                    assert(cur.listings.contains_key(keys[j]));
                }
                assert(instr_views(nft_instrs@) =~= batch_nft_instrs(
                    buyer@,
                    keys.subrange(0, ci + 1),
                )) by {
                    assert(instr_views(nft_prev).len() == nft_prev.len());
                    assert(batch_nft_instrs(buyer@, keys.subrange(0, ci as int)).len()
                        == ci as int);
                    assert(nft_instrs@.len() == ci + 1);
                    assert forall|ix: int| 0 <= ix < nft_instrs@.len() implies instr_views(
                        nft_instrs@,
                    )[ix] == batch_nft_instrs(buyer@, keys.subrange(0, ci + 1))[ix] by {
                        assert(keys.subrange(0, ci + 1)[ix] == keys[ix]);
                        if ix < ci {
                            assert(instr_views(nft_instrs@)[ix] == instr_views(nft_prev)[ix]);
                            assert(instr_views(nft_prev)[ix] == batch_nft_instrs(
                                buyer@,
                                keys.subrange(0, ci as int),
                            )[ix]);
                            assert(keys.subrange(0, ci as int)[ix] == keys[ix]);
                        }
                    }
                }
                assert(instr_views(pay_instrs@) =~= batch_pay_instrs(
                    pre,
                    keys.subrange(0, ci + 1),
                )) by {
                    assert(instr_views(pay_prev).len() == pay_prev.len());
                    assert(batch_pay_instrs(pre, keys.subrange(0, ci as int)).len() == ci as int);
                    assert(pay_instrs@.len() == ci + 1);
                    assert forall|ix: int| 0 <= ix < pay_instrs@.len() implies instr_views(
                        pay_instrs@,
                    )[ix] == batch_pay_instrs(pre, keys.subrange(0, ci + 1))[ix] by {
                        assert(keys.subrange(0, ci + 1)[ix] == keys[ix]);
                        if ix < ci {
                            assert(instr_views(pay_instrs@)[ix] == instr_views(pay_prev)[ix]);
                            assert(instr_views(pay_prev)[ix] == batch_pay_instrs(
                                pre,
                                keys.subrange(0, ci as int),
                            )[ix]);
                            assert(keys.subrange(0, ci as int)[ix] == keys[ix]);
                        } else {
                            assert(cur.listings[k] == pre.listings[k]);
                            assert(cur.config == pre.config);
                        }
                    }
                }
            }
            ci += 1;
        }
        proof {
            assert(keys.subrange(0, n as int) =~= keys);
            assert(dkeys.subrange(0, n as int) =~= dkeys);
        }
        let mut instrs = nft_instrs;
        instrs.append(&mut pay_instrs);
        proof {
            assert(instr_views(instrs@) =~= batch_nft_instrs(buyer@, keys) + batch_pay_instrs(
                pre,
                keys,
            ));
        }
        Ok(instrs)
    }

    /// Create a timed auction on behalf of `owner`. The host must have
    /// queried the custody collaborator for the token's current owner and
    /// pass the answer as `nft_owner`; all information is gathered before
    /// any instruction is emitted. On success the auction starts waiting,
    /// a deposit is recorded, the auction gauge is adjusted upward, and
    /// the token is moved into marketplace custody.
    pub fn execute_list_nft_for_auction(
        &mut self,
        owner: String,
        collection: String,
        token_id: String,
        start_price: u128,
        min_bid_step: u128,
        start_time: u64,
        end_time: u64,
        royalty: u128,
        nft_owner: &String,
        now: u64,
        marketplace: &String,
    ) -> (r: Result<Vec<Instruction>, ContractError>)
        requires
            old(self).inv(),
        ensures
            final(self).inv(),
            r is Ok ==> forall|k: (Seq<char>, Seq<char>)| #[trigger]
                old(self)@.auctions.contains_key(k) ==> if k == (collection@, token_id@) {
                    is_terminal(old(self)@.auctions[k].status) && final(self)@.auctions[k].status
                        == AuctionStatus::WaitingAuction
                } else {
                    final(self)@.auctions.contains_key(k) && final(self)@.auctions[k] == old(
                        self,
                    )@.auctions[k]
                },
            r is Err ==> statuses_step_ok(old(self)@, final(self)@),
            err_of(r) == create_auction_err(
                old(self)@,
                owner@,
                collection@,
                token_id@,
                start_price as int,
                min_bid_step as int,
                start_time as int,
                end_time as int,
                royalty as int,
                nft_owner@,
                now as int,
            ),
            r is Err ==> *final(self) == *old(self),
            r matches Ok(instrs) ==> {
                &&& final(self)@.auctions == old(self)@.auctions.insert(
                    (collection@, token_id@),
                    AuctionV {
                        seller: owner@,
                        collection: collection@,
                        token_id: token_id@,
                        start_price: start_price as int,
                        min_bid_step: min_bid_step as int,
                        start_time: start_time as int,
                        end_time: end_time as int,
                        current_price: 0,
                        current_bidder: None,
                        status: AuctionStatus::WaitingAuction,
                        royalty: royalty as int,
                    },
                )
                &&& final(self)@.deposits == old(self)@.deposits.insert(
                    (collection@, owner@, token_id@),
                    DepositsV { owner: owner@, collection: collection@, token_id: token_id@ },
                )
                &&& final(self)@.listings == old(self)@.listings
                &&& final(self)@.admins == old(self)@.admins
                &&& final(self)@.config == old(self)@.config
                &&& final(self)@.state == StateV {
                    auction_count: gauge_inc(old(self)@.state.auction_count),
                    ..old(self)@.state
                }
                &&& instr_views(instrs@) =~= seq![
                    InstrV::TransferCustody {
                        collection: collection@,
                        token_id: token_id@,
                        to: marketplace@,
                    },
                ]
            },
    {
        if !(*nft_owner == owner) {
            return Err(ContractError::AuthorizationError);
        }
        if start_price == 0 {
            return Err(ContractError::ValidationError);
        }
        if min_bid_step == 0 {
            return Err(ContractError::ValidationError);
        }
        if end_time < start_time {
            return Err(ContractError::ValidationError);
        }
        if start_time < now {
            return Err(ContractError::ValidationError);
        }
        if royalty > 100 {
            return Err(ContractError::ValidationError);
        }
        if self.find_deposit(&collection, &owner, &token_id).is_some() {
            return Err(ContractError::StateConflict);
        }
        if self.find_listing(&collection, &token_id).is_some() {
            return Err(ContractError::StateConflict);
        }
        let ghost pre = self@;
        let ghost akey = (collection@, token_id@);
        let ghost dkey = (collection@, owner@, token_id@);
        if let Some(ai) = self.find_auction(&collection, &token_id) {
            let live = matches!(
                self.auctions[ai].status,
                AuctionStatus::WaitingAuction | AuctionStatus::InAuction
            );
            if live {
                return Err(ContractError::StateConflict);
            }
            // a terminal record may be replaced by a fresh auction
            proof {
                lemma_kv_map_remove(auction_pairs(self.auctions@), ai as int);
            }
            let _old_auction = self.auctions.remove(ai);
            proof {
                assert(auction_pairs(self.auctions@) =~= auction_pairs(old(self).auctions@).remove(
                    ai as int,
                ));
            }
        }
        let deposit = Deposits {
            owner: owner.clone(),
            collection: collection.clone(),
            token_id: token_id.clone(),
        };
        let auction = Auction {
            seller: owner,
            collection: collection.clone(),
            token_id: token_id.clone(),
            start_price,
            min_bid_step,
            start_time,
            end_time,
            current_price: 0,
            current_bidder: None,
            status: AuctionStatus::WaitingAuction,
            royalty,
        };
        let ghost av = auction@;
        let ghost dv = deposit@;
        proof {
            lemma_kv_map_push(deposit_pairs(self.deposits@), dkey, dv);
            lemma_kv_unique_push(deposit_pairs(self.deposits@), dkey, dv);
            lemma_kv_map_push(auction_pairs(self.auctions@), akey, av);
            lemma_kv_unique_push(auction_pairs(self.auctions@), akey, av);
            assert(!kv_map(auction_pairs(self.auctions@)).contains_key(akey));
        }
        let ghost mid_auctions = self.auctions@;
        self.deposits.push(deposit);
        self.auctions.push(auction);
        proof {
            assert(deposit_pairs(self.deposits@) =~= deposit_pairs(old(self).deposits@).push(
                (dkey, dv),
            ));
            assert(auction_pairs(self.auctions@) =~= auction_pairs(mid_auctions).push((akey, av)));
        }
        if self.state.auction_count < u128::MAX {
            self.state.auction_count = self.state.auction_count + 1;
        }
        let instrs = vec![
            Instruction::TransferCustody {
                collection: collection,
                token_id: token_id,
                to: marketplace.clone(),
            },
        ];
        proof {
            let post = self@;
            assert(post.auctions =~= pre.auctions.insert(akey, av));
            assert(post.deposits == pre.deposits.insert(dkey, dv));
            assert(listing_pairs(self.listings@) =~= listing_pairs(old(self).listings@));
            assert(post.listings == pre.listings);
            assert(wf(post)) by {
                assert forall|k: (Seq<char>, Seq<char>)| #[trigger] post.listings.contains_key(
                    k,
                ) implies {
                    let l = post.listings[k];
                    &&& listing_key(l) == k
                    &&& l.royalty <= 100
                    &&& post.deposits.contains_key((l.collection, l.seller, l.token_id))
                    &&& !post.has_live_auction(k.0, k.1)
                } by {
                    assert(pre.listings.contains_key(k));
                    assert(k != akey);
                }
                assert forall|k: (Seq<char>, Seq<char>)| #[trigger] post.auctions.contains_key(
                    k,
                ) implies {
                    let a = post.auctions[k];
                    &&& auction_key(a) == k
                    &&& a.royalty <= 100
                    &&& a.start_price >= 1
                    &&& a.min_bid_step >= 1
                    &&& a.start_time <= a.end_time
                    &&& (is_live(a.status) ==> post.deposits.contains_key(
                        (a.collection, a.seller, a.token_id),
                    ))
                } by {
                    if k != akey {
                        assert(pre.auctions.contains_key(k));
                    }
                }
                assert forall|dk: (Seq<char>, Seq<char>, Seq<char>)|
                    #[trigger] post.deposits.contains_key(dk) implies {
                    let d = post.deposits[dk];
                    &&& deposit_key(d) == dk
                    &&& ({
                        ||| (post.listings.contains_key((dk.0, dk.2)) && post.listings[
                            (dk.0, dk.2)
                        ].seller == dk.1)
                        ||| (post.auctions.contains_key((dk.0, dk.2)) && is_live(
                            post.auctions[(dk.0, dk.2)].status,
                        ) && post.auctions[(dk.0, dk.2)].seller == dk.1)
                    })
                } by {
                    if dk != dkey {
                        assert(pre.deposits.contains_key(dk));
                        assert((dk.0, dk.2) != akey);
                    }
                }
            }
        }
        Ok(instrs)
    }

    /// Open bidding on a waiting auction whose start time has arrived.
    /// Only the seller or an admin may start it.
    pub fn start_auction(&mut self, caller: &String, collection: String, token_id: String, now:
        u64) -> (r: Result<Vec<Instruction>, ContractError>)
        requires
            old(self).inv(),
        ensures
            final(self).inv(),
            statuses_step_ok(old(self)@, final(self)@),
            err_of(r) == start_auction_err(old(self)@, caller@, collection@, token_id@, now as int),
            r is Err ==> *final(self) == *old(self),
            r matches Ok(instrs) ==> {
                let a = old(self)@.auctions[(collection@, token_id@)];
                &&& final(self)@.auctions == old(self)@.auctions.insert(
                    (collection@, token_id@),
                    AuctionV { status: AuctionStatus::InAuction, ..a },
                )
                &&& final(self)@.listings == old(self)@.listings
                &&& final(self)@.deposits == old(self)@.deposits
                &&& final(self)@.admins == old(self)@.admins
                &&& final(self)@.config == old(self)@.config
                &&& final(self)@.state == old(self)@.state
                &&& instrs@.len() == 0
            },
    {
        let ai = match self.find_auction(&collection, &token_id) {
            Some(i) => i,
            None => {
                return Err(ContractError::NotFoundError);
            },
        };
        if !(self.auctions[ai].seller == *caller) && !self.is_admin(caller) {
            return Err(ContractError::AuthorizationError);
        }
        if !matches!(self.auctions[ai].status, AuctionStatus::WaitingAuction) {
            return Err(ContractError::StateConflict);
        }
        if self.auctions[ai].start_time > now {
            return Err(ContractError::StateConflict);
        }
        let ghost pre = self@;
        let ghost akey = (collection@, token_id@);
        proof {
            lemma_kv_map_remove(auction_pairs(self.auctions@), ai as int);
        }
        let mut auction = self.auctions.remove(ai);
        proof {
            assert(auction_pairs(self.auctions@) =~= auction_pairs(old(self).auctions@).remove(
                ai as int,
            ));
        }
        auction.status = AuctionStatus::InAuction;
        let ghost av = auction@;
        proof {
            lemma_kv_map_push(auction_pairs(self.auctions@), akey, av);
            lemma_kv_unique_push(auction_pairs(self.auctions@), akey, av);
        }
        let ghost mid_auctions = self.auctions@;
        self.auctions.push(auction);
        proof {
            assert(auction_pairs(self.auctions@) =~= auction_pairs(mid_auctions).push((akey, av)));
            let post = self@;
            assert(post.auctions =~= pre.auctions.insert(akey, av));
            assert(listing_pairs(self.listings@) =~= listing_pairs(old(self).listings@));
            assert(deposit_pairs(self.deposits@) =~= deposit_pairs(old(self).deposits@));
            assert(wf(post)) by {
                assert forall|k: (Seq<char>, Seq<char>)| #[trigger] post.listings.contains_key(
                    k,
                ) implies {
                    let l = post.listings[k];
                    &&& listing_key(l) == k
                    &&& l.royalty <= 100
                    &&& post.deposits.contains_key((l.collection, l.seller, l.token_id))
                    &&& !post.has_live_auction(k.0, k.1)
                } by {
                    assert(pre.listings.contains_key(k));
                    assert(!pre.has_live_auction(k.0, k.1));
                }
                assert forall|k: (Seq<char>, Seq<char>)| #[trigger] post.auctions.contains_key(
                    k,
                ) implies {
                    let a = post.auctions[k];
                    &&& auction_key(a) == k
                    &&& a.royalty <= 100
                    &&& a.start_price >= 1
                    &&& a.min_bid_step >= 1
                    &&& a.start_time <= a.end_time
                    &&& (is_live(a.status) ==> post.deposits.contains_key(
                        (a.collection, a.seller, a.token_id),
                    ))
                } by {
                    if k != akey {
                        assert(pre.auctions.contains_key(k));
                    } else {
                        assert(pre.auctions.contains_key(akey));
                    }
                }
                assert forall|dk: (Seq<char>, Seq<char>, Seq<char>)|
                    #[trigger] post.deposits.contains_key(dk) implies {
                    let d = post.deposits[dk];
                    &&& deposit_key(d) == dk
                    &&& ({
                        ||| (post.listings.contains_key((dk.0, dk.2)) && post.listings[
                            (dk.0, dk.2)
                        ].seller == dk.1)
                        ||| (post.auctions.contains_key((dk.0, dk.2)) && is_live(
                            post.auctions[(dk.0, dk.2)].status,
                        ) && post.auctions[(dk.0, dk.2)].seller == dk.1)
                    })
                } by {
                    assert(pre.deposits.contains_key(dk));
                }
            }
        }
        Ok(Vec::new())
    }

    /// Cancel an auction before bidding has started: only the seller or
    /// an admin may, and only while the auction is still waiting. The
    /// status becomes terminal, the deposit is released, and the token
    /// returns to the seller.
    pub fn cancel_auction(&mut self, caller: &String, collection: String, token_id: String) -> (r:
        Result<Vec<Instruction>, ContractError>)
        requires
            old(self).inv(),
        ensures
            final(self).inv(),
            statuses_step_ok(old(self)@, final(self)@),
            err_of(r) == cancel_auction_err(old(self)@, caller@, collection@, token_id@),
            r is Err ==> *final(self) == *old(self),
            r matches Ok(instrs) ==> {
                let a = old(self)@.auctions[(collection@, token_id@)];
                &&& final(self)@.auctions == old(self)@.auctions.insert(
                    (collection@, token_id@),
                    AuctionV { status: AuctionStatus::Cancelled, ..a },
                )
                &&& final(self)@.deposits == old(self)@.deposits.remove(
                    (collection@, a.seller, token_id@),
                )
                &&& final(self)@.listings == old(self)@.listings
                &&& final(self)@.admins == old(self)@.admins
                &&& final(self)@.config == old(self)@.config
                &&& final(self)@.state == old(self)@.state
                &&& instr_views(instrs@) =~= seq![
                    InstrV::TransferCustody {
                        collection: collection@,
                        token_id: token_id@,
                        to: a.seller,
                    },
                ]
            },
    {
        let ai = match self.find_auction(&collection, &token_id) {
            Some(i) => i,
            None => {
                return Err(ContractError::NotFoundError);
            },
        };
        if !(self.auctions[ai].seller == *caller) && !self.is_admin(caller) {
            return Err(ContractError::AuthorizationError);
        }
        if !matches!(self.auctions[ai].status, AuctionStatus::WaitingAuction) {
            return Err(ContractError::StateConflict);
        }
        let ghost pre = self@;
        let ghost akey = (collection@, token_id@);
        let ghost dkey = (collection@, pre.auctions[akey].seller, token_id@);
        let di = match self.find_deposit(&collection, &self.auctions[ai].seller, &token_id) {
            Some(i) => i,
            None => {
                proof {
                    assert(pre.deposits.contains_key(dkey));
                }
                return Err(ContractError::NotFoundError);
            },
        };
        proof {
            lemma_kv_map_remove(auction_pairs(self.auctions@), ai as int);
            lemma_kv_map_remove(deposit_pairs(self.deposits@), di as int);
        }
        let mut auction = self.auctions.remove(ai);
        let _deposit = self.deposits.remove(di);
        proof {
            assert(auction_pairs(self.auctions@) =~= auction_pairs(old(self).auctions@).remove(
                ai as int,
            ));
            assert(deposit_pairs(self.deposits@) =~= deposit_pairs(old(self).deposits@).remove(
                di as int,
            ));
        }
        auction.status = AuctionStatus::Cancelled;
        let seller = auction.seller.clone();
        let ghost av = auction@;
        proof {
            lemma_kv_map_push(auction_pairs(self.auctions@), akey, av);
            lemma_kv_unique_push(auction_pairs(self.auctions@), akey, av);
        }
        let ghost mid_auctions = self.auctions@;
        self.auctions.push(auction);
        proof {
            assert(auction_pairs(self.auctions@) =~= auction_pairs(mid_auctions).push((akey, av)));
        }
        let instrs = vec![
            Instruction::TransferCustody { collection: collection, token_id: token_id, to: seller },
        ];
        proof {
            let post = self@;
            assert(post.auctions =~= pre.auctions.insert(akey, av));
            assert(post.deposits == pre.deposits.remove(dkey));
            assert(listing_pairs(self.listings@) =~= listing_pairs(old(self).listings@));
            assert(wf(post)) by {
                assert forall|k: (Seq<char>, Seq<char>)| #[trigger] post.listings.contains_key(
                    k,
                ) implies {
                    let l = post.listings[k];
                    &&& listing_key(l) == k
                    &&& l.royalty <= 100
                    &&& post.deposits.contains_key((l.collection, l.seller, l.token_id))
                    &&& !post.has_live_auction(k.0, k.1)
                } by {
                    assert(pre.listings.contains_key(k));
                    let l = pre.listings[k];
                    assert(!pre.has_live_auction(k.0, k.1));
                    assert(k != akey);
                    assert((l.collection, l.seller, l.token_id) != dkey);
                }
                assert forall|k: (Seq<char>, Seq<char>)| #[trigger] post.auctions.contains_key(
                    k,
                ) implies {
                    let a = post.auctions[k];
                    &&& auction_key(a) == k
                    &&& a.royalty <= 100
                    &&& a.start_price >= 1
                    &&& a.min_bid_step >= 1
                    &&& a.start_time <= a.end_time
                    &&& (is_live(a.status) ==> post.deposits.contains_key(
                        (a.collection, a.seller, a.token_id),
                    ))
                } by {
                    if k != akey {
                        assert(pre.auctions.contains_key(k));
                        let a = pre.auctions[k];
                        if is_live(a.status) {
                            assert((a.collection, a.seller, a.token_id) != dkey);
                        }
                    }
                }
                assert forall|dk: (Seq<char>, Seq<char>, Seq<char>)|
                    #[trigger] post.deposits.contains_key(dk) implies {
                    let d = post.deposits[dk];
                    &&& deposit_key(d) == dk
                    &&& ({
                        ||| (post.listings.contains_key((dk.0, dk.2)) && post.listings[
                            (dk.0, dk.2)
                        ].seller == dk.1)
                        ||| (post.auctions.contains_key((dk.0, dk.2)) && is_live(
                            post.auctions[(dk.0, dk.2)].status,
                        ) && post.auctions[(dk.0, dk.2)].seller == dk.1)
                    })
                } by {
                    assert(pre.deposits.contains_key(dk));
                    if (dk.0, dk.2) == akey {
                        assert(dk == dkey);
                    }
                }
            }
        }
        Ok(instrs)
    }

    /// Place a bid on a running auction. On success the bid amount moves
    /// into marketplace custody (`marketplace` is the marketplace's own
    /// account) and, atomically in the same result, the previous bidder's
    /// standing amount is refunded, so at most one bidder's funds are ever
    /// held; the auction records the new price and bidder.
    pub fn bid_nft(
        &mut self,
        bidder: &String,
        collection: String,
        token_id: String,
        price: u128,
        now: u64,
        marketplace: &String,
    ) -> (r: Result<Vec<Instruction>, ContractError>)
        requires
            old(self).inv(),
        ensures
            final(self).inv(),
            statuses_step_ok(old(self)@, final(self)@),
            err_of(r) == bid_err(old(self)@, collection@, token_id@, price as int, now as int),
            r is Err ==> *final(self) == *old(self),
            r matches Ok(instrs) ==> {
                let a = old(self)@.auctions[(collection@, token_id@)];
                &&& final(self)@.auctions == old(self)@.auctions.insert(
                    (collection@, token_id@),
                    AuctionV {
                        current_price: price as int,
                        current_bidder: Some(bidder@),
                        ..a
                    },
                )
                &&& final(self)@.listings == old(self)@.listings
                &&& final(self)@.deposits == old(self)@.deposits
                &&& final(self)@.admins == old(self)@.admins
                &&& final(self)@.config == old(self)@.config
                &&& final(self)@.state == old(self)@.state
                &&& instr_views(instrs@) =~= (match a.current_bidder {
                    Some(prev) => seq![
                        InstrV::Pay {
                            to: marketplace@,
                            denom: old(self)@.config.native_denom,
                            amount: price as int,
                        },
                        InstrV::Pay {
                            to: prev,
                            denom: old(self)@.config.native_denom,
                            amount: a.current_price,
                        },
                    ],
                    None => seq![
                        InstrV::Pay {
                            to: marketplace@,
                            denom: old(self)@.config.native_denom,
                            amount: price as int,
                        },
                    ],
                })
            },
    {
        let ai = match self.find_auction(&collection, &token_id) {
            Some(i) => i,
            None => {
                return Err(ContractError::NotFoundError);
            },
        };
        if !matches!(self.auctions[ai].status, AuctionStatus::InAuction) {
            return Err(ContractError::StateConflict);
        }
        if now >= self.auctions[ai].end_time {
            return Err(ContractError::StateConflict);
        }
        if price < self.auctions[ai].start_price {
            return Err(ContractError::ValidationError);
        }
        let min_bid: u128 = if self.auctions[ai].current_price
            <= u128::MAX - self.auctions[ai].min_bid_step {
            self.auctions[ai].current_price + self.auctions[ai].min_bid_step
        } else {
            u128::MAX
        };
        if self.auctions[ai].current_bidder.is_some() && price < min_bid {
            return Err(ContractError::ValidationError);
        }
        let ghost pre = self@;
        let ghost akey = (collection@, token_id@);
        let mut instrs: Vec<Instruction> = Vec::new();
        instrs.push(
            Instruction::Pay {
                to: marketplace.clone(),
                denom: self.config.native_denom.clone(),
                amount: price,
            },
        );
        if let Some(prev_bidder) = &self.auctions[ai].current_bidder {
            instrs.push(
                Instruction::Pay {
                    to: prev_bidder.clone(),
                    denom: self.config.native_denom.clone(),
                    amount: self.auctions[ai].current_price,
                },
            );
        }
        proof {
            lemma_kv_map_remove(auction_pairs(self.auctions@), ai as int);
        }
        let mut auction = self.auctions.remove(ai);
        proof {
            assert(auction_pairs(self.auctions@) =~= auction_pairs(old(self).auctions@).remove(
                ai as int,
            ));
        }
        auction.current_price = price;
        auction.current_bidder = Some(bidder.clone());
        let ghost av = auction@;
        proof {
            lemma_kv_map_push(auction_pairs(self.auctions@), akey, av);
            lemma_kv_unique_push(auction_pairs(self.auctions@), akey, av);
        }
        let ghost mid_auctions = self.auctions@;
        self.auctions.push(auction);
        proof {
            assert(auction_pairs(self.auctions@) =~= auction_pairs(mid_auctions).push((akey, av)));
            let post = self@;
            assert(post.auctions =~= pre.auctions.insert(akey, av));
            assert(listing_pairs(self.listings@) =~= listing_pairs(old(self).listings@));
            assert(deposit_pairs(self.deposits@) =~= deposit_pairs(old(self).deposits@));
            assert(wf(post)) by {
                assert forall|k: (Seq<char>, Seq<char>)| #[trigger] post.listings.contains_key(
                    k,
                ) implies {
                    let l = post.listings[k];
                    &&& listing_key(l) == k
                    &&& l.royalty <= 100
                    &&& post.deposits.contains_key((l.collection, l.seller, l.token_id))
                    &&& !post.has_live_auction(k.0, k.1)
                } by {
                    assert(pre.listings.contains_key(k));
                    assert(!pre.has_live_auction(k.0, k.1));
                }
                assert forall|k: (Seq<char>, Seq<char>)| #[trigger] post.auctions.contains_key(
                    k,
                ) implies {
                    let a = post.auctions[k];
                    &&& auction_key(a) == k
                    &&& a.royalty <= 100
                    &&& a.start_price >= 1
                    &&& a.min_bid_step >= 1
                    &&& a.start_time <= a.end_time
                    &&& (is_live(a.status) ==> post.deposits.contains_key(
                        (a.collection, a.seller, a.token_id),
                    ))
                } by {
                    if k != akey {
                        assert(pre.auctions.contains_key(k));
                    } else {
                        assert(pre.auctions.contains_key(akey));
                    }
                }
                assert forall|dk: (Seq<char>, Seq<char>, Seq<char>)|
                    #[trigger] post.deposits.contains_key(dk) implies {
                    let d = post.deposits[dk];
                    &&& deposit_key(d) == dk
                    &&& ({
                        ||| (post.listings.contains_key((dk.0, dk.2)) && post.listings[
                            (dk.0, dk.2)
                        ].seller == dk.1)
                        ||| (post.auctions.contains_key((dk.0, dk.2)) && is_live(
                            post.auctions[(dk.0, dk.2)].status,
                        ) && post.auctions[(dk.0, dk.2)].seller == dk.1)
                    })
                } by {
                    assert(pre.deposits.contains_key(dk));
                }
            }
        }
        Ok(instrs)
    }

    /// Close a running auction whose end time has arrived; anyone may
    /// call. The status becomes terminal (a second claim is a state
    /// conflict) and the deposit is released. With a standing bidder the
    /// token goes to the bidder while the standing price is split between
    /// the seller and the fee recipient by the royalty rule; with no
    /// bidder the token simply returns to the seller and no payment is
    /// emitted.
    pub fn claim_nft(&mut self, collection: String, token_id: String, now: u64) -> (r: Result<
        Vec<Instruction>,
        ContractError,
    >)
        requires
            old(self).inv(),
        ensures
            final(self).inv(),
            statuses_step_ok(old(self)@, final(self)@),
            err_of(r) == claim_err(old(self)@, collection@, token_id@, now as int),
            r is Err ==> *final(self) == *old(self),
            r matches Ok(instrs) ==> {
                let a = old(self)@.auctions[(collection@, token_id@)];
                let fee = crate::royalty::royalty_of(a.current_price, a.royalty);
                &&& final(self)@.auctions == old(self)@.auctions.insert(
                    (collection@, token_id@),
                    AuctionV { status: AuctionStatus::Ended, ..a },
                )
                &&& final(self)@.deposits == old(self)@.deposits.remove(
                    (collection@, a.seller, token_id@),
                )
                &&& final(self)@.listings == old(self)@.listings
                &&& final(self)@.admins == old(self)@.admins
                &&& final(self)@.config == old(self)@.config
                &&& final(self)@.state == old(self)@.state
                &&& instr_views(instrs@) =~= (match a.current_bidder {
                    Some(winner) => seq![
                        InstrV::TransferCustody {
                            collection: collection@,
                            token_id: token_id@,
                            to: winner,
                        },
                        InstrV::Pay {
                            to: a.seller,
                            denom: old(self)@.config.native_denom,
                            amount: a.current_price - fee,
                        },
                        InstrV::Pay {
                            to: old(self)@.state.collection_fabric_address,
                            denom: old(self)@.config.native_denom,
                            amount: fee,
                        },
                    ],
                    None => seq![
                        InstrV::TransferCustody {
                            collection: collection@,
                            token_id: token_id@,
                            to: a.seller,
                        },
                    ],
                })
            },
    {
        let ai = match self.find_auction(&collection, &token_id) {
            Some(i) => i,
            None => {
                return Err(ContractError::NotFoundError);
            },
        };
        if !matches!(self.auctions[ai].status, AuctionStatus::InAuction) {
            return Err(ContractError::StateConflict);
        }
        if now < self.auctions[ai].end_time {
            return Err(ContractError::StateConflict);
        }
        let ghost pre = self@;
        let ghost akey = (collection@, token_id@);
        let ghost dkey = (collection@, pre.auctions[akey].seller, token_id@);
        let di = match self.find_deposit(&collection, &self.auctions[ai].seller, &token_id) {
            Some(i) => i,
            None => {
                proof {
                    assert(pre.deposits.contains_key(dkey));
                }
                return Err(ContractError::NotFoundError);
            },
        };
        let mut instrs: Vec<Instruction> = Vec::new();
        match &self.auctions[ai].current_bidder {
            Some(winner) => {
                instrs.push(
                    Instruction::TransferCustody {
                        collection: collection.clone(),
                        token_id: token_id.clone(),
                        to: winner.clone(),
                    },
                );
                proof {
                    assert(pre.auctions[akey].royalty <= 100);
                }
                let fee = crate::royalty::compute_royalty(
                    self.auctions[ai].current_price,
                    self.auctions[ai].royalty,
                );
                let seller_amount = self.auctions[ai].current_price - fee;
                instrs.push(
                    Instruction::Pay {
                        to: self.auctions[ai].seller.clone(),
                        denom: self.config.native_denom.clone(),
                        amount: seller_amount,
                    },
                );
                instrs.push(
                    Instruction::Pay {
                        to: self.state.collection_fabric_address.clone(),
                        denom: self.config.native_denom.clone(),
                        amount: fee,
                    },
                );
            },
            None => {
                instrs.push(
                    Instruction::TransferCustody {
                        collection: collection.clone(),
                        token_id: token_id.clone(),
                        to: self.auctions[ai].seller.clone(),
                    },
                );
            },
        }
        proof {
            lemma_kv_map_remove(auction_pairs(self.auctions@), ai as int);
            lemma_kv_map_remove(deposit_pairs(self.deposits@), di as int);
        }
        let mut auction = self.auctions.remove(ai);
        let _deposit = self.deposits.remove(di);
        proof {
            assert(auction_pairs(self.auctions@) =~= auction_pairs(old(self).auctions@).remove(
                ai as int,
            ));
            assert(deposit_pairs(self.deposits@) =~= deposit_pairs(old(self).deposits@).remove(
                di as int,
            ));
        }
        auction.status = AuctionStatus::Ended;
        let ghost av = auction@;
        proof {
            lemma_kv_map_push(auction_pairs(self.auctions@), akey, av);
            lemma_kv_unique_push(auction_pairs(self.auctions@), akey, av);
        }
        let ghost mid_auctions = self.auctions@;
        self.auctions.push(auction);
        proof {
            assert(auction_pairs(self.auctions@) =~= auction_pairs(mid_auctions).push((akey, av)));
            let post = self@;
            assert(post.auctions =~= pre.auctions.insert(akey, av));
            assert(post.deposits == pre.deposits.remove(dkey));
            assert(listing_pairs(self.listings@) =~= listing_pairs(old(self).listings@));
            assert(wf(post)) by {
                assert forall|k: (Seq<char>, Seq<char>)| #[trigger] post.listings.contains_key(
                    k,
                ) implies {
                    let l = post.listings[k];
                    &&& listing_key(l) == k
                    &&& l.royalty <= 100
                    &&& post.deposits.contains_key((l.collection, l.seller, l.token_id))
                    &&& !post.has_live_auction(k.0, k.1)
                } by {
                    assert(pre.listings.contains_key(k));
                    let l = pre.listings[k];
                    assert(!pre.has_live_auction(k.0, k.1));
                    assert(k != akey);
                    assert((l.collection, l.seller, l.token_id) != dkey);
                }
                assert forall|k: (Seq<char>, Seq<char>)| #[trigger] post.auctions.contains_key(
                    k,
                ) implies {
                    let a = post.auctions[k];
                    &&& auction_key(a) == k
                    &&& a.royalty <= 100
                    &&& a.start_price >= 1
                    &&& a.min_bid_step >= 1
                    &&& a.start_time <= a.end_time
                    &&& (is_live(a.status) ==> post.deposits.contains_key(
                        (a.collection, a.seller, a.token_id),
                    ))
                } by {
                    if k != akey {
                        assert(pre.auctions.contains_key(k));
                        let a = pre.auctions[k];
                        if is_live(a.status) {
                            assert((a.collection, a.seller, a.token_id) != dkey);
                        }
                    }
                }
                assert forall|dk: (Seq<char>, Seq<char>, Seq<char>)|
                    #[trigger] post.deposits.contains_key(dk) implies {
                    let d = post.deposits[dk];
                    &&& deposit_key(d) == dk
                    &&& ({
                        ||| (post.listings.contains_key((dk.0, dk.2)) && post.listings[
                            (dk.0, dk.2)
                        ].seller == dk.1)
                        ||| (post.auctions.contains_key((dk.0, dk.2)) && is_live(
                            post.auctions[(dk.0, dk.2)].status,
                        ) && post.auctions[(dk.0, dk.2)].seller == dk.1)
                    })
                } by {
                    assert(pre.deposits.contains_key(dk));
                    if (dk.0, dk.2) == akey {
                        assert(dk == dkey);
                    }
                }
            }
        }
        Ok(instrs)
    }

    /// Add an address to the admin list; only the owner may, and an
    /// address already listed is refused.
    pub fn add_admin(&mut self, caller: &String, account_id: String) -> (r: Result<
        Vec<Instruction>,
        ContractError,
    >)
        requires
            old(self).inv(),
        ensures
            final(self).inv(),
            statuses_step_ok(old(self)@, final(self)@),
            err_of(r) == add_admin_err(old(self)@, caller@, account_id@),
            r is Err ==> *final(self) == *old(self),
            r matches Ok(instrs) ==> {
                &&& final(self)@.admins == old(self)@.admins.push(account_id@)
                &&& final(self)@.listings == old(self)@.listings
                &&& final(self)@.auctions == old(self)@.auctions
                &&& final(self)@.deposits == old(self)@.deposits
                &&& final(self)@.config == old(self)@.config
                &&& final(self)@.state == old(self)@.state
                &&& instrs@.len() == 0
            },
    {
        if !(*caller == self.state.owner) {
            return Err(ContractError::AuthorizationError);
        }
        if self.is_admin(&account_id) {
            return Err(ContractError::StateConflict);
        }
        let ghost pre = self@;
        let ghost av = account_id@;
        self.admins.push(account_id);
        proof {
            assert(self@.admins =~= pre.admins.push(av));
            assert(self@.listings == pre.listings);
            assert(self@.auctions == pre.auctions);
            assert(self@.deposits == pre.deposits);
            assert(wf(self@));
            assert forall|i: int, j: int| 0 <= i < j < self.admins@.len() implies self.admins@[i]@
                != self.admins@[j]@ by {
                if j < self.admins@.len() - 1 {
                    assert(self.admins@[i] == old(self).admins@[i]);
                    assert(self.admins@[j] == old(self).admins@[j]);
                } else {
                    assert(self.admins@[i] == old(self).admins@[i]);
                    assert(pre.admins[i] == old(self).admins@[i]@);
                    assert(!pre.is_admin_spec(av));
                }
            }
        }
        Ok(Vec::new())
    }

    /// Remove an address from the admin list; only the owner may, and an
    /// address not listed is refused. Every other address keeps its
    /// membership.
    pub fn remove_admin(&mut self, caller: &String, account_id: &String) -> (r: Result<
        Vec<Instruction>,
        ContractError,
    >)
        requires
            old(self).inv(),
        ensures
            final(self).inv(),
            statuses_step_ok(old(self)@, final(self)@),
            err_of(r) == remove_admin_err(old(self)@, caller@, account_id@),
            r is Err ==> *final(self) == *old(self),
            r matches Ok(instrs) ==> {
                &&& !final(self)@.is_admin_spec(account_id@)
                &&& forall|x: Seq<char>|
                    x != account_id@ ==> (final(self)@.is_admin_spec(x) <==> old(
                        self,
                    )@.is_admin_spec(x))
                &&& final(self)@.admins.len() == old(self)@.admins.len() - 1
                &&& final(self)@.listings == old(self)@.listings
                &&& final(self)@.auctions == old(self)@.auctions
                &&& final(self)@.deposits == old(self)@.deposits
                &&& final(self)@.config == old(self)@.config
                &&& final(self)@.state == old(self)@.state
                &&& instrs@.len() == 0
            },
    {
        if !(*caller == self.state.owner) {
            return Err(ContractError::AuthorizationError);
        }
        let i = match self.find_admin(account_id) {
            Some(i) => i,
            None => {
                return Err(ContractError::NotFoundError);
            },
        };
        let ghost pre = self@;
        let ghost idx = i as int;
        self.admins.remove(i);
        proof {
            assert(self@.admins =~= pre.admins.remove(idx));
            assert(pre.admins[idx] == account_id@);
            assert(self@.listings == pre.listings);
            assert(self@.auctions == pre.auctions);
            assert(self@.deposits == pre.deposits);
            assert(wf(self@));
            assert forall|a: int, b: int| 0 <= a < b < self.admins@.len() implies self.admins@[a]@
                != self.admins@[b]@ by {
                if a < idx {
                    if b < idx {
                        assert(self.admins@[a] == old(self).admins@[a]);
                        assert(self.admins@[b] == old(self).admins@[b]);
                    } else {
                        assert(self.admins@[a] == old(self).admins@[a]);
                        assert(self.admins@[b] == old(self).admins@[b + 1]);
                    }
                } else {
                    assert(self.admins@[a] == old(self).admins@[a + 1]);
                    assert(self.admins@[b] == old(self).admins@[b + 1]);
                }
            }
            assert forall|j: int| 0 <= j < self@.admins.len() implies self@.admins[j]
                != account_id@ by {
                if j < idx {
                    assert(self@.admins[j] == pre.admins[j]);
                } else {
                    assert(self@.admins[j] == pre.admins[j + 1]);
                }
            }
            assert forall|x: Seq<char>| x != account_id@ implies (self@.is_admin_spec(x) <==> pre.is_admin_spec(
                x,
            )) by {
                if self@.is_admin_spec(x) {
                    let j = choose|j: int| 0 <= j < self@.admins.len() && self@.admins[j] == x;
                    if j < idx {
                        assert(pre.admins[j] == x);
                    } else {
                        assert(pre.admins[j + 1] == x);
                    }
                }
                if pre.is_admin_spec(x) {
                    let j = choose|j: int| 0 <= j < pre.admins.len() && pre.admins[j] == x;
                    if j < idx {
                        assert(self@.admins[j] == x);
                    } else {
                        assert(j != idx);
                        assert(self@.admins[j - 1] == x);
                    }
                }
            }
        }
        Ok(Vec::new())
    }

    /// The number of listings created and not yet cancelled.
    pub fn query_listing_count(&self) -> (r: u128)
        ensures
            r as int == self@.state.listing_count,
    {
        self.state.listing_count
    }

    /// The number of auctions created.
    pub fn query_auction_count(&self) -> (r: u128)
        ensures
            r as int == self@.state.auction_count,
    {
        self.state.auction_count
    }

    /// The listing under this key, or a not-found error; never a
    /// zero-valued default.
    pub fn query_listing_by_index(&self, collection: &String, token_id: &String) -> (r: Result<
        &Listing,
        ContractError,
    >)
        requires
            self.inv(),
        ensures
            match r {
                Ok(l) => self@.listings.contains_key((collection@, token_id@)) && l@
                    == self@.listings[(collection@, token_id@)],
                Err(e) => e == ContractError::NotFoundError && !self@.listings.contains_key(
                    (collection@, token_id@),
                ),
            },
    {
        match self.find_listing(collection, token_id) {
            Some(i) => Ok(&self.listings[i]),
            None => Err(ContractError::NotFoundError),
        }
    }

    /// The auction under this key, or a not-found error; never a
    /// zero-valued default.
    pub fn query_auction_by_index(&self, collection: &String, token_id: &String) -> (r: Result<
        &Auction,
        ContractError,
    >)
        requires
            self.inv(),
        ensures
            match r {
                Ok(a) => self@.auctions.contains_key((collection@, token_id@)) && a@
                    == self@.auctions[(collection@, token_id@)],
                Err(e) => e == ContractError::NotFoundError && !self@.auctions.contains_key(
                    (collection@, token_id@),
                ),
            },
    {
        match self.find_auction(collection, token_id) {
            Some(i) => Ok(&self.auctions[i]),
            None => Err(ContractError::NotFoundError),
        }
    }

    /// Admin membership, as a query.
    pub fn query_is_admin(&self, account_id: &String) -> (r: bool)
        ensures
            r == self@.is_admin_spec(account_id@),
    {
        self.is_admin(account_id)
    }

    /// Index of this address on the admin list, if present.
    fn find_admin(&self, account_id: &String) -> (r: Option<usize>)
        ensures
            match r {
                Some(i) => {
                    &&& i < self.admins.len()
                    &&& self.admins@[i as int]@ == account_id@
                    &&& self@.is_admin_spec(account_id@)
                },
                None => !self@.is_admin_spec(account_id@),
            },
    {
        let n = self.admins.len();
        let mut i: usize = 0;
        while i < n
            invariant
                n == self.admins.len(),
                i <= n,
                forall|j: int| 0 <= j < i ==> self.admins@[j]@ != account_id@,
            decreases n - i,
        {
            if self.admins[i] == *account_id {
                assert(self@.admins[i as int] == account_id@);
                return Some(i);
            }
            i += 1;
        }
        proof {
            assert forall|j: int| 0 <= j < self@.admins.len() implies self@.admins[j]
                != account_id@ by {
                assert(self@.admins[j] == self.admins@[j]@);
            }
        }
        None
    }

    /// The address is on the admin list.
    pub fn is_admin(&self, account_id: &String) -> (r: bool)
        ensures
            r == self@.is_admin_spec(account_id@),
    {
        let n = self.admins.len();
        let mut i: usize = 0;
        while i < n
            invariant
                n == self.admins.len(),
                i <= n,
                forall|j: int| 0 <= j < i ==> self.admins@[j]@ != account_id@,
            decreases n - i,
        {
            if self.admins[i] == *account_id {
                assert(self@.admins[i as int] == account_id@);
                return true;
            }
            i += 1;
        }
        assert forall|j: int| 0 <= j < self@.admins.len() implies self@.admins[j]
            != account_id@ by {
            assert(self@.admins[j] == self.admins@[j]@);
        }
        false
    }
}

} // verus!
