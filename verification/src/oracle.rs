use vstd::prelude::*;

use crate::clock::now_secs;
use crate::table::StrMap;

verus! {

/// Scores and confidences are given in millionths (950_000 is 0.95).
pub const SCORE_SCALE: u64 = 1_000_000;

/// A price is fresh enough to serve only at this confidence or above.
pub const MIN_CONFIDENCE: u64 = 700_000;

/// How many past prices a feed keeps.
pub const MAX_HISTORY: usize = 100;

#[derive(Debug, Clone)]
pub struct Oracle {
    pub oracle_id: String,
    pub oracle_type: OracleType,
    pub provider: String,
    pub is_active: bool,
    pub total_updates: u64,
    pub last_update: u64,
    /// In millionths.
    pub reliability_score: u64,
}

#[derive(Debug, Clone, PartialEq, Eq)]
pub enum OracleType {
    PriceFeed,
    RandomNumber,
    Weather,
    Sports,
    Custom(String),
}

#[derive(Debug, Clone)]
pub struct PriceFeed {
    pub symbol: String,
    pub price: u64,
    pub decimals: u8,
    pub last_updated: u64,
    pub source: String,
    /// In millionths.
    pub confidence: u64,
    pub price_history: Vec<PricePoint>,
}

#[derive(Debug, Clone, Copy, PartialEq, Eq, Structural)]
pub struct PricePoint {
    pub timestamp: u64,
    pub price: u64,
}

#[derive(Debug, Clone)]
pub struct DataFeed {
    pub feed_id: String,
    pub data_type: String,
    pub value: Vec<u8>,
    pub last_updated: u64,
    pub source: String,
    pub verified: bool,
}

#[derive(Debug, Clone, Copy)]
pub struct OracleStats {
    pub total_oracles: usize,
    pub active_oracles: usize,
    pub total_price_feeds: usize,
    pub total_data_feeds: usize,
    pub total_updates: u64,
    /// The mean reliability score, in millionths, rounded down.
    pub avg_reliability: u64,
}

/// Why an oracle operation was refused.
#[derive(Debug, Clone, Copy, PartialEq, Eq, Structural)]
pub enum OracleError {
    AlreadyRegistered,
    OracleNotFound,
    OracleNotActive,
    FeedNotFound,
    Stale { age: u64 },
    LowConfidence { confidence: u64 },
}

/// The history after the current price is recorded at `now`: the point is appended and, past
/// the limit, the oldest dropped.
pub open spec fn history_after(h: Seq<PricePoint>, point: PricePoint) -> Seq<PricePoint> {
    if h.push(point).len() > MAX_HISTORY {
        h.push(point).drop_first()
    } else {
        h.push(point)
    }
}

/// `f` is `old` after a new price: the old price goes into the history, the price, time and
/// confidence are replaced, the rest stays.
pub open spec fn feed_updated(f: PriceFeed, old: PriceFeed, price: u64, now: u64, confidence: u64) -> bool {
    &&& f.symbol == old.symbol
    &&& f.decimals == old.decimals
    &&& f.source == old.source
    &&& f.price == price
    &&& f.last_updated == now
    &&& f.confidence == confidence
    &&& f.price_history@ == history_after(
        old.price_history@,
        PricePoint { timestamp: now, price: old.price },
    )
}

/// `f` is a new feed with no history.
pub open spec fn feed_fresh(
    f: PriceFeed,
    symbol: String,
    price: u64,
    decimals: u8,
    now: u64,
    source: String,
    confidence: u64,
) -> bool {
    &&& f.symbol == symbol
    &&& f.price == price
    &&& f.decimals == decimals
    &&& f.last_updated == now
    &&& f.source == source
    &&& f.confidence == confidence
    &&& f.price_history@.len() == 0
}

/// The age of a price at `now` (wrapping when the clock reads earlier than the update).
pub open spec fn age_spec(now: u64, updated: u64) -> u64 {
    if now >= updated {
        (now - updated) as u64
    } else {
        (now + 0x1_0000_0000_0000_0000 - updated) as u64
    }
}

/// The earliest time a TWAP over `period` looks at (wrapping below zero).
pub open spec fn cutoff_spec(now: u64, period: u64) -> u64 {
    age_spec(now, period)
}

/// The prices added up.
pub open spec fn price_sum(s: Seq<PricePoint>) -> int
    decreases s.len(),
{
    if s.len() == 0 {
        0
    } else {
        price_sum(s.drop_last()) + s.last().price
    }
}

/// The time-weighted average price: the mean, rounded down, of the recorded prices at or
/// after the cutoff; the current price when there is none.
pub open spec fn twap_spec(f: PriceFeed, cutoff: u64) -> u64 {
    let recent = f.price_history@.filter(|p: PricePoint| p.timestamp >= cutoff);
    if recent.len() == 0 {
        f.price
    } else {
        (price_sum(recent) / (recent.len() as int)) as u64
    }
}

/// The reliability scores added up.
pub open spec fn score_sum(s: Seq<Oracle>) -> int
    decreases s.len(),
{
    if s.len() == 0 {
        0
    } else {
        score_sum(s.drop_last()) + s.last().reliability_score
    }
}

/// Oracles, the price feeds they keep and the data feeds they publish.
pub struct OracleManager {
    oracles: StrMap<Oracle>,
    price_feeds: StrMap<PriceFeed>,
    data_feeds: StrMap<DataFeed>,
    update_counter: u64,
}

impl OracleManager {
    /// The oracles by id.
    pub closed spec fn oracles(&self) -> Map<Seq<char>, Oracle> {
        self.oracles@
    }

    /// The oracles in the order they were registered.
    pub closed spec fn oracle_list(&self) -> Seq<Oracle> {
        self.oracles.values()
    }

    /// The price feeds by symbol.
    pub closed spec fn feeds(&self) -> Map<Seq<char>, PriceFeed> {
        self.price_feeds@
    }

    /// The price feeds in the order they were created.
    pub closed spec fn feed_list(&self) -> Seq<PriceFeed> {
        self.price_feeds.values()
    }

    /// The data feeds by id.
    pub closed spec fn data(&self) -> Map<Seq<char>, DataFeed> {
        self.data_feeds@
    }

    /// How many price updates were made (wrapping).
    pub closed spec fn updates(&self) -> u64 {
        self.update_counter
    }

    /// The tables are well formed, and no feed keeps more than the history limit.
    pub closed spec fn wf(&self) -> bool {
        &&& self.oracles.wf()
        &&& self.price_feeds.wf()
        &&& self.data_feeds.wf()
        &&& forall|k: Seq<char>|
            #[trigger] self.price_feeds@.dom().contains(k) ==> self.price_feeds@[k].price_history@.len()
                <= MAX_HISTORY
    }

    pub fn new() -> (m: Self)
        ensures
            m.wf(),
            m.oracles() == Map::<Seq<char>, Oracle>::empty(),
            m.feeds() == Map::<Seq<char>, PriceFeed>::empty(),
            m.data() == Map::<Seq<char>, DataFeed>::empty(),
            m.updates() == 0,
    {
        OracleManager {
            oracles: StrMap::new(),
            price_feeds: StrMap::new(),
            data_feeds: StrMap::new(),
            update_counter: 0,
        }
    }

    /// Register an oracle under its id; refused when the id is taken.
    pub fn register_oracle(&mut self, oracle: Oracle) -> (r: Result<(), OracleError>)
        requires
            old(self).wf(),
        ensures
            final(self).wf(),
            old(self).oracles().dom().contains(oracle.oracle_id@) ==> r == Err::<(), OracleError>(
                OracleError::AlreadyRegistered,
            ) && *final(self) == *old(self),
            !old(self).oracles().dom().contains(oracle.oracle_id@) ==> r is Ok && final(self).oracles()
                == old(self).oracles().insert(oracle.oracle_id@, oracle) && final(self).feeds()
                == old(self).feeds() && final(self).data() == old(self).data() && final(self).updates()
                == old(self).updates(),
    {
        if self.oracles.contains_key(oracle.oracle_id.as_str()) {
            return Err(OracleError::AlreadyRegistered);
        }
        let id = oracle.oracle_id.clone();
        self.oracles.insert(id, oracle);
        Ok(())
    }

    /// Mark the oracle as having published at `now`.
    fn touch_oracle(&mut self, oracle_id: &str, now: u64)
        requires
            old(self).wf(),
            old(self).oracles().dom().contains(oracle_id@),
            old(self).oracles()[oracle_id@].total_updates < u64::MAX,
        ensures
            final(self).wf(),
            final(self).oracles() == old(self).oracles().insert(
                oracle_id@,
                Oracle {
                    total_updates: (old(self).oracles()[oracle_id@].total_updates + 1) as u64,
                    last_update: now,
                    ..old(self).oracles()[oracle_id@]
                },
            ),
            final(self).feeds() == old(self).feeds(),
            final(self).data() == old(self).data(),
            final(self).updates() == old(self).updates(),
    {
        let mut o = self.oracles.remove(oracle_id).unwrap();
        o.total_updates = o.total_updates + 1;
        o.last_update = now;
        let key = oracle_id.to_owned();
        self.oracles.insert(key, o);
        assert(self.oracles@ =~= old(self).oracles().insert(
            oracle_id@,
            Oracle {
                total_updates: (old(self).oracles()[oracle_id@].total_updates + 1) as u64,
                last_update: now,
                ..old(self).oracles()[oracle_id@]
            },
        ));
    }

    /// What `update_price` and `update_data_feed` answer for an oracle: refused when it is
    /// unknown or inactive.
    pub open spec fn publish_result(&self, oracle_id: Seq<char>) -> Result<(), OracleError> {
        if !self.oracles().dom().contains(oracle_id) {
            Err(OracleError::OracleNotFound)
        } else if !self.oracles()[oracle_id].is_active {
            Err(OracleError::OracleNotActive)
        } else {
            Ok(())
        }
    }

    /// `next` is this manager after `oracle_id` published `price` for `symbol` at `now`: the
    /// oracle counts one more update at `now`; an existing feed records its old price in its
    /// history (see `feed_updated`), else a fresh feed is created (see `feed_fresh`); the other
    /// feeds and the data feeds stay, and the update count goes up (wrapping).
    pub open spec fn price_published(&self, next: &Self, oracle_id: String, symbol: String, price: u64, decimals: u8, confidence: u64, now: u64) -> bool {
        &&& next.oracles() == self.oracles().insert(
            oracle_id@,
            Oracle { total_updates: (self.oracles()[oracle_id@].total_updates + 1) as u64, last_update: now, ..self.oracles()[oracle_id@] },
        )
        &&& next.feeds().dom() == self.feeds().dom().insert(symbol@)
        &&& next.feeds().remove(symbol@) == self.feeds().remove(symbol@)
        &&& (if self.feeds().dom().contains(symbol@) {
            feed_updated(next.feeds()[symbol@], self.feeds()[symbol@], price, now, confidence)
        } else {
            feed_fresh(next.feeds()[symbol@], symbol, price, decimals, now, oracle_id, confidence)
        })
        &&& next.data() == self.data()
        &&& next.updates() == (if self.updates() == u64::MAX { 0 } else { (self.updates() + 1) as u64 })
    }

    /// Publish a price at time `now`. An existing feed records its old price in its history
    /// (keeping the last hundred) and takes the new price and confidence; a new feed is
    /// created with the oracle as its source.
    pub fn update_price_at(
        &mut self,
        oracle_id: String,
        symbol: String,
        price: u64,
        decimals: u8,
        confidence: u64,
        now: u64,
    ) -> (r: Result<(), OracleError>)
        requires
            old(self).wf(),
            old(self).oracles().dom().contains(oracle_id@) ==> old(self).oracles()[oracle_id@].total_updates
                < u64::MAX,
        ensures
            final(self).wf(),
            r == old(self).publish_result(oracle_id@),
            r is Err ==> *final(self) == *old(self),
            r is Ok ==> old(self).price_published(final(self), oracle_id, symbol, price, decimals, confidence, now),
    {
        match self.oracles.get(oracle_id.as_str()) {
            None => return Err(OracleError::OracleNotFound),
            Some(o) => {
                if !o.is_active {
                    return Err(OracleError::OracleNotActive);
                }
            },
        }
        let ghost feeds0 = self.price_feeds@;
        match self.price_feeds.remove(symbol.as_str()) {
            Some(mut feed) => {
                let ghost h0 = feed.price_history@;
                feed.price_history.push(PricePoint { timestamp: now, price: feed.price });
                if feed.price_history.len() > MAX_HISTORY {
                    feed.price_history.remove(0);
                }
                assert(feed.price_history@ =~= history_after(h0, PricePoint { timestamp: now, price: feeds0[symbol@].price }));
                feed.price = price;
                feed.last_updated = now;
                feed.confidence = confidence;
                let key = symbol.clone();
                self.price_feeds.insert(key, feed);
            },
            None => {
                let feed = PriceFeed {
                    symbol: symbol.clone(),
                    price,
                    decimals,
                    last_updated: now,
                    source: oracle_id.clone(),
                    confidence,
                    price_history: Vec::new(),
                };
                self.price_feeds.insert(symbol.clone(), feed);
            },
        }
        assert(self.price_feeds@.remove(symbol@) =~= feeds0.remove(symbol@));
        assert(self.price_feeds@.dom() =~= feeds0.dom().insert(symbol@));
        self.touch_oracle(oracle_id.as_str(), now);
        self.update_counter = self.update_counter.wrapping_add(1);
        Ok(())
    }

    /// Publish a price now, by the wall clock (see `update_price_at`).
    pub fn update_price(
        &mut self,
        oracle_id: String,
        symbol: String,
        price: u64,
        decimals: u8,
        confidence: u64,
    ) -> (r: Result<(), OracleError>)
        requires
            old(self).wf(),
            old(self).oracles().dom().contains(oracle_id@) ==> old(self).oracles()[oracle_id@].total_updates
                < u64::MAX,
        ensures
            final(self).wf(),
            r == old(self).publish_result(oracle_id@),
            r is Err ==> *final(self) == *old(self),
            r is Ok ==> exists|now: u64|
                #[trigger] old(self).price_published(final(self), oracle_id, symbol, price, decimals, confidence, now),
    {
        let now = now_secs();
        self.update_price_at(oracle_id, symbol, price, decimals, confidence, now)
    }

    /// `next` is this manager after `oracle_id` published `value` for the data feed `feed_id`
    /// at `now`: the oracle counts one more update at `now`, the feed holds the new value,
    /// type and verified flag with the oracle as its source, and the price feeds stay.
    pub open spec fn data_published(&self, next: &Self, oracle_id: String, feed_id: String, data_type: String, value: Vec<u8>, verified: bool, now: u64) -> bool {
        &&& next.oracles() == self.oracles().insert(
            oracle_id@,
            Oracle { total_updates: (self.oracles()[oracle_id@].total_updates + 1) as u64, last_update: now, ..self.oracles()[oracle_id@] },
        )
        &&& next.data() == self.data().insert(
            feed_id@,
            DataFeed { feed_id, data_type, value, last_updated: now, source: oracle_id, verified },
        )
        &&& next.feeds() == self.feeds()
        &&& next.updates() == self.updates()
    }

    /// Publish a data feed at time `now`, replacing any feed with the same id.
    pub fn update_data_feed_at(
        &mut self,
        oracle_id: String,
        feed_id: String,
        data_type: String,
        value: Vec<u8>,
        verified: bool,
        now: u64,
    ) -> (r: Result<(), OracleError>)
        requires
            old(self).wf(),
            old(self).oracles().dom().contains(oracle_id@) ==> old(self).oracles()[oracle_id@].total_updates
                < u64::MAX,
        ensures
            final(self).wf(),
            r == old(self).publish_result(oracle_id@),
            r is Err ==> *final(self) == *old(self),
            r is Ok ==> old(self).data_published(final(self), oracle_id, feed_id, data_type, value, verified, now),
    {
        match self.oracles.get(oracle_id.as_str()) {
            None => return Err(OracleError::OracleNotFound),
            Some(o) => {
                if !o.is_active {
                    return Err(OracleError::OracleNotActive);
                }
            },
        }
        let key = feed_id.clone();
        let source = oracle_id.clone();
        let feed = DataFeed { feed_id, data_type, value, last_updated: now, source, verified };
        self.data_feeds.insert(key, feed);
        self.touch_oracle(oracle_id.as_str(), now);
        Ok(())
    }

    /// Publish a data feed now, by the wall clock (see `update_data_feed_at`).
    pub fn update_data_feed(
        &mut self,
        oracle_id: String,
        feed_id: String,
        data_type: String,
        value: Vec<u8>,
        verified: bool,
    ) -> (r: Result<(), OracleError>)
        requires
            old(self).wf(),
            old(self).oracles().dom().contains(oracle_id@) ==> old(self).oracles()[oracle_id@].total_updates
                < u64::MAX,
        ensures
            final(self).wf(),
            r == old(self).publish_result(oracle_id@),
            r is Err ==> *final(self) == *old(self),
            r is Ok ==> exists|now: u64|
                #[trigger] old(self).data_published(final(self), oracle_id, feed_id, data_type, value, verified, now),
    {
        let now = now_secs();
        self.update_data_feed_at(oracle_id, feed_id, data_type, value, verified, now)
    }

    /// The current price of `symbol`, if there is a feed.
    pub fn get_price(&self, symbol: &str) -> (r: Option<u64>)
        requires
            self.wf(),
        ensures
            r == (if self.feeds().dom().contains(symbol@) {
                Some(self.feeds()[symbol@].price)
            } else {
                None
            }),
    {
        match self.price_feeds.get(symbol) {
            Some(f) => Some(f.price),
            None => None,
        }
    }

    /// The feed of `symbol`, if any.
    pub fn get_price_feed(&self, symbol: &str) -> (r: Option<&PriceFeed>)
        requires
            self.wf(),
        ensures
            match r {
                Some(f) => self.feeds().dom().contains(symbol@) && *f == self.feeds()[symbol@],
                None => !self.feeds().dom().contains(symbol@),
            },
    {
        self.price_feeds.get(symbol)
    }

    /// What `get_fresh_price` answers at time `now`: refused without a feed, when the price is
    /// older than `max_age` seconds, or below the minimum confidence.
    pub open spec fn fresh_result(&self, symbol: Seq<char>, max_age: u64, now: u64) -> Result<u64, OracleError> {
        if !self.feeds().dom().contains(symbol) {
            Err(OracleError::FeedNotFound)
        } else {
            let f = self.feeds()[symbol];
            let age = age_spec(now, f.last_updated);
            if age > max_age {
                Err(OracleError::Stale { age })
            } else if f.confidence < MIN_CONFIDENCE {
                Err(OracleError::LowConfidence { confidence: f.confidence })
            } else {
                Ok(f.price)
            }
        }
    }

    /// The price of `symbol` if fresh and confident enough at time `now`.
    pub fn get_fresh_price_at(&self, symbol: &str, max_age_seconds: u64, now: u64) -> (r: Result<u64, OracleError>)
        requires
            self.wf(),
        ensures
            r == self.fresh_result(symbol@, max_age_seconds, now),
    {
        let feed = match self.price_feeds.get(symbol) {
            None => return Err(OracleError::FeedNotFound),
            Some(f) => f,
        };
        let age = now.wrapping_sub(feed.last_updated);
        if age > max_age_seconds {
            return Err(OracleError::Stale { age });
        }
        if feed.confidence < MIN_CONFIDENCE {
            return Err(OracleError::LowConfidence { confidence: feed.confidence });
        }
        Ok(feed.price)
    }

    /// The price of `symbol` if fresh and confident enough now, by the wall clock.
    pub fn get_fresh_price(&self, symbol: &str, max_age_seconds: u64) -> (r: Result<u64, OracleError>)
        requires
            self.wf(),
        ensures
            exists|now: u64| r == #[trigger] self.fresh_result(symbol@, max_age_seconds, now),
    {
        let now = now_secs();
        self.get_fresh_price_at(symbol, max_age_seconds, now)
    }

    /// The data feed with `feed_id`, if any.
    pub fn get_data_feed(&self, feed_id: &str) -> (r: Option<&DataFeed>)
        requires
            self.wf(),
        ensures
            match r {
                Some(f) => self.data().dom().contains(feed_id@) && *f == self.data()[feed_id@],
                None => !self.data().dom().contains(feed_id@),
            },
    {
        self.data_feeds.get(feed_id)
    }

    /// All price feeds, in the order they were created.
    pub fn get_all_prices(&self) -> (r: Vec<&PriceFeed>)
        ensures
            r@.map_values(|f: &PriceFeed| *f) == self.feed_list(),
    {
        let mut r: Vec<&PriceFeed> = Vec::new();
        let mut i: usize = 0;
        while i < self.price_feeds.len_entries()
            invariant
                0 <= i <= self.price_feeds.entries().len(),
                r@.map_values(|f: &PriceFeed| *f) == self.price_feeds.entries().take(i as int).map_values(
                    |e: (String, PriceFeed)| e.1,
                ),
            decreases self.price_feeds.entries().len() - i,
        {
            let f = self.price_feeds.value_at(i);
            let ghost before = r@;
            r.push(f);
            assert(r@.map_values(|f: &PriceFeed| *f) =~= before.map_values(|f: &PriceFeed| *f).push(*f));
            assert(self.price_feeds.entries().take(i + 1).map_values(|e: (String, PriceFeed)| e.1)
                =~= self.price_feeds.entries().take(i as int).map_values(|e: (String, PriceFeed)| e.1).push(*f));
            i = i + 1;
        }
        assert(self.price_feeds.entries().take(i as int) =~= self.price_feeds.entries());
        r
    }

    /// The time-weighted average price of `symbol` over the last `period_seconds` before
    /// `now` (see `twap_spec`).
    pub fn calculate_twap_at(&self, symbol: &str, period_seconds: u64, now: u64) -> (r: Result<u64, OracleError>)
        requires
            self.wf(),
        ensures
            !self.feeds().dom().contains(symbol@) ==> r == Err::<u64, OracleError>(OracleError::FeedNotFound),
            self.feeds().dom().contains(symbol@) ==> r == Ok::<u64, OracleError>(
                twap_spec(self.feeds()[symbol@], cutoff_spec(now, period_seconds)),
            ),
    {
        let feed = match self.price_feeds.get(symbol) {
            None => return Err(OracleError::FeedNotFound),
            Some(f) => f,
        };
        let cutoff = now.wrapping_sub(period_seconds);
        let ghost pred = |p: PricePoint| p.timestamp >= cutoff;
        let ghost h = feed.price_history@;
        let mut sum: u128 = 0;
        let mut count: u64 = 0;
        let mut i: usize = 0;
        while i < feed.price_history.len()
            invariant
                h == feed.price_history@,
                h.len() <= MAX_HISTORY,
                0 <= i <= h.len(),
                pred == (|p: PricePoint| p.timestamp >= cutoff),
                sum == price_sum(h.take(i as int).filter(pred)),
                count == h.take(i as int).filter(pred).len(),
                count <= i,
                sum <= i * (u64::MAX as int),
            decreases h.len() - i,
        {
            let p = feed.price_history[i];
            proof {
                assert(h.take(i + 1) =~= h.take(i as int).push(h[i as int]));
                h.take(i as int).lemma_filter_push(h[i as int], pred);
                assert(h.take(i as int).filter(pred).push(p).drop_last() =~= h.take(i as int).filter(pred));
            }
            if p.timestamp >= cutoff {
                sum = sum + p.price as u128;
                count = count + 1;
            }
            i = i + 1;
        }
        assert(h.take(h.len() as int) =~= h);
        if count == 0 {
            return Ok(feed.price);
        }
        let avg = sum / (count as u128);
        proof {
            lemma_mean_bound(h.filter(pred));
        }
        Ok(avg as u64)
    }

    /// The time-weighted average price of `symbol` over the last `period_seconds`, by the
    /// wall clock.
    pub fn calculate_twap(&self, symbol: &str, period_seconds: u64) -> (r: Result<u64, OracleError>)
        requires
            self.wf(),
        ensures
            !self.feeds().dom().contains(symbol@) ==> r == Err::<u64, OracleError>(OracleError::FeedNotFound),
            self.feeds().dom().contains(symbol@) ==> exists|now: u64|
                r == Ok::<u64, OracleError>(
                    twap_spec(self.feeds()[symbol@], #[trigger] cutoff_spec(now, period_seconds)),
                ),
    {
        let now = now_secs();
        self.calculate_twap_at(symbol, period_seconds, now)
    }

    /// Oracle statistics: counts, the updates made, and the mean reliability (0 without
    /// oracles).
    pub fn get_stats(&self) -> (st: OracleStats)
        requires
            self.wf(),
        ensures
            st.total_oracles == self.oracles().dom().len(),
            st.active_oracles == self.oracle_list().filter(|o: Oracle| o.is_active).len(),
            st.total_price_feeds == self.feeds().dom().len(),
            st.total_data_feeds == self.data().dom().len(),
            st.total_updates == self.updates(),
            st.avg_reliability == (if self.oracle_list().len() == 0 {
                0
            } else {
                score_sum(self.oracle_list()) / (self.oracle_list().len() as int)
            }),
    {
        let ghost s = self.oracles.values();
        let ghost pred = |o: Oracle| o.is_active;
        let n = self.oracles.len_entries();
        let mut active: usize = 0;
        let mut total: u128 = 0;
        let mut i: usize = 0;
        while i < n
            invariant
                n == s.len(),
                s == self.oracles.values(),
                0 <= i <= n,
                pred == (|o: Oracle| o.is_active),
                active == s.take(i as int).filter(pred).len(),
                active <= i,
                total == score_sum(s.take(i as int)),
                total <= i * (u64::MAX as int),
            decreases n - i,
        {
            let o = self.oracles.value_at(i);
            proof {
                assert(s[i as int] == *o);
                assert(s.take(i + 1) =~= s.take(i as int).push(s[i as int]));
                s.take(i as int).lemma_filter_push(s[i as int], pred);
                assert(s.take(i + 1).drop_last() =~= s.take(i as int));
            }
            if o.is_active {
                active = active + 1;
            }
            total = total + o.reliability_score as u128;
            i = i + 1;
        }
        assert(s.take(n as int) =~= s);
        let avg: u64 = if n == 0 {
            0
        } else {
            proof {
                assert((total as int) / (n as int) <= u64::MAX) by (nonlinear_arith)
                    requires
                        total <= n * (u64::MAX as int),
                        n > 0,
                ;
            }
            (total / (n as u128)) as u64
        };
        OracleStats {
            total_oracles: self.oracles.len(),
            active_oracles: active,
            total_price_feeds: self.price_feeds.len(),
            total_data_feeds: self.data_feeds.len(),
            total_updates: self.update_counter,
            avg_reliability: avg,
        }
    }
}

proof fn lemma_sum_bound(s: Seq<PricePoint>)
    ensures
        0 <= price_sum(s) <= s.len() * (u64::MAX as int),
    decreases s.len(),
{
    if s.len() > 0 {
        lemma_sum_bound(s.drop_last());
        assert((s.len() - 1) * (u64::MAX as int) + u64::MAX == s.len() * (u64::MAX as int)) by (nonlinear_arith);
    }
}

proof fn lemma_mean_bound(s: Seq<PricePoint>)
    requires
        s.len() > 0,
    ensures
        price_sum(s) / (s.len() as int) <= u64::MAX,
        price_sum(s) <= s.len() * (u64::MAX as int),
{
    lemma_sum_bound(s);
    assert(price_sum(s) / (s.len() as int) <= u64::MAX) by (nonlinear_arith)
        requires
            0 <= price_sum(s) <= s.len() * (u64::MAX as int),
            s.len() > 0,
    ;
}

impl Default for OracleManager {
    fn default() -> (m: Self)
        ensures
            m.wf(),
            m.oracles() == Map::<Seq<char>, Oracle>::empty(),
            m.feeds() == Map::<Seq<char>, PriceFeed>::empty(),
            m.data() == Map::<Seq<char>, DataFeed>::empty(),
            m.updates() == 0,
    {
        Self::new()
    }
}

/// Keeping the elements of `s` that satisfy `pred` keeps all of them when every element
/// does, and none when none does.
proof fn lemma_filter_all_or_none<A>(s: Seq<A>, pred: spec_fn(A) -> bool)
    ensures
        (forall|i: int| 0 <= i < s.len() ==> pred(#[trigger] s[i])) ==> s.filter(pred) == s,
        (forall|i: int| 0 <= i < s.len() ==> !pred(#[trigger] s[i])) ==> s.filter(pred).len() == 0,
    decreases s.len(),
{
    reveal(Seq::filter);
    if s.len() > 0 {
        lemma_filter_all_or_none(s.drop_last(), pred);
        if forall|i: int| 0 <= i < s.len() ==> pred(#[trigger] s[i]) {
            assert forall|i: int| 0 <= i < s.drop_last().len() implies pred(#[trigger] s.drop_last()[i]) by {
                assert(s.drop_last()[i] == s[i]);
            }
            assert(pred(s[s.len() - 1]));
            assert(s.drop_last().push(s.last()) =~= s);
        }
        if forall|i: int| 0 <= i < s.len() ==> !pred(#[trigger] s[i]) {
            assert forall|i: int| 0 <= i < s.drop_last().len() implies !pred(#[trigger] s.drop_last()[i]) by {
                assert(s.drop_last()[i] == s[i]);
            }
            assert(!pred(s[s.len() - 1]));
        }
    }
}

/// The TWAP over the last `period` seconds before `now` (with `now >= period`) counts every
/// recorded price from `now - period` on: when all of a feed's history lies in that window,
/// the TWAP is the mean of all of it, rounded down.
pub proof fn lemma_twap_counts_points_in_window(f: PriceFeed, now: u64, period: u64)
    requires
        now >= period,
        f.price_history@.len() > 0,
        forall|i: int|
            0 <= i < f.price_history@.len() ==> now - period <= #[trigger] f.price_history@[i].timestamp,
    ensures
        twap_spec(f, cutoff_spec(now, period)) == (price_sum(f.price_history@) / (
        f.price_history@.len() as int)) as u64,
{
    let c = cutoff_spec(now, period);
    assert(c == now - period);
    lemma_filter_all_or_none(f.price_history@, |p: PricePoint| p.timestamp >= c);
}

/// The TWAP over the last `period` seconds before `now` (with `now >= period`) leaves out every
/// price recorded before `now - period`: when all of a feed's history is older, the TWAP is
/// the current price.
pub proof fn lemma_twap_ignores_points_before_window(f: PriceFeed, now: u64, period: u64)
    requires
        now >= period,
        forall|i: int|
            0 <= i < f.price_history@.len() ==> #[trigger] f.price_history@[i].timestamp < now - period,
    ensures
        twap_spec(f, cutoff_spec(now, period)) == f.price,
{
    let c = cutoff_spec(now, period);
    assert(c == now - period);
    lemma_filter_all_or_none(f.price_history@, |p: PricePoint| p.timestamp >= c);
}

/// A fresh price is served exactly when the feed exists, was updated at most `max_age`
/// seconds before `now` (for an update at or before `now`), and holds a confidence of at
/// least 70%; it is then the feed's current price. A feed updated longer ago is stale, with
/// its age `now - last_updated`.
pub proof fn lemma_fresh_price_rule(m: &OracleManager, symbol: Seq<char>, max_age: u64, now: u64)
    requires
        m.feeds().dom().contains(symbol),
        m.feeds()[symbol].last_updated <= now,
    ensures
        ({
            let f = m.feeds()[symbol];
            &&& (m.fresh_result(symbol, max_age, now) is Ok) == (now - f.last_updated <= max_age && f.confidence
                >= 700_000)
            &&& m.fresh_result(symbol, max_age, now) is Ok ==> m.fresh_result(symbol, max_age, now)
                == Ok::<u64, OracleError>(f.price)
            &&& now - f.last_updated > max_age ==> m.fresh_result(symbol, max_age, now) == Err::<u64, OracleError>(
                OracleError::Stale { age: (now - f.last_updated) as u64 },
            )
        }),
{
}

/// The price history keeps the latest `MAX_HISTORY` points in order: the new point goes
/// last; below the limit nothing is dropped, and at the limit exactly the oldest point is.
pub proof fn lemma_history_window(h: Seq<PricePoint>, point: PricePoint)
    requires
        h.len() <= MAX_HISTORY,
    ensures
        history_after(h, point).len() <= MAX_HISTORY,
        history_after(h, point).last() == point,
        h.len() < MAX_HISTORY ==> history_after(h, point) == h.push(point),
        h.len() == MAX_HISTORY ==> history_after(h, point) == h.subrange(1, h.len() as int).push(point),
{
    if h.len() == MAX_HISTORY {
        assert(h.push(point).drop_first() =~= h.subrange(1, h.len() as int).push(point));
    }
}

/// Only a registered, active oracle publishes: publishing is refused with `OracleNotFound`
/// for an unknown oracle and `OracleNotActive` for an inactive one, and admitted otherwise.
pub proof fn lemma_publish_admits(m: &OracleManager, oracle_id: Seq<char>)
    ensures
        (m.publish_result(oracle_id) is Ok) <==> (m.oracles().dom().contains(oracle_id) && m.oracles()[oracle_id].is_active),
        !m.oracles().dom().contains(oracle_id) ==> m.publish_result(oracle_id) == Err::<(), OracleError>(
            OracleError::OracleNotFound,
        ),
{
}

} // verus!
