use vstd::prelude::*;

use crate::clock::now_secs;
use crate::table::StrMap;

verus! {

/// An IP address: four bytes for version 4, sixteen for version 6, as one number.
#[derive(Debug, Clone, Copy, PartialEq, Eq, Structural)]
pub enum IpKey {
    V4(u32),
    V6(u128),
}

/// Why a request was refused.
#[derive(Debug, Clone, Copy, PartialEq, Eq, Structural)]
pub enum RateLimitError {
    /// The global limit was reached.
    GlobalLimitExceeded,
    /// The limit of the requesting IP was reached.
    IpLimitExceeded,
    /// The address submitted the most transactions allowed this hour.
    AddressLimitExceeded { max_per_hour: u64 },
}

/// The request rates allowed, and the IPs that have a limiter of their own. The limiters
/// themselves measure time and are kept by the caller, which reports their verdicts.
pub struct RateLimiter {
    ip_limiters: Vec<IpKey>,
    per_ip_requests_per_minute: u32,
    global_requests_per_second: u32,
}

impl RateLimiter {
    /// The IPs with a limiter, in the order they first came.
    pub closed spec fn limited_ips(&self) -> Seq<IpKey> {
        self.ip_limiters@
    }

    pub closed spec fn per_ip_quota(&self) -> u32 {
        self.per_ip_requests_per_minute
    }

    pub closed spec fn global_quota(&self) -> u32 {
        self.global_requests_per_second
    }

    /// No IP has two limiters.
    pub open spec fn wf(&self) -> bool {
        self.limited_ips().no_duplicates()
    }

    /// A limiter allowing `per_ip_requests_per_minute` requests a minute from each IP and
    /// `global_requests_per_second` a second in all; both must be positive.
    pub fn new(per_ip_requests_per_minute: u32, global_requests_per_second: u32) -> (r: Self)
        requires
            per_ip_requests_per_minute > 0,
            global_requests_per_second > 0,
        ensures
            r.wf(),
            r.limited_ips() == Seq::<IpKey>::empty(),
            r.per_ip_quota() == per_ip_requests_per_minute,
            r.global_quota() == global_requests_per_second,
    {
        RateLimiter { ip_limiters: Vec::new(), per_ip_requests_per_minute, global_requests_per_second }
    }

    /// The requests a minute allowed from each IP.
    pub fn per_ip_requests_per_minute(&self) -> (n: u32)
        ensures
            n == self.per_ip_quota(),
    {
        self.per_ip_requests_per_minute
    }

    /// The requests a second allowed in all.
    pub fn global_requests_per_second(&self) -> (n: u32)
        ensures
            n == self.global_quota(),
    {
        self.global_requests_per_second
    }

    fn position(&self, ip: IpKey) -> (r: Option<usize>)
        ensures
            match r {
                Some(i) => i < self.limited_ips().len() && self.limited_ips()[i as int] == ip,
                None => !self.limited_ips().contains(ip),
            },
    {
        let mut i: usize = 0;
        while i < self.ip_limiters.len()
            invariant
                0 <= i <= self.ip_limiters@.len(),
                forall|j: int| 0 <= j < i ==> self.ip_limiters@[j] != ip,
            decreases self.ip_limiters@.len() - i,
        {
            if self.ip_limiters[i] == ip {
                return Some(i);
            }
            i = i + 1;
        }
        None
    }

    /// Whether `ip` has a limiter.
    pub fn is_limited(&self, ip: IpKey) -> (b: bool)
        ensures
            b == self.limited_ips().contains(ip),
    {
        self.position(ip).is_some()
    }

    /// Decide a request from `ip`, given the global limiter's verdict and, when that allows
    /// it, the IP's own limiter's. The global limit is checked first: when it refuses, nothing
    /// changes; else the IP gets a limiter if it has none, and its verdict decides.
    pub fn check_rate_limit(&mut self, ip: IpKey, global_allows: bool, ip_allows: bool) -> (r: Result<(), RateLimitError>)
        requires
            old(self).wf(),
        ensures
            final(self).wf(),
            !global_allows ==> r == Err::<(), RateLimitError>(RateLimitError::GlobalLimitExceeded) && *final(self) == *old(self),
            global_allows ==> {
                &&& final(self).limited_ips() == if old(self).limited_ips().contains(ip) { old(self).limited_ips() } else { old(self).limited_ips().push(ip) }
                &&& r == if ip_allows { Ok::<(), RateLimitError>(()) } else { Err(RateLimitError::IpLimitExceeded) }
            },
            final(self).per_ip_quota() == old(self).per_ip_quota(),
            final(self).global_quota() == old(self).global_quota(),
    {
        if !global_allows {
            return Err(RateLimitError::GlobalLimitExceeded);
        }
        if self.position(ip).is_none() {
            let ghost s0 = self.ip_limiters@;
            self.ip_limiters.push(ip);
            assert forall|a: int, b: int| 0 <= a < self.ip_limiters@.len() && 0 <= b < self.ip_limiters@.len() && a != b
                implies self.ip_limiters@[a] != self.ip_limiters@[b] by {
                if a < s0.len() && b < s0.len() {
                    assert(s0[a] != s0[b]);
                } else if a == s0.len() {
                    assert(s0[b] != ip);
                } else {
                    assert(s0[a] != ip);
                }
            }
        }
        if !ip_allows {
            return Err(RateLimitError::IpLimitExceeded);
        }
        Ok(())
    }

    /// Forget the limiter of `ip`.
    pub fn reset_ip(&mut self, ip: IpKey)
        requires
            old(self).wf(),
        ensures
            final(self).wf(),
            final(self).limited_ips() == old(self).limited_ips().filter(|k: IpKey| k != ip),
            final(self).per_ip_quota() == old(self).per_ip_quota(),
            final(self).global_quota() == old(self).global_quota(),
    {
        let ghost s0 = self.ip_limiters@;
        let ghost pred = |k: IpKey| k != ip;
        let mut kept: Vec<IpKey> = Vec::new();
        let mut i: usize = 0;
        while i < self.ip_limiters.len()
            invariant
                s0 == self.ip_limiters@,
                0 <= i <= s0.len(),
                pred == (|k: IpKey| k != ip),
                kept@ == s0.take(i as int).filter(pred),
            decreases s0.len() - i,
        {
            let k = self.ip_limiters[i];
            proof {
                assert(s0.take(i + 1) =~= s0.take(i as int).push(k));
                s0.take(i as int).lemma_filter_push(k, pred);
            }
            if k != ip {
                kept.push(k);
            }
            i = i + 1;
        }
        assert(s0.take(i as int) =~= s0);
        self.ip_limiters = kept;
        proof {
            lemma_filter_no_duplicates(s0, pred);
        }
    }

    /// How many IPs have a limiter.
    pub fn tracked_ip_count(&self) -> (n: usize)
        ensures
            n == self.limited_ips().len(),
    {
        self.ip_limiters.len()
    }

    /// Forget the limiters the caller found idle.
    pub fn cleanup_old_limiters(&mut self, idle: &Vec<IpKey>)
        requires
            old(self).wf(),
        ensures
            final(self).wf(),
            final(self).limited_ips() == old(self).limited_ips().filter(|k: IpKey| !idle@.contains(k)),
            final(self).per_ip_quota() == old(self).per_ip_quota(),
            final(self).global_quota() == old(self).global_quota(),
    {
        let ghost s0 = self.ip_limiters@;
        let ghost pred = |k: IpKey| !idle@.contains(k);
        let mut kept: Vec<IpKey> = Vec::new();
        let mut i: usize = 0;
        while i < self.ip_limiters.len()
            invariant
                s0 == self.ip_limiters@,
                0 <= i <= s0.len(),
                pred == (|k: IpKey| !idle@.contains(k)),
                kept@ == s0.take(i as int).filter(pred),
            decreases s0.len() - i,
        {
            let k = self.ip_limiters[i];
            proof {
                assert(s0.take(i + 1) =~= s0.take(i as int).push(k));
                s0.take(i as int).lemma_filter_push(k, pred);
            }
            let mut found = false;
            let mut j: usize = 0;
            while j < idle.len()
                invariant
                    0 <= j <= idle@.len(),
                    found == exists|t: int| 0 <= t < j && idle@[t] == k,
                decreases idle@.len() - j,
            {
                if idle[j] == k {
                    found = true;
                }
                j = j + 1;
            }
            if !found {
                kept.push(k);
            }
            i = i + 1;
        }
        assert(s0.take(i as int) =~= s0);
        self.ip_limiters = kept;
        proof {
            lemma_filter_no_duplicates(s0, pred);
        }
    }
}

impl Default for RateLimiter {
    /// 100 requests a minute from each IP, 1000 a second in all.
    fn default() -> (r: Self)
        ensures
            r.wf(),
            r.limited_ips() == Seq::<IpKey>::empty(),
            r.per_ip_quota() == 100,
            r.global_quota() == 1000,
    {
        Self::new(100, 1000)
    }
}

/// Filtering keeps a sequence free of duplicates.
pub proof fn lemma_filter_no_duplicates<A>(s: Seq<A>, p: spec_fn(A) -> bool)
    requires
        s.no_duplicates(),
    ensures
        s.filter(p).no_duplicates(),
    decreases s.len(),
{
    reveal(Seq::filter);
    if s.len() > 0 {
        let d = s.drop_last();
        assert(d.no_duplicates()) by {
            assert forall|i: int, j: int| 0 <= i < d.len() && 0 <= j < d.len() && i != j implies d[i] != d[j] by {
                assert(d[i] == s[i] && d[j] == s[j]);
            }
        }
        lemma_filter_no_duplicates(d, p);
        let f = s.filter(p);
        let fd = d.filter(p);
        if p(s.last()) {
            assert(f == fd.push(s.last()));
            assert(!fd.contains(s.last())) by {
                if fd.contains(s.last()) {
                    d.lemma_filter_contains_rev(p, s.last());
                    let i = choose|i: int| 0 <= i < d.len() && d[i] == s.last();
                    assert(s[i] == s[s.len() - 1]);
                }
            }
            assert forall|i: int, j: int| 0 <= i < f.len() && 0 <= j < f.len() && i != j implies f[i] != f[j] by {
                if i < fd.len() && j < fd.len() {
                } else if i == fd.len() {
                    assert(fd[j] == f[j]);
                } else {
                    assert(fd[i] == f[i]);
                }
            }
        } else {
            assert(f == fd);
        }
    }
}

/// Per-address transaction limits, on top of the request limits.
pub struct TransactionRateLimiter {
    limiter: RateLimiter,
    tx_counts: StrMap<u64>,
    max_tx_per_address_per_hour: u64,
}

impl TransactionRateLimiter {
    pub closed spec fn limiter(&self) -> RateLimiter {
        self.limiter
    }

    /// The transactions counted this hour, by address.
    pub closed spec fn counts(&self) -> Map<Seq<char>, u64> {
        self.tx_counts@
    }

    pub closed spec fn max_per_hour(&self) -> u64 {
        self.max_tx_per_address_per_hour
    }

    pub closed spec fn wf(&self) -> bool {
        &&& self.limiter.wf()
        &&& self.tx_counts.wf()
        &&& forall|k: Seq<char>| #[trigger] self.tx_counts@.dom().contains(k) ==> self.tx_counts@[k] <= self.max_tx_per_address_per_hour
    }

    pub fn new(max_tx_per_address_per_hour: u64) -> (t: Self)
        ensures
            t.wf(),
            t.limiter().limited_ips() == Seq::<IpKey>::empty(),
            t.limiter().per_ip_quota() == 100,
            t.limiter().global_quota() == 1000,
            t.counts() == Map::<Seq<char>, u64>::empty(),
            t.max_per_hour() == max_tx_per_address_per_hour,
    {
        TransactionRateLimiter { limiter: RateLimiter::default(), tx_counts: StrMap::new(), max_tx_per_address_per_hour }
    }

    /// The request limiter underneath.
    pub fn limiter_ref(&self) -> (l: &RateLimiter)
        ensures
            *l == self.limiter(),
    {
        &self.limiter
    }

    /// Decide a transaction from `ip` and `address`: the request limits first (given the
    /// limiters' verdicts, see `RateLimiter::check_rate_limit`), then the address's count for
    /// the hour, which, when below the maximum, goes up by one. An address seen for the first
    /// time starts at 0, even when refused.
    pub fn check_transaction_limit(&mut self, ip: IpKey, address: &str, global_allows: bool, ip_allows: bool) -> (r: Result<(), RateLimitError>)
        requires
            old(self).wf(),
        ensures
            final(self).wf(),
            !global_allows ==> r == Err::<(), RateLimitError>(RateLimitError::GlobalLimitExceeded) && *final(self) == *old(self),
            global_allows ==> final(self).limiter().limited_ips() == if old(self).limiter().limited_ips().contains(ip) {
                old(self).limiter().limited_ips()
            } else {
                old(self).limiter().limited_ips().push(ip)
            },
            global_allows && !ip_allows ==> r == Err::<(), RateLimitError>(RateLimitError::IpLimitExceeded) && final(self).counts()
                == old(self).counts(),
            global_allows && ip_allows ==> {
                let c = if old(self).counts().dom().contains(address@) { old(self).counts()[address@] } else { 0 };
                &&& c >= old(self).max_per_hour() ==> r == Err::<(), RateLimitError>(RateLimitError::AddressLimitExceeded {
                    max_per_hour: old(self).max_per_hour(),
                }) && final(self).counts() == old(self).counts().insert(address@, c)
                &&& c < old(self).max_per_hour() ==> r is Ok && final(self).counts() == old(self).counts().insert(address@, (c + 1) as u64)
            },
            final(self).max_per_hour() == old(self).max_per_hour(),
    {
        match self.limiter.check_rate_limit(ip, global_allows, ip_allows) {
            Err(e) => {
                return Err(e);
            },
            Ok(()) => {},
        }
        let count: u64 = match self.tx_counts.get(address) {
            Some(c) => *c,
            None => 0,
        };
        if count >= self.max_tx_per_address_per_hour {
            self.tx_counts.insert(address.to_owned(), count);
            return Err(RateLimitError::AddressLimitExceeded { max_per_hour: self.max_tx_per_address_per_hour });
        }
        self.tx_counts.insert(address.to_owned(), count + 1);
        Ok(())
    }

    /// Forget the count of `address`.
    pub fn reset_address(&mut self, address: &str)
        requires
            old(self).wf(),
        ensures
            final(self).wf(),
            final(self).counts() == old(self).counts().remove(address@),
            final(self).limiter() == old(self).limiter(),
            final(self).max_per_hour() == old(self).max_per_hour(),
    {
        let _ = self.tx_counts.remove(address);
    }

    /// The hourly cleanup: every count is forgotten, and so are the limiters the caller found
    /// idle.
    pub fn hourly_cleanup(&mut self, idle: &Vec<IpKey>)
        requires
            old(self).wf(),
        ensures
            final(self).wf(),
            final(self).counts() == Map::<Seq<char>, u64>::empty(),
            final(self).limiter().limited_ips() == old(self).limiter().limited_ips().filter(|k: IpKey| !idle@.contains(k)),
            final(self).max_per_hour() == old(self).max_per_hour(),
    {
        self.tx_counts.clear();
        self.limiter.cleanup_old_limiters(idle);
    }
}

impl Default for TransactionRateLimiter {
    /// 1000 transactions an hour from each address.
    fn default() -> (t: Self)
        ensures
            t.wf(),
            t.counts() == Map::<Seq<char>, u64>::empty(),
            t.max_per_hour() == 1000,
    {
        Self::new(1000)
    }
}

/// Failed attempts of one identifier: how many, the first and the last.
#[derive(Debug, Clone, Copy, PartialEq, Eq, Structural)]
struct SuspiciousActivity {
    failed_attempts: u64,
    first_attempt: u64,
    last_attempt: u64,
}

/// What a record of failed attempts holds: how many, the first and the last.
pub struct ActivityModel {
    pub failed_attempts: u64,
    pub first_attempt: u64,
    pub last_attempt: u64,
}

#[derive(Debug, Clone, Copy, PartialEq, Eq, Structural)]
pub struct SecurityStats {
    pub blacklisted_ips: usize,
    pub blacklisted_addresses: usize,
    pub suspicious_activities: usize,
}

/// A list of keyed reasons after `(k, reason)` is inserted: a present key gets the new
/// reason in its place, a new key goes last.
pub open spec fn ip_insert(s: Seq<(IpKey, Seq<char>)>, k: IpKey, reason: Seq<char>) -> Seq<(IpKey, Seq<char>)> {
    match crate::util::find_first(s, |e: (IpKey, Seq<char>)| e.0 == k) {
        Some(i) => s.update(i, (k, reason)),
        None => s.push((k, reason)),
    }
}

/// How many failed attempts get an identifier blacklisted.
pub const AUTO_BLACKLIST_ATTEMPTS: u64 = 10;

/// Blacklisted IPs and addresses, with reasons, and failed attempts by identifier.
pub struct SecurityManager {
    blacklisted_ips: Vec<(IpKey, String)>,
    blacklisted_addresses: StrMap<String>,
    suspicious_activity: StrMap<SuspiciousActivity>,
}

impl SecurityManager {
    /// The blacklisted IPs with their reasons, in the order they were first blacklisted.
    pub closed spec fn ips(&self) -> Seq<(IpKey, Seq<char>)> {
        self.blacklisted_ips@.map_values(|e: (IpKey, String)| (e.0, e.1@))
    }

    /// The blacklisted addresses with their reasons.
    pub closed spec fn addresses(&self) -> Map<Seq<char>, Seq<char>> {
        self.blacklisted_addresses@.map_values(|s: String| s@)
    }

    /// The failed attempts, by identifier.
    pub closed spec fn activity(&self) -> Map<Seq<char>, ActivityModel> {
        self.suspicious_activity@.map_values(
            |a: SuspiciousActivity| ActivityModel { failed_attempts: a.failed_attempts, first_attempt: a.first_attempt, last_attempt: a.last_attempt },
        )
    }

    pub closed spec fn wf(&self) -> bool {
        &&& self.blacklisted_addresses.wf()
        &&& self.suspicious_activity.wf()
        &&& forall|i: int, j: int| 0 <= i < j < self.blacklisted_ips@.len() ==> (#[trigger] self.blacklisted_ips@[i]).0
            != (#[trigger] self.blacklisted_ips@[j]).0
    }

    pub fn new() -> (m: Self)
        ensures
            m.wf(),
            m.ips() == Seq::<(IpKey, Seq<char>)>::empty(),
            m.addresses() == Map::<Seq<char>, Seq<char>>::empty(),
            m.activity() == Map::<Seq<char>, ActivityModel>::empty(),
    {
        let m = SecurityManager {
            blacklisted_ips: Vec::new(),
            blacklisted_addresses: StrMap::new(),
            suspicious_activity: StrMap::new(),
        };
        assert(m.ips() =~= Seq::<(IpKey, Seq<char>)>::empty());
        assert(m.addresses() =~= Map::<Seq<char>, Seq<char>>::empty());
        assert(m.activity() =~= Map::<Seq<char>, ActivityModel>::empty());
        m
    }

    fn ip_position(&self, ip: IpKey) -> (r: Option<usize>)
        ensures
            match r {
                Some(i) => crate::util::find_first(self.ips(), |e: (IpKey, Seq<char>)| e.0 == ip) == Some(i as int)
                    && (i as int) < self.ips().len(),
                None => crate::util::find_first(self.ips(), |e: (IpKey, Seq<char>)| e.0 == ip) is None,
            },
    {
        let ghost s = self.ips();
        let ghost pred = |e: (IpKey, Seq<char>)| e.0 == ip;
        let mut i: usize = 0;
        while i < self.blacklisted_ips.len()
            invariant
                s == self.ips(),
                0 <= i <= s.len(),
                pred == (|e: (IpKey, Seq<char>)| e.0 == ip),
                forall|j: int| 0 <= j < i ==> !pred(#[trigger] s[j]),
            decreases s.len() - i,
        {
            if self.blacklisted_ips[i].0 == ip {
                proof {
                    crate::util::lemma_find_first_at(s, pred, i as int);
                }
                return Some(i);
            }
            i = i + 1;
        }
        proof {
            crate::util::lemma_find_first(s, pred);
        }
        None
    }

    /// Whether `ip` is blacklisted.
    pub fn is_ip_blacklisted(&self, ip: IpKey) -> (b: bool)
        ensures
            b == exists|i: int| 0 <= i < self.ips().len() && #[trigger] self.ips()[i].0 == ip,
    {
        let r = self.ip_position(ip);
        proof {
            let pred = |e: (IpKey, Seq<char>)| e.0 == ip;
            crate::util::lemma_find_first(self.ips(), pred);
            if r is None {
                assert forall|i: int| 0 <= i < self.ips().len() implies #[trigger] self.ips()[i].0 != ip by {
                    assert(!pred(self.ips()[i]));
                }
            } else {
                assert(self.ips()[r->Some_0 as int].0 == ip);
            }
        }
        r.is_some()
    }

    /// Whether `address` is blacklisted.
    pub fn is_address_blacklisted(&self, address: &str) -> (b: bool)
        requires
            self.wf(),
        ensures
            b == self.addresses().dom().contains(address@),
    {
        self.blacklisted_addresses.contains_key(address)
    }

    /// Blacklist `ip` for `reason` (replacing an earlier reason).
    pub fn blacklist_ip(&mut self, ip: IpKey, reason: String)
        requires
            old(self).wf(),
        ensures
            final(self).wf(),
            final(self).ips() == ip_insert(old(self).ips(), ip, reason@),
            final(self).addresses() == old(self).addresses(),
            final(self).activity() == old(self).activity(),
    {
        let ghost s0 = self.blacklisted_ips@;
        let ghost r = reason@;
        match self.ip_position(ip) {
            Some(i) => {
                self.blacklisted_ips.set(i, (ip, reason));
                assert(self.ips() =~= s0.map_values(|e: (IpKey, String)| (e.0, e.1@)).update(i as int, (ip, r)));
                assert forall|a: int, b: int| 0 <= a < b < self.blacklisted_ips@.len() implies (#[trigger] self.blacklisted_ips@[a]).0
                    != (#[trigger] self.blacklisted_ips@[b]).0 by {
                    if a != i && b != i {
                    } else if a == i {
                        assert(s0.map_values(|e: (IpKey, String)| (e.0, e.1@))[a].0 == ip);
                    } else {
                        assert(s0.map_values(|e: (IpKey, String)| (e.0, e.1@))[b].0 == ip);
                    }
                }
            },
            None => {
                proof {
                    crate::util::lemma_find_first(s0.map_values(|e: (IpKey, String)| (e.0, e.1@)), |e: (IpKey, Seq<char>)| e.0 == ip);
                }
                self.blacklisted_ips.push((ip, reason));
                assert(self.ips() =~= s0.map_values(|e: (IpKey, String)| (e.0, e.1@)).push((ip, r)));
                assert forall|a: int, b: int| 0 <= a < b < self.blacklisted_ips@.len() implies (#[trigger] self.blacklisted_ips@[a]).0
                    != (#[trigger] self.blacklisted_ips@[b]).0 by {
                    if b == s0.len() {
                        assert(s0.map_values(|e: (IpKey, String)| (e.0, e.1@))[a].0 == s0[a].0);
                    }
                }
            },
        }
    }

    /// Blacklist `address` for `reason` (replacing an earlier reason).
    pub fn blacklist_address(&mut self, address: String, reason: String)
        requires
            old(self).wf(),
        ensures
            final(self).wf(),
            final(self).addresses() == old(self).addresses().insert(address@, reason@),
            final(self).ips() == old(self).ips(),
            final(self).activity() == old(self).activity(),
    {
        let ghost m0 = self.blacklisted_addresses@;
        let ghost r = reason@;
        self.blacklisted_addresses.insert(address, reason);
        assert(self.addresses() =~= m0.map_values(|s: String| s@).insert(address@, r));
    }

    /// Take `ip` off the blacklist.
    pub fn unblacklist_ip(&mut self, ip: IpKey)
        requires
            old(self).wf(),
        ensures
            final(self).wf(),
            final(self).ips() == old(self).ips().filter(|e: (IpKey, Seq<char>)| e.0 != ip),
            final(self).addresses() == old(self).addresses(),
            final(self).activity() == old(self).activity(),
    {
        let ghost s0 = self.ips();
        let ghost pred = |e: (IpKey, Seq<char>)| e.0 != ip;
        let mut rest: Vec<(IpKey, String)> = Vec::new();
        std::mem::swap(&mut rest, &mut self.blacklisted_ips);
        let n = rest.len();
        let mut kept: Vec<(IpKey, String)> = Vec::new();
        let mut i: usize = 0;
        while i < n
            invariant
                n == s0.len(),
                0 <= i <= n,
                rest@.len() == n - i,
                pred == (|e: (IpKey, Seq<char>)| e.0 != ip),
                rest@.map_values(|e: (IpKey, String)| (e.0, e.1@)) == s0.subrange(i as int, n as int),
                kept@.map_values(|e: (IpKey, String)| (e.0, e.1@)) == s0.subrange(0, i as int).filter(pred),
                forall|a: int, b: int| 0 <= a < b < s0.len() ==> (#[trigger] s0[a]).0 != (#[trigger] s0[b]).0,
            decreases n - i,
        {
            let ghost r0 = rest@.map_values(|e: (IpKey, String)| (e.0, e.1@));
            let e = rest.remove(0);
            let ghost ev = (e.0, e.1@);
            assert(r0[0] == ev);
            let ghost rm = rest@.map_values(|e: (IpKey, String)| (e.0, e.1@));
            assert forall|j: int| 0 <= j < rm.len() implies #[trigger] rm[j] == s0.subrange(i + 1, n as int)[j] by {
                assert(r0[j + 1] == s0.subrange(i as int, n as int)[j + 1]);
            }
            assert(rm =~= s0.subrange(i + 1, n as int));
            assert(s0.subrange(0, i + 1) =~= s0.subrange(0, i as int).push(ev));
            proof {
                s0.subrange(0, i as int).lemma_filter_push(ev, pred);
            }
            if e.0 != ip {
                let ghost k0 = kept@.map_values(|e: (IpKey, String)| (e.0, e.1@));
                kept.push(e);
                assert(kept@.map_values(|e: (IpKey, String)| (e.0, e.1@)) =~= k0.push(ev));
            }
            i = i + 1;
        }
        assert(s0.subrange(0, n as int) =~= s0);
        self.blacklisted_ips = kept;
        proof {
            let f = s0.filter(pred);
            assert forall|a: int, b: int| 0 <= a < b < self.blacklisted_ips@.len() implies (#[trigger] self.blacklisted_ips@[a]).0
                != (#[trigger] self.blacklisted_ips@[b]).0 by {
                assert(self.ips()[a] == f[a] && self.ips()[b] == f[b]);
                lemma_filter_distinct_first(s0, pred, a, b);
            }
        }
    }

    /// Take `address` off the blacklist.
    pub fn unblacklist_address(&mut self, address: &str)
        requires
            old(self).wf(),
        ensures
            final(self).wf(),
            final(self).addresses() == old(self).addresses().remove(address@),
            final(self).ips() == old(self).ips(),
            final(self).activity() == old(self).activity(),
    {
        let ghost m0 = self.blacklisted_addresses@;
        let _ = self.blacklisted_addresses.remove(address);
        assert(self.addresses() =~= m0.map_values(|s: String| s@).remove(address@));
    }

    /// The record of failed attempts after one more at `now`: a first one starts the count,
    /// a later one adds one and becomes the last.
    pub open spec fn after_failure(m: Map<Seq<char>, ActivityModel>, id: Seq<char>, now: u64) -> Map<Seq<char>, ActivityModel> {
        if m.dom().contains(id) {
            m.insert(id, ActivityModel { failed_attempts: (m[id].failed_attempts + 1) as u64, last_attempt: now, ..m[id] })
        } else {
            m.insert(id, ActivityModel { failed_attempts: 1, first_attempt: now, last_attempt: now })
        }
    }

    /// Record a failed attempt of `identifier` at time `now` (see `after_failure`); an
    /// identifier that has failed `AUTO_BLACKLIST_ATTEMPTS` times or more is blacklisted as an
    /// address (see `auto_blacklisted`).
    pub fn record_failed_attempt_at(&mut self, identifier: String, now: u64)
        requires
            old(self).wf(),
            old(self).activity().dom().contains(identifier@) ==> old(self).activity()[identifier@].failed_attempts < u64::MAX,
        ensures
            final(self).wf(),
            final(self).activity() == Self::after_failure(old(self).activity(), identifier@, now),
            final(self).ips() == old(self).ips(),
            final(self).addresses() == Self::auto_blacklisted(
                old(self).addresses(),
                Self::after_failure(old(self).activity(), identifier@, now),
                identifier@,
            ),
    {
        let ghost m0 = self.suspicious_activity@;
        let a = match self.suspicious_activity.get(identifier.as_str()) {
            Some(a) => SuspiciousActivity { failed_attempts: a.failed_attempts + 1, first_attempt: a.first_attempt, last_attempt: now },
            None => SuspiciousActivity { failed_attempts: 1, first_attempt: now, last_attempt: now },
        };
        let attempts = a.failed_attempts;
        let ghost av = ActivityModel { failed_attempts: a.failed_attempts, first_attempt: a.first_attempt, last_attempt: a.last_attempt };
        let key = identifier.clone();
        self.suspicious_activity.insert(identifier, a);
        assert(self.activity() =~= Self::after_failure(old(self).activity(), key@, now));
        if attempts >= AUTO_BLACKLIST_ATTEMPTS {
            self.blacklist_address(key, "Repeated failed attempts".to_string());
        }
    }

    /// The blacklisted addresses after a failure of `id` left `activity`: `id` joins them once
    /// it has failed `AUTO_BLACKLIST_ATTEMPTS` times or more.
    pub open spec fn auto_blacklisted(
        addresses: Map<Seq<char>, Seq<char>>,
        activity: Map<Seq<char>, ActivityModel>,
        id: Seq<char>,
    ) -> Map<Seq<char>, Seq<char>> {
        if activity[id].failed_attempts >= AUTO_BLACKLIST_ATTEMPTS {
            addresses.insert(id, "Repeated failed attempts"@)
        } else {
            addresses
        }
    }

    /// Record a failed attempt now, by the wall clock (see `record_failed_attempt_at`).
    pub fn record_failed_attempt(&mut self, identifier: String)
        requires
            old(self).wf(),
            old(self).activity().dom().contains(identifier@) ==> old(self).activity()[identifier@].failed_attempts < u64::MAX,
        ensures
            final(self).wf(),
            exists|now: u64| final(self).activity() == #[trigger] Self::after_failure(old(self).activity(), identifier@, now),
            final(self).ips() == old(self).ips(),
            final(self).addresses() == Self::auto_blacklisted(old(self).addresses(), final(self).activity(), identifier@),
    {
        self.record_failed_attempt_at(identifier, now_secs())
    }

    /// How many IPs and addresses are blacklisted, and how many identifiers have failed.
    pub fn get_stats(&self) -> (st: SecurityStats)
        requires
            self.wf(),
        ensures
            st.blacklisted_ips == self.ips().len(),
            st.blacklisted_addresses == self.addresses().dom().len(),
            st.suspicious_activities == self.activity().dom().len(),
    {
        proof {
            assert(self.addresses().dom() =~= self.blacklisted_addresses@.dom());
            assert(self.activity().dom() =~= self.suspicious_activity@.dom());
        }
        SecurityStats {
            blacklisted_ips: self.blacklisted_ips.len(),
            blacklisted_addresses: self.blacklisted_addresses.len(),
            suspicious_activities: self.suspicious_activity.len(),
        }
    }
}

impl Default for SecurityManager {
    fn default() -> (m: Self)
        ensures
            m.wf(),
            m.ips() == Seq::<(IpKey, Seq<char>)>::empty(),
            m.addresses() == Map::<Seq<char>, Seq<char>>::empty(),
            m.activity() == Map::<Seq<char>, ActivityModel>::empty(),
    {
        Self::new()
    }
}

/// Filtering keeps the first components distinct.
pub proof fn lemma_filter_distinct_first<B>(s: Seq<(IpKey, B)>, p: spec_fn((IpKey, B)) -> bool, a: int, b: int)
    requires
        forall|i: int, j: int| 0 <= i < j < s.len() ==> (#[trigger] s[i]).0 != (#[trigger] s[j]).0,
        0 <= a < b < s.filter(p).len(),
    ensures
        s.filter(p)[a].0 != s.filter(p)[b].0,
    decreases s.len(),
{
    reveal(Seq::filter);
    let d = s.drop_last();
    let f = s.filter(p);
    let fd = d.filter(p);
    if p(s.last()) {
        assert(f == fd.push(s.last()));
        if b == f.len() - 1 {
            d.lemma_filter_contains_rev(p, f[a]);
            assert(fd[a] == f[a]);
            let i = choose|i: int| 0 <= i < d.len() && d[i] == f[a];
            assert(s[i] == d[i]);
            assert(s[i].0 != s[s.len() - 1].0);
        } else {
            lemma_filter_distinct_first(d, p, a, b);
        }
    } else {
        assert(f == fd);
        lemma_filter_distinct_first(d, p, a, b);
    }
}

/// Each failed attempt adds one to the identifier's count (a first one counts 1) and is its
/// latest; the identifier is blacklisted once its count reaches ten, and no other
/// identifier's record or listing changes.
pub proof fn lemma_failures_lead_to_blacklist(
    addresses: Map<Seq<char>, Seq<char>>,
    activity: Map<Seq<char>, ActivityModel>,
    id: Seq<char>,
    now: u64,
    other: Seq<char>,
)
    requires
        activity.dom().contains(id) ==> activity[id].failed_attempts < u64::MAX,
        other != id,
    ensures
        ({
            let a = SecurityManager::after_failure(activity, id, now);
            let b = SecurityManager::auto_blacklisted(addresses, a, id);
            &&& a[id].failed_attempts == if activity.dom().contains(id) { activity[id].failed_attempts + 1 } else { 1 }
            &&& a[id].last_attempt == now
            &&& (b.dom().contains(id) <==> (addresses.dom().contains(id) || a[id].failed_attempts >= 10))
            &&& a.dom().contains(other) == activity.dom().contains(other)
            &&& activity.dom().contains(other) ==> a[other] == activity[other]
            &&& b.dom().contains(other) == addresses.dom().contains(other)
        }),
{
}

} // verus!
