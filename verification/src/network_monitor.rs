use vstd::prelude::*;

use crate::clock::now_secs;
use crate::table::{IdMap, StrMap};

verus! {

/// Rates and loads are given in millionths (1_000_000 is 1.0).
pub const RATE_SCALE: u64 = 1_000_000;

/// How long health snapshots are kept, in seconds.
pub const HISTORY_SECS: u64 = 86400;

#[derive(Debug, Clone, Copy, PartialEq, Eq, Structural)]
struct NetworkMetrics {
    total_requests: u64,
    successful_requests: u64,
    failed_requests: u64,
    total_bytes_sent: u64,
    total_bytes_received: u64,
    active_connections: usize,
    peak_connections: usize,
    total_gas_processed: u64,
    total_transactions_processed: u64,
}

#[derive(Debug, Clone)]
pub struct PeerStats {
    pub peer_id: String,
    pub connected_at: u64,
    pub last_seen: u64,
    pub requests_sent: u64,
    pub requests_received: u64,
    pub bytes_sent: u64,
    pub bytes_received: u64,
    pub latency_ms: u64,
    pub is_healthy: bool,
}

#[derive(Debug, Clone, Copy, PartialEq, Eq, Structural)]
pub struct HealthSnapshot {
    pub timestamp: u64,
    pub status: NetworkStatus,
    /// Transactions per second, in millionths.
    pub tps: u64,
    pub active_connections: usize,
    /// In millionths.
    pub success_rate: u64,
    pub avg_latency_ms: u64,
    /// In millionths.
    pub network_load: u64,
}

#[derive(Debug, Clone, Copy, PartialEq, Eq, Structural)]
pub enum NetworkStatus {
    Healthy,
    Degraded,
    Critical,
    Offline,
}

#[derive(Debug, Clone, Copy, PartialEq, Eq, Structural)]
pub struct NetworkStats {
    pub uptime_seconds: u64,
    pub status: NetworkStatus,
    pub total_requests: u64,
    pub successful_requests: u64,
    pub failed_requests: u64,
    /// In millionths.
    pub success_rate: u64,
    pub total_bytes_sent: u64,
    pub total_bytes_received: u64,
    pub active_connections: usize,
    pub peak_connections: usize,
    pub total_peers: usize,
    pub healthy_peers: usize,
    /// In millionths.
    pub transactions_per_second: u64,
    pub avg_latency_ms: u64,
    /// In millionths.
    pub network_load: u64,
}

/// The status for these counts: healthy before any request; offline without connections;
/// critical when more than half the requests failed; degraded above a fifth; else healthy.
pub open spec fn status_spec(total: u64, failed: u64, active: usize) -> NetworkStatus {
    if total == 0 {
        NetworkStatus::Healthy
    } else if active == 0 {
        NetworkStatus::Offline
    } else if failed * 2 > total {
        NetworkStatus::Critical
    } else if failed * 5 > total {
        NetworkStatus::Degraded
    } else {
        NetworkStatus::Healthy
    }
}

/// `num / den` in millionths, rounded down, at most `u64::MAX`.
pub open spec fn ratio_spec(num: int, den: int) -> u64 {
    if num * RATE_SCALE / den > u64::MAX {
        u64::MAX
    } else {
        (num * RATE_SCALE / den) as u64
    }
}

/// The latencies added up.
pub open spec fn latency_sum(s: Seq<PeerStats>) -> int
    decreases s.len(),
{
    if s.len() == 0 {
        0
    } else {
        latency_sum(s.drop_last()) + s.last().latency_ms
    }
}

/// Whether `s` is ordered by timestamp.
pub open spec fn sorted_by_time(s: Seq<HealthSnapshot>) -> bool {
    forall|i: int, j: int| 0 <= i < j < s.len() ==> s[i].timestamp <= s[j].timestamp
}

/// Network health and performance monitor.
pub struct NetworkMonitor {
    start_time: u64,
    metrics: NetworkMetrics,
    peer_stats: StrMap<PeerStats>,
    health_history: IdMap<HealthSnapshot>,
}

impl NetworkMonitor {
    /// When the monitor started, in seconds of the wall clock.
    pub closed spec fn started(&self) -> u64 {
        self.start_time
    }

    pub closed spec fn total_requests(&self) -> u64 {
        self.metrics.total_requests
    }

    pub closed spec fn successful(&self) -> u64 {
        self.metrics.successful_requests
    }

    pub closed spec fn failed(&self) -> u64 {
        self.metrics.failed_requests
    }

    pub closed spec fn bytes_sent(&self) -> u64 {
        self.metrics.total_bytes_sent
    }

    pub closed spec fn bytes_received(&self) -> u64 {
        self.metrics.total_bytes_received
    }

    pub closed spec fn active(&self) -> usize {
        self.metrics.active_connections
    }

    pub closed spec fn peak(&self) -> usize {
        self.metrics.peak_connections
    }

    pub closed spec fn gas(&self) -> u64 {
        self.metrics.total_gas_processed
    }

    pub closed spec fn transactions(&self) -> u64 {
        self.metrics.total_transactions_processed
    }

    /// The peers by id.
    pub closed spec fn peers(&self) -> Map<Seq<char>, PeerStats> {
        self.peer_stats@
    }

    /// The peers in the order they were first seen.
    pub closed spec fn peer_list(&self) -> Seq<PeerStats> {
        self.peer_stats.values()
    }

    /// The health snapshots by timestamp.
    pub closed spec fn history(&self) -> Map<u64, HealthSnapshot> {
        self.health_history@
    }

    /// The health snapshots in the order they were taken.
    pub closed spec fn history_list(&self) -> Seq<HealthSnapshot> {
        self.health_history.values()
    }

    /// The snapshots taken at `cutoff` or later, in the order they were taken.
    pub open spec fn recent(&self, cutoff: u64) -> Seq<HealthSnapshot> {
        self.history_list().filter(|h: HealthSnapshot| h.timestamp >= cutoff)
    }

    /// The tables are well formed, every snapshot is filed under its own timestamp, and the
    /// active connections never exceed the peak.
    pub closed spec fn wf(&self) -> bool {
        &&& self.peer_stats.wf()
        &&& self.health_history.wf()
        &&& forall|t: u64| #[trigger] self.health_history@.dom().contains(t) ==> self.health_history@[t].timestamp == t
        &&& self.metrics.active_connections <= self.metrics.peak_connections
    }

    /// A monitor started at `now`, with nothing recorded.
    pub fn new_at(now: u64) -> (m: Self)
        ensures
            m.wf(),
            m.started() == now,
            m.total_requests() == 0 && m.successful() == 0 && m.failed() == 0,
            m.bytes_sent() == 0 && m.bytes_received() == 0,
            m.active() == 0 && m.peak() == 0,
            m.gas() == 0 && m.transactions() == 0,
            m.peers() == Map::<Seq<char>, PeerStats>::empty(),
            m.history() == Map::<u64, HealthSnapshot>::empty(),
    {
        NetworkMonitor {
            start_time: now,
            metrics: NetworkMetrics {
                total_requests: 0,
                successful_requests: 0,
                failed_requests: 0,
                total_bytes_sent: 0,
                total_bytes_received: 0,
                active_connections: 0,
                peak_connections: 0,
                total_gas_processed: 0,
                total_transactions_processed: 0,
            },
            peer_stats: StrMap::new(),
            health_history: IdMap::new(),
        }
    }

    /// A monitor started now, by the wall clock.
    pub fn new() -> (m: Self)
        ensures
            m.wf(),
            m.total_requests() == 0 && m.successful() == 0 && m.failed() == 0,
            m.bytes_sent() == 0 && m.bytes_received() == 0,
            m.active() == 0 && m.peak() == 0,
            m.gas() == 0 && m.transactions() == 0,
            m.peers() == Map::<Seq<char>, PeerStats>::empty(),
            m.history() == Map::<u64, HealthSnapshot>::empty(),
    {
        Self::new_at(now_secs())
    }

    /// Count a request and its bytes (the counters wrap).
    pub fn record_request(&mut self, bytes_sent: u64, bytes_received: u64, success: bool)
        requires
            old(self).wf(),
        ensures
            final(self).wf(),
            final(self).total_requests() == wrap_add(old(self).total_requests(), 1),
            final(self).successful() == (if success {
                wrap_add(old(self).successful(), 1)
            } else {
                old(self).successful()
            }),
            final(self).failed() == (if success {
                old(self).failed()
            } else {
                wrap_add(old(self).failed(), 1)
            }),
            final(self).bytes_sent() == wrap_add(old(self).bytes_sent(), bytes_sent),
            final(self).bytes_received() == wrap_add(old(self).bytes_received(), bytes_received),
            final(self).active() == old(self).active(),
            final(self).peak() == old(self).peak(),
            final(self).transactions() == old(self).transactions(),
            final(self).gas() == old(self).gas(),
            final(self).peers() == old(self).peers(),
            final(self).history() == old(self).history(),
            final(self).started() == old(self).started(),
    {
        self.metrics.total_requests = self.metrics.total_requests.wrapping_add(1);
        if success {
            self.metrics.successful_requests = self.metrics.successful_requests.wrapping_add(1);
        } else {
            self.metrics.failed_requests = self.metrics.failed_requests.wrapping_add(1);
        }
        self.metrics.total_bytes_sent = self.metrics.total_bytes_sent.wrapping_add(bytes_sent);
        self.metrics.total_bytes_received = self.metrics.total_bytes_received.wrapping_add(bytes_received);
    }

    /// Count a processed transaction and its gas (the counters wrap).
    pub fn record_transaction(&mut self, gas_used: u64)
        requires
            old(self).wf(),
        ensures
            final(self).wf(),
            final(self).transactions() == wrap_add(old(self).transactions(), 1),
            final(self).gas() == wrap_add(old(self).gas(), gas_used),
            final(self).total_requests() == old(self).total_requests(),
            final(self).successful() == old(self).successful(),
            final(self).failed() == old(self).failed(),
            final(self).active() == old(self).active(),
            final(self).peak() == old(self).peak(),
            final(self).peers() == old(self).peers(),
            final(self).history() == old(self).history(),
            final(self).started() == old(self).started(),
    {
        self.metrics.total_transactions_processed = self.metrics.total_transactions_processed.wrapping_add(1);
        self.metrics.total_gas_processed = self.metrics.total_gas_processed.wrapping_add(gas_used);
    }

    /// Set the active connections; the peak keeps the largest count seen.
    pub fn set_active_connections(&mut self, count: usize)
        requires
            old(self).wf(),
        ensures
            final(self).wf(),
            final(self).active() == count,
            final(self).peak() == (if count > old(self).peak() {
                count
            } else {
                old(self).peak()
            }),
            final(self).total_requests() == old(self).total_requests(),
            final(self).successful() == old(self).successful(),
            final(self).failed() == old(self).failed(),
            final(self).transactions() == old(self).transactions(),
            final(self).peers() == old(self).peers(),
            final(self).history() == old(self).history(),
            final(self).started() == old(self).started(),
    {
        self.metrics.active_connections = count;
        if count > self.metrics.peak_connections {
            self.metrics.peak_connections = count;
        }
    }

    /// `next` is this monitor after the latency and health of `peer_id` were recorded at
    /// `now`: a known peer takes them with `now` as its last sighting, an unknown one is added
    /// with zero counters, connected and seen at `now`; the rest stays.
    pub open spec fn peer_updated(&self, next: &Self, peer_id: String, latency_ms: u64, is_healthy: bool, now: u64) -> bool {
        &&& next.peers() == self.peers().insert(
            peer_id@,
            if self.peers().dom().contains(peer_id@) {
                PeerStats { last_seen: now, latency_ms, is_healthy, ..self.peers()[peer_id@] }
            } else {
                PeerStats {
                    peer_id,
                    connected_at: now,
                    last_seen: now,
                    requests_sent: 0,
                    requests_received: 0,
                    bytes_sent: 0,
                    bytes_received: 0,
                    latency_ms,
                    is_healthy,
                }
            },
        )
        &&& next.total_requests() == self.total_requests()
        &&& next.failed() == self.failed()
        &&& next.active() == self.active()
        &&& next.history() == self.history()
        &&& next.started() == self.started()
    }

    /// Record a peer's latency and health at `now`; a new peer is connected at `now` with no
    /// traffic.
    pub fn update_peer_at(&mut self, peer_id: String, latency_ms: u64, is_healthy: bool, now: u64)
        requires
            old(self).wf(),
        ensures
            final(self).wf(),
            old(self).peer_updated(final(self), peer_id, latency_ms, is_healthy, now),
    {
        let key = peer_id.clone();
        match self.peer_stats.remove(peer_id.as_str()) {
            Some(mut st) => {
                st.last_seen = now;
                st.latency_ms = latency_ms;
                st.is_healthy = is_healthy;
                self.peer_stats.insert(key, st);
            },
            None => {
                self.peer_stats.insert(
                    key,
                    PeerStats {
                        peer_id,
                        connected_at: now,
                        last_seen: now,
                        requests_sent: 0,
                        requests_received: 0,
                        bytes_sent: 0,
                        bytes_received: 0,
                        latency_ms,
                        is_healthy,
                    },
                );
            },
        }
        assert(self.peer_stats@ =~= old(self).peers().insert(
            peer_id@,
            if old(self).peers().dom().contains(peer_id@) {
                PeerStats { last_seen: now, latency_ms, is_healthy, ..old(self).peers()[peer_id@] }
            } else {
                PeerStats {
                    peer_id,
                    connected_at: now,
                    last_seen: now,
                    requests_sent: 0,
                    requests_received: 0,
                    bytes_sent: 0,
                    bytes_received: 0,
                    latency_ms,
                    is_healthy,
                }
            },
        ));
    }

    /// Record a peer's latency and health now, by the wall clock (see `update_peer_at`).
    pub fn update_peer(&mut self, peer_id: String, latency_ms: u64, is_healthy: bool)
        requires
            old(self).wf(),
        ensures
            final(self).wf(),
            exists|now: u64| #[trigger] old(self).peer_updated(final(self), peer_id, latency_ms, is_healthy, now),
    {
        let now = now_secs();
        self.update_peer_at(peer_id, latency_ms, is_healthy, now);
    }

    /// Count traffic with a known peer: an outgoing request and its sent bytes, or an
    /// incoming one and its received bytes. Unknown peers are ignored.
    pub fn record_peer_communication(&mut self, peer_id: &str, bytes_sent: u64, bytes_received: u64, outgoing: bool)
        requires
            old(self).wf(),
            old(self).peers().dom().contains(peer_id@) ==> {
                let p = old(self).peers()[peer_id@];
                if outgoing {
                    p.requests_sent < u64::MAX && p.bytes_sent + bytes_sent <= u64::MAX
                } else {
                    p.requests_received < u64::MAX && p.bytes_received + bytes_received <= u64::MAX
                }
            },
        ensures
            final(self).wf(),
            !old(self).peers().dom().contains(peer_id@) ==> final(self).peers() == old(self).peers(),
            old(self).peers().dom().contains(peer_id@) ==> final(self).peers() == old(self).peers().insert(
                peer_id@,
                if outgoing {
                    PeerStats {
                        requests_sent: (old(self).peers()[peer_id@].requests_sent + 1) as u64,
                        bytes_sent: (old(self).peers()[peer_id@].bytes_sent + bytes_sent) as u64,
                        ..old(self).peers()[peer_id@]
                    }
                } else {
                    PeerStats {
                        requests_received: (old(self).peers()[peer_id@].requests_received + 1) as u64,
                        bytes_received: (old(self).peers()[peer_id@].bytes_received + bytes_received) as u64,
                        ..old(self).peers()[peer_id@]
                    }
                },
            ),
            final(self).total_requests() == old(self).total_requests(),
            final(self).failed() == old(self).failed(),
            final(self).active() == old(self).active(),
            final(self).history() == old(self).history(),
            final(self).started() == old(self).started(),
    {
        match self.peer_stats.remove(peer_id) {
            Some(mut st) => {
                if outgoing {
                    st.requests_sent = st.requests_sent + 1;
                    st.bytes_sent = st.bytes_sent + bytes_sent;
                } else {
                    st.requests_received = st.requests_received + 1;
                    st.bytes_received = st.bytes_received + bytes_received;
                }
                self.peer_stats.insert(peer_id.to_owned(), st);
                assert(self.peer_stats@ =~= old(self).peers().insert(
                    peer_id@,
                    if outgoing {
                        PeerStats {
                            requests_sent: (old(self).peers()[peer_id@].requests_sent + 1) as u64,
                            bytes_sent: (old(self).peers()[peer_id@].bytes_sent + bytes_sent) as u64,
                            ..old(self).peers()[peer_id@]
                        }
                    } else {
                        PeerStats {
                            requests_received: (old(self).peers()[peer_id@].requests_received + 1) as u64,
                            bytes_received: (old(self).peers()[peer_id@].bytes_received + bytes_received) as u64,
                            ..old(self).peers()[peer_id@]
                        }
                    },
                ));
            },
            None => {},
        }
    }

    /// The current status (see `status_spec`).
    pub fn get_status(&self) -> (s: NetworkStatus)
        ensures
            s == status_spec(self.total_requests(), self.failed(), self.active()),
    {
        let total = self.metrics.total_requests;
        let failed = self.metrics.failed_requests;
        let active = self.metrics.active_connections;
        if total == 0 {
            return NetworkStatus::Healthy;
        }
        if active == 0 {
            NetworkStatus::Offline
        } else if (failed as u128) * 2 > total as u128 {
            NetworkStatus::Critical
        } else if (failed as u128) * 5 > total as u128 {
            NetworkStatus::Degraded
        } else {
            NetworkStatus::Healthy
        }
    }

    /// Whether the status is healthy.
    pub fn is_healthy(&self) -> (b: bool)
        ensures
            b == (status_spec(self.total_requests(), self.failed(), self.active()) == NetworkStatus::Healthy),
    {
        self.get_status() == NetworkStatus::Healthy
    }

    /// The network statistics at time `now`: the counters; the success rate (100% before any
    /// request), the transactions per second of uptime (0 at first), the mean peer latency
    /// (0 without peers) and the load, active connections over the peak (at least 1).
    pub open spec fn stats_spec(&self, now: u64) -> NetworkStats {
        let uptime = if now >= self.started() { (now - self.started()) as u64 } else { 0 };
        let peak = if self.peak() == 0 { 1usize } else { self.peak() };
        let peers = self.peer_list();
        NetworkStats {
            uptime_seconds: uptime,
            status: status_spec(self.total_requests(), self.failed(), self.active()),
            total_requests: self.total_requests(),
            successful_requests: self.successful(),
            failed_requests: self.failed(),
            success_rate: if self.total_requests() > 0 {
                ratio_spec(self.successful() as int, self.total_requests() as int)
            } else {
                RATE_SCALE
            },
            total_bytes_sent: self.bytes_sent(),
            total_bytes_received: self.bytes_received(),
            active_connections: self.active(),
            peak_connections: peak,
            total_peers: peers.len() as usize,
            healthy_peers: peers.filter(|p: PeerStats| p.is_healthy).len() as usize,
            transactions_per_second: if uptime > 0 {
                ratio_spec(self.transactions() as int, uptime as int)
            } else {
                0
            },
            avg_latency_ms: if peers.len() > 0 {
                (latency_sum(peers) / (peers.len() as int)) as u64
            } else {
                0
            },
            network_load: ratio_spec(self.active() as int, peak as int),
        }
    }

    /// The network statistics at time `now` (see `stats_spec`).
    pub fn get_stats_at(&self, now: u64) -> (st: NetworkStats)
        requires
            self.wf(),
        ensures
            st == self.stats_spec(now),
    {
        let uptime: u64 = if now >= self.start_time {
            now - self.start_time
        } else {
            0
        };
        let total_requests = self.metrics.total_requests;
        let successful = self.metrics.successful_requests;
        let success_rate = if total_requests > 0 {
            ratio(successful, total_requests)
        } else {
            RATE_SCALE
        };
        let tps = if uptime > 0 {
            ratio(self.metrics.total_transactions_processed, uptime)
        } else {
            0
        };
        let ghost s = self.peer_stats.values();
        let ghost pred = |p: PeerStats| p.is_healthy;
        let n = self.peer_stats.len_entries();
        let mut healthy: usize = 0;
        let mut lat: u128 = 0;
        let mut i: usize = 0;
        while i < n
            invariant
                n == s.len(),
                s == self.peer_stats.values(),
                0 <= i <= n,
                pred == (|p: PeerStats| p.is_healthy),
                healthy == s.take(i as int).filter(pred).len(),
                healthy <= i,
                lat == latency_sum(s.take(i as int)),
                lat <= i * (u64::MAX as int),
            decreases n - i,
        {
            let p = self.peer_stats.value_at(i);
            proof {
                assert(s[i as int] == *p);
                assert(s.take(i + 1) =~= s.take(i as int).push(s[i as int]));
                s.take(i as int).lemma_filter_push(s[i as int], pred);
                assert(s.take(i + 1).drop_last() =~= s.take(i as int));
            }
            if p.is_healthy {
                healthy = healthy + 1;
            }
            lat = lat + p.latency_ms as u128;
            i = i + 1;
        }
        assert(s.take(n as int) =~= s);
        let avg_latency: u64 = if n > 0 {
            proof {
                assert((lat as int) / (n as int) <= u64::MAX) by (nonlinear_arith)
                    requires
                        lat <= n * (u64::MAX as int),
                        n > 0,
                ;
            }
            (lat / (n as u128)) as u64
        } else {
            0
        };
        let active = self.metrics.active_connections;
        let peak: usize = if self.metrics.peak_connections == 0 {
            1
        } else {
            self.metrics.peak_connections
        };
        let load = ratio(active as u64, peak as u64);
        NetworkStats {
            uptime_seconds: uptime,
            status: self.get_status(),
            total_requests,
            successful_requests: successful,
            failed_requests: self.metrics.failed_requests,
            success_rate,
            total_bytes_sent: self.metrics.total_bytes_sent,
            total_bytes_received: self.metrics.total_bytes_received,
            active_connections: active,
            peak_connections: peak,
            total_peers: n,
            healthy_peers: healthy,
            transactions_per_second: tps,
            avg_latency_ms: avg_latency,
            network_load: load,
        }
    }

    /// The network statistics now, by the wall clock (see `stats_spec`).
    pub fn get_stats(&self) -> (st: NetworkStats)
        requires
            self.wf(),
        ensures
            exists|now: u64| st == #[trigger] self.stats_spec(now),
    {
        let now = now_secs();
        self.get_stats_at(now)
    }

    /// `next` is this monitor after a health snapshot at `now`: the snapshot of the
    /// statistics at `now` is filed under `now`, the snapshots more than a day older are
    /// dropped, and the peers and counters stay.
    pub open spec fn snapshotted(&self, next: &Self, now: u64) -> bool {
        let st = self.stats_spec(now);
        let snap = HealthSnapshot {
            timestamp: now,
            status: st.status,
            tps: st.transactions_per_second,
            active_connections: st.active_connections,
            success_rate: st.success_rate,
            avg_latency_ms: st.avg_latency_ms,
            network_load: st.network_load,
        };
        let cutoff = if now >= HISTORY_SECS { (now - HISTORY_SECS) as u64 } else { 0 };
        &&& next.history() == self.history().insert(now, snap).restrict(
            self.history().insert(now, snap).dom().filter(|t: u64| t >= cutoff),
        )
        &&& next.peers() == self.peers()
        &&& next.total_requests() == self.total_requests()
        &&& next.failed() == self.failed()
        &&& next.active() == self.active()
        &&& next.started() == self.started()
    }

    /// Take a health snapshot at `now`, filed under `now`, and drop snapshots more than a day
    /// older.
    pub fn snapshot_health_at(&mut self, now: u64)
        requires
            old(self).wf(),
        ensures
            final(self).wf(),
            old(self).snapshotted(final(self), now),
    {
        let stats = self.get_stats_at(now);
        let snapshot = HealthSnapshot {
            timestamp: now,
            status: stats.status,
            tps: stats.transactions_per_second,
            active_connections: stats.active_connections,
            success_rate: stats.success_rate,
            avg_latency_ms: stats.avg_latency_ms,
            network_load: stats.network_load,
        };
        self.health_history.insert(now, snapshot);
        let cutoff = now.saturating_sub(HISTORY_SECS);
        let ghost full = self.health_history@;
        let keep = (|t: u64, h: &HealthSnapshot| -> (b: bool)
            ensures
                b == (t >= cutoff),
            { t >= cutoff });
        self.health_history.retain(keep, Ghost(|t: u64, h: HealthSnapshot| t >= cutoff));
        proof {
            assert(self.health_history@ =~= full.restrict(full.dom().filter(|t: u64| t >= cutoff)));
            assert forall|t: u64| #[trigger] self.health_history@.dom().contains(t) implies self.health_history@[t].timestamp == t by {
                if t != now {
                    assert(old(self).history().dom().contains(t));
                }
            }
        }
    }

    /// Take a health snapshot now, by the wall clock (see `snapshot_health_at`).
    pub fn snapshot_health(&mut self)
        requires
            old(self).wf(),
        ensures
            final(self).wf(),
            exists|now: u64| #[trigger] old(self).snapshotted(final(self), now),
    {
        let now = now_secs();
        self.snapshot_health_at(now);
    }

    /// The snapshots taken at `now - duration_seconds` or later (the cutoff stops at 0), ordered
    /// by time.
    pub fn get_health_history_at(&self, duration_seconds: u64, now: u64) -> (r: Vec<HealthSnapshot>)
        requires
            self.wf(),
        ensures
            sorted_by_time(r@),
            r@.to_multiset() == self.recent(history_cutoff(now, duration_seconds)).to_multiset(),
    {
        let cutoff = now.saturating_sub(duration_seconds);
        let ghost s = self.health_history.values();
        let ghost pred = |h: HealthSnapshot| h.timestamp >= cutoff;
        let mut picked: Vec<HealthSnapshot> = Vec::new();
        let n = self.health_history.len_entries();
        let mut i: usize = 0;
        while i < n
            invariant
                n == s.len(),
                s == self.health_history.values(),
                0 <= i <= n,
                pred == (|h: HealthSnapshot| h.timestamp >= cutoff),
                picked@ == s.take(i as int).filter(pred),
            decreases n - i,
        {
            let h = *self.health_history.value_at(i);
            proof {
                assert(s[i as int] == h);
                assert(s.take(i + 1) =~= s.take(i as int).push(s[i as int]));
                s.take(i as int).lemma_filter_push(s[i as int], pred);
            }
            if h.timestamp >= cutoff {
                picked.push(h);
            }
            i = i + 1;
        }
        assert(s.take(n as int) =~= s);
        assert(pred == (|h: HealthSnapshot| h.timestamp >= (if now >= duration_seconds {
            now - duration_seconds
        } else {
            0
        })));
        sort_by_time(picked)
    }

    /// The snapshots of the last `duration_seconds`, by the wall clock, ordered by time.
    pub fn get_health_history(&self, duration_seconds: u64) -> (r: Vec<HealthSnapshot>)
        requires
            self.wf(),
        ensures
            sorted_by_time(r@),
            exists|now: u64|
                r@.to_multiset() == self.recent(#[trigger] history_cutoff(now, duration_seconds)).to_multiset(),
    {
        let now = now_secs();
        self.get_health_history_at(duration_seconds, now)
    }

    /// The peers, in the order they were first seen.
    pub fn get_peer_stats(&self) -> (r: Vec<&PeerStats>)
        ensures
            r@.map_values(|p: &PeerStats| *p) == self.peer_list(),
    {
        let mut r: Vec<&PeerStats> = Vec::new();
        let mut i: usize = 0;
        while i < self.peer_stats.len_entries()
            invariant
                0 <= i <= self.peer_stats.entries().len(),
                r@.map_values(|p: &PeerStats| *p) == self.peer_stats.entries().take(i as int).map_values(
                    |e: (String, PeerStats)| e.1,
                ),
            decreases self.peer_stats.entries().len() - i,
        {
            let p = self.peer_stats.value_at(i);
            let ghost before = r@;
            r.push(p);
            assert(r@.map_values(|p: &PeerStats| *p) =~= before.map_values(|p: &PeerStats| *p).push(*p));
            assert(self.peer_stats.entries().take(i + 1).map_values(|e: (String, PeerStats)| e.1)
                =~= self.peer_stats.entries().take(i as int).map_values(|e: (String, PeerStats)| e.1).push(*p));
            i = i + 1;
        }
        assert(self.peer_stats.entries().take(i as int) =~= self.peer_stats.entries());
        r
    }

    /// `next` is this monitor after the peers last seen before `now - timeout_seconds` (the
    /// cutoff stops at 0) were dropped: the other peers stay as they are, and so does the rest.
    pub open spec fn stale_dropped(&self, next: &Self, timeout_seconds: u64, now: u64) -> bool {
        let cutoff = if now >= timeout_seconds { (now - timeout_seconds) as u64 } else { 0 };
        &&& next.peers() == self.peers().restrict(
            self.peers().dom().filter(|k: Seq<char>| self.peers()[k].last_seen >= cutoff),
        )
        &&& next.total_requests() == self.total_requests()
        &&& next.failed() == self.failed()
        &&& next.active() == self.active()
        &&& next.history() == self.history()
        &&& next.started() == self.started()
    }

    /// Drop the peers last seen before `now - timeout_seconds` (see `stale_dropped`).
    pub fn cleanup_stale_peers_at(&mut self, timeout_seconds: u64, now: u64)
        requires
            old(self).wf(),
        ensures
            final(self).wf(),
            old(self).stale_dropped(final(self), timeout_seconds, now),
    {
        let cutoff = now.saturating_sub(timeout_seconds);
        let ghost full = self.peer_stats@;
        let keep = (|k: &String, p: &PeerStats| -> (b: bool)
            ensures
                b == (p.last_seen >= cutoff),
            { p.last_seen >= cutoff });
        self.peer_stats.retain(keep, Ghost(|k: Seq<char>, p: PeerStats| p.last_seen >= cutoff));
        assert(self.peer_stats@ =~= full.restrict(full.dom().filter(|k: Seq<char>| full[k].last_seen >= cutoff)));
    }

    /// Drop the stale peers now, by the wall clock (see `cleanup_stale_peers_at`).
    pub fn cleanup_stale_peers(&mut self, timeout_seconds: u64)
        requires
            old(self).wf(),
        ensures
            final(self).wf(),
            exists|now: u64| #[trigger] old(self).stale_dropped(final(self), timeout_seconds, now),
    {
        let now = now_secs();
        self.cleanup_stale_peers_at(timeout_seconds, now);
    }
}

/// The earliest snapshot time a history over the last `duration_seconds` at `now` keeps
/// (0 when the duration reaches back past 0).
pub open spec fn history_cutoff(now: u64, duration_seconds: u64) -> u64 {
    if now >= duration_seconds {
        (now - duration_seconds) as u64
    } else {
        0
    }
}

/// `x + y`, wrapping around at 2^64.
pub open spec fn wrap_add(x: u64, y: u64) -> u64 {
    if x + y > u64::MAX {
        (x + y - 0x1_0000_0000_0000_0000) as u64
    } else {
        (x + y) as u64
    }
}

/// `num / den` in millionths (see `ratio_spec`).
pub(crate) fn ratio(num: u64, den: u64) -> (r: u64)
    requires
        den > 0,
    ensures
        r == ratio_spec(num as int, den as int),
{
    let wide = crate::util::mul_wide(num, RATE_SCALE) / (den as u128);
    if wide > u64::MAX as u128 {
        u64::MAX
    } else {
        wide as u64
    }
}

/// The snapshots ordered by time (insertion sort).
fn sort_by_time(v: Vec<HealthSnapshot>) -> (r: Vec<HealthSnapshot>)
    ensures
        sorted_by_time(r@),
        r@.to_multiset() == v@.to_multiset(),
{
    let mut r: Vec<HealthSnapshot> = Vec::new();
    let mut rest = v;
    let ghost all = rest@;
    let mut i: usize = 0;
    let n: usize = rest.len();
    broadcast use vstd::seq_lib::group_to_multiset_ensures;
    while rest.len() > 0
        invariant
            n == all.len(),
            0 <= i <= n,
            rest@ == all.skip(i as int),
            sorted_by_time(r@),
            r@.to_multiset() == all.take(i as int).to_multiset(),
        decreases rest.len(),
    {
        let x = rest.remove(0);
        assert(x == all[i as int]);
        let mut k: usize = 0;
        while k < r.len() && r[k].timestamp <= x.timestamp
            invariant
                0 <= k <= r@.len(),
                forall|m: int| 0 <= m < k ==> r@[m].timestamp <= x.timestamp,
            decreases r@.len() - k,
        {
            k = k + 1;
        }
        let ghost r0 = r@;
        r.insert(k, x);
        proof {
            assert(r@ == r0.insert(k as int, x));
            assert forall|a: int, b: int| 0 <= a < b < r@.len() implies r@[a].timestamp <= r@[b].timestamp by {
                if k < r0.len() {
                    assert(r0[k as int].timestamp > x.timestamp);
                }
                if a < k && b == k {
                } else if a == k && b > k {
                    assert(r@[b] == r0[b - 1]);
                    if b - 1 > k {
                        assert(r0[k as int].timestamp <= r0[b - 1].timestamp);
                    }
                } else if a < k && b > k {
                    assert(r@[b] == r0[b - 1]);
                }
            }
            vstd::seq_lib::to_multiset_insert(r0, k as int, x);
            assert(all.take(i + 1) =~= all.take(i as int).push(x));
            vstd::seq_lib::to_multiset_build(all.take(i as int), x);
        }
        assert(rest@ =~= all.skip(i + 1));
        i = i + 1;
    }
    assert(all.take(n as int) =~= all);
    r
}

impl Default for NetworkMonitor {
    fn default() -> (m: Self)
        ensures
            m.wf(),
            m.total_requests() == 0 && m.successful() == 0 && m.failed() == 0,
            m.active() == 0 && m.peak() == 0,
            m.peers() == Map::<Seq<char>, PeerStats>::empty(),
            m.history() == Map::<u64, HealthSnapshot>::empty(),
    {
        Self::new()
    }
}

/// The network's status by its failure share: healthy before any request; then offline
/// without connections; else critical when more than half the requests failed, degraded when
/// more than a fifth did, healthy otherwise. More failures out of the same requests never make
/// it healthier.
pub proof fn lemma_status_by_failure_share(total: u64, failed: u64, more_failed: u64, active: usize)
    requires
        failed <= more_failed,
    ensures
        total == 0 ==> status_spec(total, failed, active) == NetworkStatus::Healthy,
        total > 0 && active == 0 ==> status_spec(total, failed, active) == NetworkStatus::Offline,
        total > 0 && active > 0 ==> (status_spec(total, failed, active) == NetworkStatus::Critical <==> failed * 2
            > total),
        total > 0 && active > 0 ==> (status_spec(total, failed, active) == NetworkStatus::Degraded <==> (failed * 5
            > total && failed * 2 <= total)),
        total > 0 && active > 0 ==> (status_spec(total, failed, active) == NetworkStatus::Healthy <==> failed * 5
            <= total),
        status_spec(total, failed, active) == NetworkStatus::Critical ==> status_spec(total, more_failed, active)
            == NetworkStatus::Critical,
        status_spec(total, more_failed, active) == NetworkStatus::Healthy ==> status_spec(total, failed, active)
            == NetworkStatus::Healthy,
{
}

/// A rate in millionths is the largest `r` with `r * den <= num * 1_000_000` (capped at
/// `u64::MAX`).
pub proof fn lemma_ratio_floor(num: int, den: int)
    requires
        num >= 0,
        den > 0,
        num * 1_000_000 / den <= u64::MAX,
    ensures
        ratio_spec(num, den) * den <= num * 1_000_000 < (ratio_spec(num, den) + 1) * den,
{
    assert(num * 1_000_000 >= 0) by (nonlinear_arith)
        requires
            num >= 0,
    ;
    crate::util::lemma_floor_div(num * 1_000_000, den);
}

/// Dropping stale peers after `timeout_seconds` at `now` keeps exactly the peers seen within
/// the timeout (`last_seen + timeout_seconds >= now`), each unchanged, and adds none.
pub proof fn lemma_stale_cleanup(m: &NetworkMonitor, next: &NetworkMonitor, timeout_seconds: u64, now: u64)
    requires
        m.stale_dropped(next, timeout_seconds, now),
    ensures
        forall|k: Seq<char>|
            #[trigger] next.peers().dom().contains(k) <==> (m.peers().dom().contains(k) && m.peers()[k].last_seen
                + timeout_seconds >= now),
        forall|k: Seq<char>| #[trigger] next.peers().dom().contains(k) ==> next.peers()[k] == m.peers()[k],
{
}

} // verus!
