use vstd::prelude::*;

use crate::clock::now_secs;

verus! {

#[derive(Debug, Clone)]
pub struct PauseEvent {
    pub event_id: u64,
    pub action: PauseAction,
    pub reason: String,
    pub triggered_by: String,
    pub timestamp: u64,
    pub metadata: String,
}

#[derive(Debug, Clone, Copy, PartialEq, Eq, Structural)]
pub enum PauseAction {
    Pause,
    Unpause,
}

#[derive(Debug, Clone, Copy)]
pub struct CircuitBreakerConfig {
    pub failure_threshold: usize,
    pub success_threshold: usize,
    pub timeout_seconds: u64,
}

#[derive(Debug, Clone, Copy, PartialEq, Eq, Structural)]
pub enum CircuitState {
    /// Normal operation.
    Closed,
    /// Circuit tripped, rejecting requests.
    Open,
    /// Testing if the system recovered.
    HalfOpen,
}

/// Elapsed seconds from `from` to `now`, computed with wrapping subtraction.
pub open spec fn elapsed_spec(now: u64, from: u64) -> int {
    if now >= from {
        now - from
    } else {
        now + 0x1_0000_0000_0000_0000 - from
    }
}

/// One `u64` counter step, wrapping at the top.
pub open spec fn bump(x: u64) -> u64 {
    if x == u64::MAX {
        0
    } else {
        (x + 1) as u64
    }
}

/// Circuit breaker: opens after enough failures, half-opens once the timeout has passed since
/// the last failure, and closes again after enough successes while half-open.
#[derive(Debug, Clone, Copy)]
pub struct CircuitBreaker {
    config: CircuitBreakerConfig,
    state: CircuitState,
    failure_count: u64,
    success_count: u64,
    last_failure_time: u64,
}

impl CircuitBreaker {
    pub closed spec fn config_spec(&self) -> CircuitBreakerConfig {
        self.config
    }

    pub closed spec fn state_spec(&self) -> CircuitState {
        self.state
    }

    pub closed spec fn failures(&self) -> u64 {
        self.failure_count
    }

    pub closed spec fn successes(&self) -> u64 {
        self.success_count
    }

    pub closed spec fn last_failure(&self) -> u64 {
        self.last_failure_time
    }

    /// The breaker after reading its state at time `now`: an open breaker whose timeout has
    /// passed since the last failure becomes half-open with its success count cleared.
    pub closed spec fn observed(self, now: u64) -> CircuitBreaker {
        if self.state == CircuitState::Open && elapsed_spec(now, self.last_failure_time)
            >= self.config.timeout_seconds {
            CircuitBreaker { state: CircuitState::HalfOpen, success_count: 0, ..self }
        } else {
            self
        }
    }

    /// The breaker after a success at time `now`.
    pub closed spec fn after_success(self, now: u64) -> CircuitBreaker {
        let counted = CircuitBreaker { success_count: bump(self.success_count), ..self };
        let seen = counted.observed(now);
        if seen.state == CircuitState::HalfOpen && seen.success_count
            >= self.config.success_threshold {
            CircuitBreaker {
                state: CircuitState::Closed,
                failure_count: 0,
                success_count: 0,
                ..seen
            }
        } else {
            seen
        }
    }

    /// The breaker after a failure at time `now`.
    pub closed spec fn after_failure(self, now: u64) -> CircuitBreaker {
        let failures = bump(self.failure_count);
        if failures >= self.config.failure_threshold {
            CircuitBreaker {
                failure_count: failures,
                last_failure_time: now,
                state: CircuitState::Open,
                ..self
            }
        } else {
            CircuitBreaker { failure_count: failures, last_failure_time: now, ..self }
        }
    }

    pub fn new(config: CircuitBreakerConfig) -> (b: Self)
        ensures
            b == CircuitBreaker::new_spec(config),
            b.config_spec() == config,
            b.state_spec() == CircuitState::Closed,
            b.failures() == 0,
            b.successes() == 0,
            b.last_failure() == 0,
    {
        CircuitBreaker {
            config,
            state: CircuitState::Closed,
            failure_count: 0,
            success_count: 0,
            last_failure_time: 0,
        }
    }

    /// The state at time `now` (an open breaker whose timeout has passed turns half-open).
    pub fn get_state_at(&mut self, now: u64) -> (s: CircuitState)
        ensures
            *final(self) == old(self).observed(now),
            s == final(self).state_spec(),
    {
        match self.state {
            CircuitState::Closed => CircuitState::Closed,
            CircuitState::Open => {
                if now.wrapping_sub(self.last_failure_time) >= self.config.timeout_seconds {
                    self.state = CircuitState::HalfOpen;
                    self.success_count = 0;
                    CircuitState::HalfOpen
                } else {
                    CircuitState::Open
                }
            },
            CircuitState::HalfOpen => CircuitState::HalfOpen,
        }
    }

    /// The state now, by the clock.
    pub fn get_state(&mut self) -> (s: CircuitState)
        ensures
            exists|now: u64| *final(self) == #[trigger] old(self).observed(now),
            s == final(self).state_spec(),
    {
        let now = now_secs();
        self.get_state_at(now)
    }

    pub fn record_success_at(&mut self, now: u64)
        ensures
            *final(self) == old(self).after_success(now),
    {
        self.success_count = self.success_count.wrapping_add(1);
        let state = self.get_state_at(now);
        if state == CircuitState::HalfOpen {
            let successes = self.success_count;
            if successes >= self.config.success_threshold as u64 {
                self.state = CircuitState::Closed;
                self.failure_count = 0;
                self.success_count = 0;
            }
        }
    }

    pub fn record_success(&mut self)
        ensures
            exists|now: u64| *final(self) == #[trigger] old(self).after_success(now),
    {
        let now = now_secs();
        self.record_success_at(now);
    }

    pub fn record_failure_at(&mut self, now: u64)
        ensures
            *final(self) == old(self).after_failure(now),
    {
        self.failure_count = self.failure_count.wrapping_add(1);
        self.last_failure_time = now;
        let failures = self.failure_count;
        if failures >= self.config.failure_threshold as u64 {
            self.state = CircuitState::Open;
        }
    }

    pub fn record_failure(&mut self)
        ensures
            exists|now: u64| *final(self) == #[trigger] old(self).after_failure(now),
    {
        let now = now_secs();
        self.record_failure_at(now);
    }

    pub fn is_open_at(&mut self, now: u64) -> (r: bool)
        ensures
            *final(self) == old(self).observed(now),
            r == (final(self).state_spec() == CircuitState::Open),
    {
        self.get_state_at(now) == CircuitState::Open
    }

    pub fn is_open(&mut self) -> (r: bool)
        ensures
            exists|now: u64| *final(self) == #[trigger] old(self).observed(now),
            r == (final(self).state_spec() == CircuitState::Open),
    {
        let now = now_secs();
        self.is_open_at(now)
    }

    /// Close the circuit and clear both counters.
    pub fn reset(&mut self)
        ensures
            final(self).state_spec() == CircuitState::Closed,
            final(self).failures() == 0,
            final(self).successes() == 0,
            final(self).last_failure() == old(self).last_failure(),
            final(self).config_spec() == old(self).config_spec(),
    {
        self.state = CircuitState::Closed;
        self.failure_count = 0;
        self.success_count = 0;
    }
}

/// Reading the state at `now` half-opens an open breaker whose timeout has passed since the
/// last failure, clearing its success count, and changes nothing else.
pub proof fn lemma_observed(b: CircuitBreaker, now: u64)
    ensures
        ({
            let due = b.state_spec() == CircuitState::Open && elapsed_spec(now, b.last_failure())
                >= b.config_spec().timeout_seconds;
            let o = b.observed(now);
            &&& o.state_spec() == (if due {
                CircuitState::HalfOpen
            } else {
                b.state_spec()
            })
            &&& o.successes() == (if due {
                0
            } else {
                b.successes()
            })
            &&& o.failures() == b.failures()
            &&& o.last_failure() == b.last_failure()
            &&& o.config_spec() == b.config_spec()
        }),
{
}

/// A failure at `now` counts one more failure (wrapping), records `now` as the last failure,
/// and opens the breaker once the count reaches the failure threshold; the success count and
/// the configuration stay.
pub proof fn lemma_after_failure(b: CircuitBreaker, now: u64)
    ensures
        ({
            let a = b.after_failure(now);
            &&& a.failures() == bump(b.failures())
            &&& a.last_failure() == now
            &&& a.state_spec() == (if bump(b.failures()) >= b.config_spec().failure_threshold {
                CircuitState::Open
            } else {
                b.state_spec()
            })
            &&& a.successes() == b.successes()
            &&& a.config_spec() == b.config_spec()
        }),
{
}

/// A success at `now` counts one more success (wrapping) and reads the state (see
/// `lemma_observed`); a half-open breaker whose success count then reaches the success
/// threshold closes, with both counts cleared.
pub proof fn lemma_after_success(b: CircuitBreaker, now: u64)
    ensures
        ({
            let due = b.state_spec() == CircuitState::Open && elapsed_spec(now, b.last_failure())
                >= b.config_spec().timeout_seconds;
            let seen_state = if due {
                CircuitState::HalfOpen
            } else {
                b.state_spec()
            };
            let seen_successes = if due {
                0
            } else {
                bump(b.successes())
            };
            let closes = seen_state == CircuitState::HalfOpen && seen_successes
                >= b.config_spec().success_threshold;
            let a = b.after_success(now);
            &&& a.state_spec() == (if closes {
                CircuitState::Closed
            } else {
                seen_state
            })
            &&& a.successes() == (if closes {
                0
            } else {
                seen_successes
            })
            &&& a.failures() == (if closes {
                0
            } else {
                b.failures()
            })
            &&& a.last_failure() == b.last_failure()
            &&& a.config_spec() == b.config_spec()
        }),
{
}

/// Starting from a closed breaker with no failures, `failure_threshold` failures in a row
/// (at any times, with a threshold of at least one) leave it open.
pub proof fn lemma_threshold_failures_open(b: CircuitBreaker, times: Seq<u64>)
    requires
        b.state_spec() == CircuitState::Closed,
        b.failures() == 0,
        b.config_spec().failure_threshold >= 1,
        times.len() == b.config_spec().failure_threshold,
    ensures
        apply_failures(b, times).state_spec() == CircuitState::Open,
        apply_failures(b, times).failures() == b.config_spec().failure_threshold,
{
    lemma_failures_count(b, times);
}

/// The breaker after failures at each of `times`, in order.
pub open spec fn apply_failures(b: CircuitBreaker, times: Seq<u64>) -> CircuitBreaker
    decreases times.len(),
{
    if times.len() == 0 {
        b
    } else {
        apply_failures(b, times.drop_last()).after_failure(times.last())
    }
}

proof fn lemma_failures_count(b: CircuitBreaker, times: Seq<u64>)
    requires
        b.failures() == 0,
        times.len() <= b.config_spec().failure_threshold,
    ensures
        apply_failures(b, times).failures() == times.len(),
        apply_failures(b, times).config_spec() == b.config_spec(),
        times.len() >= 1 && times.len() >= b.config_spec().failure_threshold ==> apply_failures(
            b,
            times,
        ).state_spec() == CircuitState::Open,
        times.len() < b.config_spec().failure_threshold ==> apply_failures(b, times).state_spec()
            == b.state_spec(),
    decreases times.len(),
{
    if times.len() > 0 {
        lemma_failures_count(b, times.drop_last());
    }
}

/// Errors from the emergency system.
#[derive(Debug, Clone, Copy, PartialEq, Eq, Structural)]
pub enum EmergencyError {
    AlreadyPaused,
    NotPaused,
    Paused,
    CircuitOpen,
}

/// Emergency pause functionality for circuit breaker and security.
pub struct EmergencySystem {
    paused: bool,
    pause_events: Vec<PauseEvent>,
    event_counter: u64,
    circuit_breaker: CircuitBreaker,
}

#[derive(Debug, Clone, Copy)]
pub struct EmergencyStatus {
    pub is_paused: bool,
    pub circuit_state: CircuitState,
    pub total_pause_events: usize,
    pub circuit_failure_count: u64,
    pub circuit_success_count: u64,
}

fn copy_event(e: &PauseEvent) -> (r: PauseEvent)
    ensures
        r == *e,
{
    PauseEvent {
        event_id: e.event_id,
        action: e.action,
        reason: e.reason.clone(),
        triggered_by: e.triggered_by.clone(),
        timestamp: e.timestamp,
        metadata: e.metadata.clone(),
    }
}

impl EmergencySystem {
    pub closed spec fn paused_spec(&self) -> bool {
        self.paused
    }

    /// The pause and unpause events, in order.
    pub closed spec fn events(&self) -> Seq<PauseEvent> {
        self.pause_events@
    }

    pub closed spec fn next_event_id(&self) -> u64 {
        self.event_counter
    }

    pub closed spec fn breaker(&self) -> CircuitBreaker {
        self.circuit_breaker
    }

    pub fn new(circuit_breaker_config: CircuitBreakerConfig) -> (s: Self)
        ensures
            !s.paused_spec(),
            s.events() == Seq::<PauseEvent>::empty(),
            s.next_event_id() == 0,
            s.breaker() == CircuitBreaker::new_spec(circuit_breaker_config),
    {
        EmergencySystem {
            paused: false,
            pause_events: Vec::new(),
            event_counter: 0,
            circuit_breaker: CircuitBreaker::new(circuit_breaker_config),
        }
    }

    /// Trigger an emergency pause; refused when already paused.
    pub fn pause(&mut self, reason: String, triggered_by: String) -> (r: Result<
        PauseEvent,
        EmergencyError,
    >)
        ensures
            old(self).paused_spec() ==> r == Err::<PauseEvent, EmergencyError>(
                EmergencyError::AlreadyPaused,
            ) && *final(self) == *old(self),
            !old(self).paused_spec() ==> (r matches Ok(e) && {
                &&& e.event_id == old(self).next_event_id()
                &&& e.action == PauseAction::Pause
                &&& e.reason == reason
                &&& e.triggered_by == triggered_by
                &&& e.metadata@ == Seq::<char>::empty()
                &&& final(self).paused_spec()
                &&& final(self).events() == old(self).events().push(e)
                &&& final(self).next_event_id() == bump(old(self).next_event_id())
                &&& final(self).breaker() == old(self).breaker()
            }),
    {
        if self.paused {
            return Err(EmergencyError::AlreadyPaused);
        }
        self.paused = true;
        let event_id = self.event_counter;
        self.event_counter = self.event_counter.wrapping_add(1);
        let event = PauseEvent {
            event_id,
            action: PauseAction::Pause,
            reason,
            triggered_by,
            timestamp: now_secs(),
            metadata: String::new(),
        };
        self.pause_events.push(copy_event(&event));
        Ok(event)
    }

    /// Resume from an emergency pause; refused when not paused.
    pub fn unpause(&mut self, triggered_by: String) -> (r: Result<PauseEvent, EmergencyError>)
        ensures
            !old(self).paused_spec() ==> r == Err::<PauseEvent, EmergencyError>(
                EmergencyError::NotPaused,
            ) && *final(self) == *old(self),
            old(self).paused_spec() ==> (r matches Ok(e) && {
                &&& e.event_id == old(self).next_event_id()
                &&& e.action == PauseAction::Unpause
                &&& e.reason@ == "Manual unpause"@
                &&& e.triggered_by == triggered_by
                &&& e.metadata@ == Seq::<char>::empty()
                &&& !final(self).paused_spec()
                &&& final(self).events() == old(self).events().push(e)
                &&& final(self).next_event_id() == bump(old(self).next_event_id())
                &&& final(self).breaker() == old(self).breaker()
            }),
    {
        if !self.paused {
            return Err(EmergencyError::NotPaused);
        }
        self.paused = false;
        let event_id = self.event_counter;
        self.event_counter = self.event_counter.wrapping_add(1);
        let event = PauseEvent {
            event_id,
            action: PauseAction::Unpause,
            reason: "Manual unpause".to_string(),
            triggered_by,
            timestamp: now_secs(),
            metadata: String::new(),
        };
        self.pause_events.push(copy_event(&event));
        Ok(event)
    }

    pub fn is_paused(&self) -> (r: bool)
        ensures
            r == self.paused_spec(),
    {
        self.paused
    }

    /// Whether an operation is allowed at time `now`: not while paused, and not while the
    /// circuit is open.
    pub fn is_operation_allowed_at(&mut self, now: u64) -> (r: Result<(), EmergencyError>)
        ensures
            old(self).paused_spec() ==> r == Err::<(), EmergencyError>(EmergencyError::Paused)
                && *final(self) == *old(self),
            !old(self).paused_spec() ==> {
                &&& final(self).breaker() == old(self).breaker().observed(now)
                &&& final(self).paused_spec() == old(self).paused_spec()
                &&& final(self).events() == old(self).events()
                &&& final(self).next_event_id() == old(self).next_event_id()
                &&& r == if final(self).breaker().state_spec() == CircuitState::Open {
                    Err::<(), EmergencyError>(EmergencyError::CircuitOpen)
                } else {
                    Ok::<(), EmergencyError>(())
                }
            },
    {
        if self.paused {
            return Err(EmergencyError::Paused);
        }
        if self.circuit_breaker.is_open_at(now) {
            return Err(EmergencyError::CircuitOpen);
        }
        Ok(())
    }

    /// Whether an operation is allowed now, by the clock.
    pub fn is_operation_allowed(&mut self) -> (r: Result<(), EmergencyError>)
        ensures
            old(self).paused_spec() ==> r == Err::<(), EmergencyError>(EmergencyError::Paused)
                && *final(self) == *old(self),
            !old(self).paused_spec() ==> exists|now: u64|
                #[trigger] old(self).breaker().observed(now) == final(self).breaker()
                    && r == if final(self).breaker().state_spec() == CircuitState::Open {
                    Err::<(), EmergencyError>(EmergencyError::CircuitOpen)
                } else {
                    Ok::<(), EmergencyError>(())
                },
            final(self).paused_spec() == old(self).paused_spec(),
            final(self).events() == old(self).events(),
            final(self).next_event_id() == old(self).next_event_id(),
    {
        let now = now_secs();
        self.is_operation_allowed_at(now)
    }

    pub fn get_circuit_state(&mut self) -> (s: CircuitState)
        ensures
            exists|now: u64| #[trigger] old(self).breaker().observed(now) == final(self).breaker(),
            s == final(self).breaker().state_spec(),
            final(self).paused_spec() == old(self).paused_spec(),
            final(self).events() == old(self).events(),
    {
        self.circuit_breaker.get_state()
    }

    pub fn record_success(&mut self)
        ensures
            exists|now: u64|
                #[trigger] old(self).breaker().after_success(now) == final(self).breaker(),
            final(self).paused_spec() == old(self).paused_spec(),
            final(self).events() == old(self).events(),
    {
        self.circuit_breaker.record_success();
    }

    pub fn record_failure(&mut self)
        ensures
            exists|now: u64|
                #[trigger] old(self).breaker().after_failure(now) == final(self).breaker(),
            final(self).paused_spec() == old(self).paused_spec(),
            final(self).events() == old(self).events(),
    {
        self.circuit_breaker.record_failure();
    }

    /// All pause and unpause events, in the order they happened.
    pub fn get_pause_events(&self) -> (r: Vec<PauseEvent>)
        ensures
            r@ == self.events(),
    {
        let mut r: Vec<PauseEvent> = Vec::new();
        let mut i: usize = 0;
        while i < self.pause_events.len()
            invariant
                0 <= i <= self.pause_events@.len(),
                r@ =~= self.pause_events@.subrange(0, i as int),
            decreases self.pause_events@.len() - i,
        {
            r.push(copy_event(&self.pause_events[i]));
            i = i + 1;
        }
        assert(r@ =~= self.pause_events@);
        r
    }

    /// The current status, reading the circuit state by the clock.
    pub fn get_status(&mut self) -> (st: EmergencyStatus)
        ensures
            exists|now: u64| #[trigger] old(self).breaker().observed(now) == final(self).breaker(),
            st.is_paused == old(self).paused_spec(),
            st.circuit_state == final(self).breaker().state_spec(),
            st.total_pause_events == old(self).events().len(),
            st.circuit_failure_count == final(self).breaker().failures(),
            st.circuit_success_count == final(self).breaker().successes(),
            final(self).paused_spec() == old(self).paused_spec(),
            final(self).events() == old(self).events(),
    {
        let circuit_state = self.get_circuit_state();
        EmergencyStatus {
            is_paused: self.paused,
            circuit_state,
            total_pause_events: self.pause_events.len(),
            circuit_failure_count: self.circuit_breaker.failure_count,
            circuit_success_count: self.circuit_breaker.success_count,
        }
    }
}

impl CircuitBreaker {
    /// A fresh breaker with `config`.
    pub closed spec fn new_spec(config: CircuitBreakerConfig) -> CircuitBreaker {
        CircuitBreaker {
            config,
            state: CircuitState::Closed,
            failure_count: 0,
            success_count: 0,
            last_failure_time: 0,
        }
    }
}

impl Default for EmergencySystem {
    /// Thresholds of ten failures and five successes, and a sixty-second timeout.
    fn default() -> (s: Self)
        ensures
            !s.paused_spec(),
            s.events() == Seq::<PauseEvent>::empty(),
            s.next_event_id() == 0,
            s.breaker() == CircuitBreaker::new_spec(
                CircuitBreakerConfig {
                    failure_threshold: 10,
                    success_threshold: 5,
                    timeout_seconds: 60,
                },
            ),
    {
        Self::new(
            CircuitBreakerConfig { failure_threshold: 10, success_threshold: 5, timeout_seconds: 60 },
        )
    }
}

} // verus!
