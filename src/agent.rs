//! The agent's side of the tunnel: the reconnection state machine with its
//! capped exponential backoff, and what to do with each frame from the hub.

use vstd::prelude::*;
use crate::protocol::{command_id, decode_command, is_command, Frame};

verus! {

/// How long to wait between connection attempts, in milliseconds: `base_ms`
/// after the first failure, doubling with each further one, never more than
/// `ceiling_ms`. Each wait is stretched by `jitter_eighths` eighths of itself
/// (again within the ceiling). An agent draws that spread once, so agents
/// that lost the hub together do not retry in step, while each agent's own
/// waits still never shrink.
#[derive(Clone, Copy)]
pub struct Backoff {
    pub base_ms: u64,
    pub ceiling_ms: u64,
    pub jitter_eighths: u64,
}

pub open spec fn pow2(k: nat) -> nat
    decreases k,
{
    if k == 0 {
        1
    } else {
        2 * pow2((k - 1) as nat)
    }
}

pub open spec fn min_nat(a: nat, b: nat) -> nat {
    if a <= b {
        a
    } else {
        b
    }
}

/// The doubled wait after `retries` failed attempts in a row (at least
/// one), before the spread.
pub open spec fn capped_delay(p: Backoff, retries: nat) -> nat {
    min_nat((p.base_ms * pow2((retries - 1) as nat)) as nat, p.ceiling_ms as nat)
}

/// A wait stretched by the policy's spread.
pub open spec fn spread(p: Backoff, d: nat) -> nat {
    d + (d / 8) * (p.jitter_eighths as nat)
}

/// The wait after `retries` failed attempts in a row (at least one).
pub open spec fn backoff_delay(p: Backoff, retries: nat) -> nat {
    min_nat(spread(p, capped_delay(p, retries)), p.ceiling_ms as nat)
}

proof fn lemma_pow2_monotone(a: nat, b: nat)
    requires
        a <= b,
    ensures
        pow2(a) <= pow2(b),
        pow2(a) >= 1,
    decreases b,
{
    if a < b {
        lemma_pow2_monotone(a, (b - 1) as nat);
    } else if a > 0 {
        lemma_pow2_monotone((a - 1) as nat, (a - 1) as nat);
    }
}

proof fn lemma_capped_reaches_ceiling(p: Backoff, m: nat, n: nat)
    requires
        1 <= m <= n,
        capped_delay(p, m) == p.ceiling_ms,
    ensures
        capped_delay(p, n) == p.ceiling_ms,
{
    lemma_pow2_monotone((m - 1) as nat, (n - 1) as nat);
    let a = pow2((m - 1) as nat);
    let b = pow2((n - 1) as nat);
    assert(p.base_ms * a <= p.base_ms * b) by (nonlinear_arith)
        requires
            a <= b,
    ;
}

/// The wait never shrinks as failures pile up, and never passes the ceiling.
pub proof fn lemma_backoff_monotone(p: Backoff, m: nat, n: nat)
    requires
        1 <= m <= n,
    ensures
        backoff_delay(p, m) <= backoff_delay(p, n),
        backoff_delay(p, n) <= p.ceiling_ms,
{
    lemma_pow2_monotone((m - 1) as nat, (n - 1) as nat);
    let a = pow2((m - 1) as nat);
    let b = pow2((n - 1) as nat);
    assert(p.base_ms * a <= p.base_ms * b) by (nonlinear_arith)
        requires
            a <= b,
    ;
    let x = capped_delay(p, m);
    let y = capped_delay(p, n);
    assert(x <= y);
    vstd::arithmetic::div_mod::lemma_div_is_ordered(x as int, y as int, 8);
    let j = p.jitter_eighths as nat;
    assert((x / 8) * j <= (y / 8) * j) by (nonlinear_arith)
        requires
            x / 8 <= y / 8,
    ;
}

impl Backoff {
    /// The wait after `retries` failed attempts in a row.
    pub fn delay(&self, retries: u32) -> (r: u64)
        requires
            retries >= 1,
        ensures
            r == backoff_delay(*self, retries as nat),
    {
        let d = self.capped(retries);
        let eighth: u128 = (d / 8) as u128;
        let j: u128 = self.jitter_eighths as u128;
        assert(eighth * j <= u64::MAX * u64::MAX) by (nonlinear_arith)
            requires
                eighth <= u64::MAX,
                j <= u64::MAX,
        ;
        let extra: u128 = eighth * j;
        let total: u128 = d as u128 + extra;
        if total < self.ceiling_ms as u128 {
            total as u64
        } else {
            self.ceiling_ms
        }
    }

    fn capped(&self, retries: u32) -> (r: u64)
        requires
            retries >= 1,
        ensures
            r == capped_delay(*self, retries as nat),
    {
        let mut d: u64 = if self.base_ms <= self.ceiling_ms {
            self.base_ms
        } else {
            self.ceiling_ms
        };
        let mut i: u32 = 1;
        assert(pow2(0) == 1);
        assert(self.base_ms * pow2(0) == self.base_ms);
        while i < retries && d < self.ceiling_ms
            invariant
                1 <= i <= retries,
                d == capped_delay(*self, i as nat),
            decreases retries - i,
        {
            let ghost prev = self.base_ms * pow2((i - 1) as nat);
            assert(self.base_ms * pow2(i as nat) == 2 * prev) by (nonlinear_arith)
                requires
                    pow2(i as nat) == 2 * pow2((i - 1) as nat),
                    prev == self.base_ms * pow2((i - 1) as nat),
            ;
            if d > self.ceiling_ms - d {
                d = self.ceiling_ms;
            } else {
                d = 2 * d;
            }
            i = i + 1;
        }
        if i < retries {
            proof {
                lemma_capped_reaches_ceiling(*self, i as nat, retries as nat);
            }
        }
        d
    }
}

/// Where the agent's loop stands.
#[derive(Clone, Copy, PartialEq, Eq, Structural)]
pub enum Phase {
    /// An attempt to open the tunnel is under way.
    Connecting,
    /// The tunnel is open and its reader runs.
    Connected,
    /// Waiting before the next attempt.
    BackingOff,
    /// Shut down; nothing more happens.
    Stopped,
}

/// What happened since the last step.
#[derive(Clone, Copy, PartialEq, Eq, Structural)]
pub enum AgentEvent {
    ConnectSucceeded,
    ConnectFailed,
    ConnectionClosed,
    BackoffElapsed,
    StopRequested,
}

/// What the agent does next.
#[derive(Clone, Copy, PartialEq, Eq, Structural)]
pub enum AgentAction {
    /// Try to open the tunnel.
    Connect,
    /// Run the reader on the open tunnel until it closes.
    Serve,
    /// Sleep this many milliseconds, waking early on shutdown.
    Sleep(u64),
    /// Leave the loop.
    Exit,
    /// The event does not apply in this phase: carry on as before.
    Continue,
}

/// The agent's reconnection loop.
#[derive(Clone, Copy)]
pub struct AgentLoop {
    pub policy: Backoff,
    pub phase: Phase,
    /// Failed attempts since the tunnel was last open.
    pub retries: u32,
}

/// One step of the loop: the next state and the action it takes.
pub open spec fn agent_step(s: AgentLoop, e: AgentEvent) -> (AgentLoop, AgentAction) {
    if s.phase == Phase::Stopped || e == AgentEvent::StopRequested {
        (AgentLoop { phase: Phase::Stopped, ..s }, AgentAction::Exit)
    } else if s.phase == Phase::Connecting && e == AgentEvent::ConnectSucceeded {
        (AgentLoop { phase: Phase::Connected, retries: 0, ..s }, AgentAction::Serve)
    } else if (s.phase == Phase::Connecting && e == AgentEvent::ConnectFailed) || (s.phase
        == Phase::Connected && e == AgentEvent::ConnectionClosed) {
        let n: u32 = if s.retries < u32::MAX {
            (s.retries + 1) as u32
        } else {
            s.retries
        };
        (
            AgentLoop { phase: Phase::BackingOff, retries: n, ..s },
            AgentAction::Sleep(backoff_delay(s.policy, n as nat) as u64),
        )
    } else if s.phase == Phase::BackingOff && e == AgentEvent::BackoffElapsed {
        (AgentLoop { phase: Phase::Connecting, ..s }, AgentAction::Connect)
    } else {
        (s, AgentAction::Continue)
    }
}

impl AgentLoop {
    /// A loop about to make its first attempt: its first action is `Connect`.
    pub fn new(policy: Backoff) -> (r: AgentLoop)
        ensures
            r.policy == policy,
            r.phase == Phase::Connecting,
            r.retries == 0,
    {
        AgentLoop { policy, phase: Phase::Connecting, retries: 0 }
    }

    /// Takes event `e` and returns what to do next.
    pub fn step(&mut self, e: AgentEvent) -> (r: AgentAction)
        ensures
            (*final(self), r) == agent_step(*old(self), e),
    {
        if self.phase == Phase::Stopped || e == AgentEvent::StopRequested {
            self.phase = Phase::Stopped;
            AgentAction::Exit
        } else if self.phase == Phase::Connecting && e == AgentEvent::ConnectSucceeded {
            self.phase = Phase::Connected;
            self.retries = 0;
            AgentAction::Serve
        } else if (self.phase == Phase::Connecting && e == AgentEvent::ConnectFailed) || (
        self.phase == Phase::Connected && e == AgentEvent::ConnectionClosed) {
            if self.retries < u32::MAX {
                self.retries = self.retries + 1;
            }
            self.phase = Phase::BackingOff;
            let d = self.policy.delay(self.retries);
            AgentAction::Sleep(d)
        } else if self.phase == Phase::BackingOff && e == AgentEvent::BackoffElapsed {
            self.phase = Phase::Connecting;
            AgentAction::Connect
        } else {
            AgentAction::Continue
        }
    }
}

/// The wait that an action asks for; zero for any other action.
pub open spec fn sleep_ms(a: AgentAction) -> u64 {
    match a {
        AgentAction::Sleep(d) => d,
        _ => 0,
    }
}

/// The loop after an attempt fails and the backoff that follows runs out.
pub open spec fn fail_and_wait(s: AgentLoop) -> AgentLoop {
    agent_step(agent_step(s, AgentEvent::ConnectFailed).0, AgentEvent::BackoffElapsed).0
}

/// The wait that a failed attempt from `s` asks for.
pub open spec fn failure_delay(s: AgentLoop) -> u64 {
    sleep_ms(agent_step(s, AgentEvent::ConnectFailed).1)
}

/// Three failed attempts in a row ask for waits that never shrink and never
/// pass the ceiling; a fourth attempt that succeeds clears the count, so the
/// wait after that tunnel closes is back to the first one: the base (or the
/// ceiling, if that is lower), stretched by the spread.
pub proof fn lemma_backoff_sequence(s: AgentLoop)
    requires
        s.phase == Phase::Connecting,
        s.retries <= u32::MAX - 3,
    ensures
        agent_step(s, AgentEvent::ConnectFailed).1 is Sleep,
        agent_step(fail_and_wait(s), AgentEvent::ConnectFailed).1 is Sleep,
        agent_step(fail_and_wait(fail_and_wait(s)), AgentEvent::ConnectFailed).1 is Sleep,
        failure_delay(s) <= failure_delay(fail_and_wait(s)),
        failure_delay(fail_and_wait(s)) <= failure_delay(fail_and_wait(fail_and_wait(s))),
        failure_delay(fail_and_wait(fail_and_wait(s))) <= s.policy.ceiling_ms,
        fail_and_wait(fail_and_wait(fail_and_wait(s))).phase == Phase::Connecting,
        agent_step(fail_and_wait(fail_and_wait(fail_and_wait(s))), AgentEvent::ConnectSucceeded)
            == (AgentLoop { phase: Phase::Connected, retries: 0, policy: s.policy }, AgentAction::Serve),
        agent_step(
            AgentLoop { phase: Phase::Connected, retries: 0, policy: s.policy },
            AgentEvent::ConnectionClosed,
        ).1 == AgentAction::Sleep(backoff_delay(s.policy, 1) as u64),
        capped_delay(s.policy, 1) == if s.policy.base_ms <= s.policy.ceiling_ms {
            s.policy.base_ms
        } else {
            s.policy.ceiling_ms
        },
{
    let r = s.retries as nat;
    lemma_backoff_monotone(s.policy, r + 1, r + 2);
    lemma_backoff_monotone(s.policy, r + 2, r + 3);
    lemma_backoff_monotone(s.policy, r + 1, r + 1);
    lemma_backoff_monotone(s.policy, 1, 1);
    assert(pow2(0) == 1);
    assert(s.policy.base_ms * pow2(0) == s.policy.base_ms);
}

/// What the agent does with one frame from the hub.
pub enum FrameAction {
    /// Produce an answer and post it back under this correlation id.
    Answer(String),
    /// A text frame that is not a command; the connection goes on.
    Malformed,
    /// Nothing to do.
    Ignore,
    /// The hub closed the tunnel.
    Disconnect,
}

/// Decides what to do with `frame`.
pub fn agent_frame_action(frame: &Frame) -> (r: FrameAction)
    ensures
        match frame {
            Frame::Text(t) => if is_command(t@) {
                r matches FrameAction::Answer(id) && id@ == command_id(t@)
            } else {
                r is Malformed
            },
            Frame::Close => r is Disconnect,
            _ => r is Ignore,
        },
{
    match frame {
        Frame::Text(t) => match decode_command(t.as_str()) {
            Some(id) => FrameAction::Answer(id),
            None => FrameAction::Malformed,
        },
        Frame::Close => FrameAction::Disconnect,
        _ => FrameAction::Ignore,
    }
}

/// The callback address for correlation id `id` under `base`: `base/id`.
pub fn callback_url(base: &str, id: &str) -> (r: String)
    ensures
        r@ == base@ + seq!['/'] + id@,
{
    proof {
        reveal_strlit("/");
    }
    let mut r = String::from_str(base);
    r.append("/");
    r.append(id);
    r
}

} // verus!
