//! The mode-transition state machine: find the keyboard in normal mode, send
//! it into its ISP bootloader, wait out the re-enumeration, and resolve the
//! bootloader's channels, under a bounded number of attempts.
//!
//! The machine holds every decision; the surrounding program performs the
//! action the current phase asks for and hands the outcome back as an event.

use vstd::prelude::*;
use vstd::string::StringSliceAdditionalSpecFns;
use vstd::utf8::encode_utf8;

verus! {

/// Why a resolution ended without a session.
#[derive(Debug, Clone, Copy, PartialEq, Eq, Structural)]
pub enum ResolveFailure {
    /// Every attempt was used up without finding the bootloader.
    DeviceNotFound,
    /// Two collections claim the same bootloader role; no silent choice.
    DuplicateDevices,
}

/// Where one resolution stands.
#[derive(Debug, Clone, Copy, PartialEq, Eq, Structural)]
pub enum Phase {
    /// Looking for the keyboard under its normal-mode identity.
    SearchingNormal,
    /// Sending the enter-ISP command to the normal-mode device.
    EnteringIsp,
    /// Letting the device re-enumerate; there is no completion signal.
    AwaitingReenumeration,
    /// Looking for the bootloader under the shared bootloader identity.
    SearchingIsp,
    /// The bootloader's channels are resolved.
    Ready,
    Failed(ResolveFailure),
}

/// What the bootloader search returned.
#[derive(Debug, Clone, Copy, PartialEq, Eq, Structural)]
pub enum IspSearchOutcome {
    Found,
    Missing,
    Duplicate,
}

/// The outcome of the action the machine last asked for.
#[derive(Debug)]
pub enum ResolveEvent {
    /// Whether a normal-mode candidate was resolved.
    NormalSearch { found: bool },
    /// The transport outcome of sending the enter-ISP report; the device
    /// usually detaches mid-transaction, so a failure message is classified
    /// before it counts against the attempt.
    EnterIsp { error: Option<String> },
    /// The settle wait has elapsed.
    Settled,
    /// The outcome of resolving the bootloader's command channel.
    IspSearch { outcome: IspSearchOutcome },
}

/// What the surrounding program must do next.
#[derive(Debug, Clone, Copy, PartialEq, Eq, Structural)]
pub enum ResolveAction {
    /// Enumerate and resolve the keyboard's normal-mode command channel.
    FindNormal,
    /// Send the enter-ISP feature report to the resolved device.
    SendEnterIsp,
    /// Sleep the fixed re-enumeration settle interval.
    SettleWait,
    /// Enumerate and resolve the bootloader's channels.
    FindIsp,
    /// Nothing: the session is resolved.
    Done,
    /// Nothing: the resolution failed for good.
    GiveUp,
}

/// True when the haystack holds the needle as a contiguous run.
pub open spec fn bytes_contain(h: Seq<u8>, n: Seq<u8>) -> bool {
    exists|i: int| 0 <= i <= h.len() - n.len() && #[trigger] h.subrange(i, i + n.len()) == n
}

/// The fixed table of transport error messages that are expected while the
/// device detaches during the mode switch: each is benign when it appears in
/// the message, and any other transport error counts against the attempt.
pub open spec fn spec_is_expected_transport_error(m: Seq<char>) -> bool {
    ||| bytes_contain(encode_utf8(m), ("Input/output error").spec_bytes())
    ||| bytes_contain(encode_utf8(m), ("No such device").spec_bytes())
    ||| bytes_contain(encode_utf8(m), ("device is not connected").spec_bytes())
    ||| bytes_contain(encode_utf8(m), ("hid_error is not implemented yet").spec_bytes())
}

/// Substring search over bytes.
#[verifier::loop_isolation(false)]
fn bytes_contain_exec(h: &[u8], n: &[u8]) -> (r: bool)
    ensures
        r == bytes_contain(h@, n@),
{
    let hn = h.len();
    let nn = n.len();
    if nn > hn {
        proof {
            assert(h@.len() - n@.len() < 0);
            assert(!bytes_contain(h@, n@));
        }
        return false;
    }
    if nn == 0 {
        proof {
            assert(h@.subrange(0, 0 + n@.len() as int) =~= n@);
        }
        return true;
    }
    let mut i: usize = 0;
    while i <= hn - nn
        invariant
            i <= hn - nn + 1,
            0 < nn <= hn,
            hn == h@.len(),
            nn == n@.len(),
            forall|s: int| 0 <= s < i ==> #[trigger] h@.subrange(s, s + n@.len()) != n@,
        decreases hn - nn + 1 - i,
    {
        let mut t: usize = 0;
        let mut hit = true;
        while t < nn
            invariant
                t <= nn,
                i + nn <= hn,
                hit ==> forall|u: int| 0 <= u < t ==> h@[i + u] == n@[u],
                !hit ==> h@.subrange(i as int, i + n@.len()) != n@,
            decreases nn - t,
        {
            if h[i + t] != n[t] {
                proof {
                    assert(h@.subrange(i as int, i + n@.len())[t as int] == h@[i + t]);
                }
                hit = false;
                t = nn;
            } else {
                t = t + 1;
            }
        }
        if hit {
            proof {
                assert(h@.subrange(i as int, i + n@.len()) =~= n@);
            }
            return true;
        }
        i = i + 1;
    }
    false
}

/// Classifies a transport error message from the enter-ISP command: true
/// exactly for the fixed table of expected detach messages.
pub fn is_expected_transport_error(msg: &str) -> (r: bool)
    ensures
        r == spec_is_expected_transport_error(msg@),
{
    let m = msg.as_bytes();
    bytes_contain_exec(m, "Input/output error".as_bytes()) || bytes_contain_exec(
        m,
        "No such device".as_bytes(),
    ) || bytes_contain_exec(m, "device is not connected".as_bytes()) || bytes_contain_exec(
        m,
        "hid_error is not implemented yet".as_bytes(),
    )
}

/// One resolution in progress: its retry budget, the attempt at hand
/// (counted from one), and its phase.
#[derive(Debug, Clone, Copy, PartialEq, Eq, Structural)]
pub struct ModeTransition {
    pub retry: usize,
    pub attempt: usize,
    pub phase: Phase,
}

/// The machine a fresh resolution starts with: the first attempt begins at
/// the normal-mode search, and a zero retry budget fails at once.
pub open spec fn spec_new_resolution(retry: usize) -> ModeTransition {
    if retry == 0 {
        ModeTransition { retry, attempt: 0, phase: Phase::Failed(ResolveFailure::DeviceNotFound) }
    } else {
        ModeTransition { retry, attempt: 1, phase: Phase::SearchingNormal }
    }
}

/// The machine after the attempt at hand has failed: the next attempt starts
/// over from the normal-mode search, and the last one ends the resolution.
pub open spec fn spec_attempt_failed(m: ModeTransition) -> ModeTransition {
    if m.attempt >= m.retry {
        ModeTransition { phase: Phase::Failed(ResolveFailure::DeviceNotFound), ..m }
    } else {
        ModeTransition {
            attempt: (m.attempt + 1) as usize,
            phase: Phase::SearchingNormal,
            ..m
        }
    }
}

/// The transition table.  An event that does not belong to the phase at hand
/// changes nothing; `Ready` and `Failed` are final.
pub open spec fn spec_step(m: ModeTransition, e: ResolveEvent) -> ModeTransition {
    match m.phase {
        Phase::SearchingNormal => match e {
            ResolveEvent::NormalSearch { found } => {
                if found {
                    ModeTransition { phase: Phase::EnteringIsp, ..m }
                } else {
                    // the device may already sit in ISP mode
                    ModeTransition { phase: Phase::SearchingIsp, ..m }
                }
            },
            _ => m,
        },
        Phase::EnteringIsp => match e {
            ResolveEvent::EnterIsp { error } => match error {
                None => ModeTransition { phase: Phase::AwaitingReenumeration, ..m },
                Some(msg) => {
                    if spec_is_expected_transport_error(msg@) {
                        ModeTransition { phase: Phase::AwaitingReenumeration, ..m }
                    } else {
                        spec_attempt_failed(m)
                    }
                },
            },
            _ => m,
        },
        Phase::AwaitingReenumeration => match e {
            ResolveEvent::Settled => ModeTransition { phase: Phase::SearchingIsp, ..m },
            _ => m,
        },
        Phase::SearchingIsp => match e {
            ResolveEvent::IspSearch { outcome } => match outcome {
                IspSearchOutcome::Found => ModeTransition { phase: Phase::Ready, ..m },
                IspSearchOutcome::Duplicate => ModeTransition {
                    phase: Phase::Failed(ResolveFailure::DuplicateDevices),
                    ..m
                },
                IspSearchOutcome::Missing => spec_attempt_failed(m),
            },
            _ => m,
        },
        Phase::Ready => m,
        Phase::Failed(_) => m,
    }
}

impl ModeTransition {
    /// Starts a resolution with the given retry budget.
    pub fn new(retry: usize) -> (m: ModeTransition)
        ensures
            m == spec_new_resolution(retry),
    {
        if retry == 0 {
            ModeTransition {
                retry,
                attempt: 0,
                phase: Phase::Failed(ResolveFailure::DeviceNotFound),
            }
        } else {
            ModeTransition { retry, attempt: 1, phase: Phase::SearchingNormal }
        }
    }

    /// The action the phase at hand asks for.
    pub fn action(&self) -> (a: ResolveAction)
        ensures
            a == (match self.phase {
                Phase::SearchingNormal => ResolveAction::FindNormal,
                Phase::EnteringIsp => ResolveAction::SendEnterIsp,
                Phase::AwaitingReenumeration => ResolveAction::SettleWait,
                Phase::SearchingIsp => ResolveAction::FindIsp,
                Phase::Ready => ResolveAction::Done,
                Phase::Failed(_) => ResolveAction::GiveUp,
            }),
    {
        match self.phase {
            Phase::SearchingNormal => ResolveAction::FindNormal,
            Phase::EnteringIsp => ResolveAction::SendEnterIsp,
            Phase::AwaitingReenumeration => ResolveAction::SettleWait,
            Phase::SearchingIsp => ResolveAction::FindIsp,
            Phase::Ready => ResolveAction::Done,
            Phase::Failed(_) => ResolveAction::GiveUp,
        }
    }

    /// Feeds the outcome of the last action into the machine.
    pub fn step(&mut self, event: &ResolveEvent)
        ensures
            *final(self) == spec_step(*old(self), *event),
    {
        match self.phase {
            Phase::SearchingNormal => match event {
                ResolveEvent::NormalSearch { found } => {
                    if *found {
                        self.phase = Phase::EnteringIsp;
                    } else {
                        self.phase = Phase::SearchingIsp;
                    }
                },
                _ => {},
            },
            Phase::EnteringIsp => match event {
                ResolveEvent::EnterIsp { error } => match error {
                    None => {
                        self.phase = Phase::AwaitingReenumeration;
                    },
                    Some(msg) => {
                        if is_expected_transport_error(msg.as_str()) {
                            self.phase = Phase::AwaitingReenumeration;
                        } else {
                            self.fail_attempt();
                        }
                    },
                },
                _ => {},
            },
            Phase::AwaitingReenumeration => match event {
                ResolveEvent::Settled => {
                    self.phase = Phase::SearchingIsp;
                },
                _ => {},
            },
            Phase::SearchingIsp => match event {
                ResolveEvent::IspSearch { outcome } => match outcome {
                    IspSearchOutcome::Found => {
                        self.phase = Phase::Ready;
                    },
                    IspSearchOutcome::Duplicate => {
                        self.phase = Phase::Failed(ResolveFailure::DuplicateDevices);
                    },
                    IspSearchOutcome::Missing => {
                        self.fail_attempt();
                    },
                },
                _ => {},
            },
            Phase::Ready => {},
            Phase::Failed(_) => {},
        }
    }

    /// Ends the attempt at hand as a failure.
    fn fail_attempt(&mut self)
        ensures
            *final(self) == spec_attempt_failed(*old(self)),
    {
        if self.attempt >= self.retry {
            self.phase = Phase::Failed(ResolveFailure::DeviceNotFound);
        } else {
            self.attempt = self.attempt + 1;
            self.phase = Phase::SearchingNormal;
        }
    }
}

/// The machine run over a sequence of events.
pub open spec fn spec_run(m: ModeTransition, es: Seq<ResolveEvent>) -> ModeTransition
    decreases es.len(),
{
    if es.len() == 0 {
        m
    } else {
        spec_run(spec_step(m, es[0]), es.drop_first())
    }
}

proof fn lemma_run_append(m: ModeTransition, a: Seq<ResolveEvent>, b: Seq<ResolveEvent>)
    ensures
        spec_run(m, a + b) == spec_run(spec_run(m, a), b),
    decreases a.len(),
{
    if a.len() == 0 {
        assert(a + b =~= b);
    } else {
        assert((a + b)[0] == a[0]);
        assert((a + b).drop_first() =~= a.drop_first() + b);
        lemma_run_append(spec_step(m, a[0]), a.drop_first(), b);
    }
}

/// The two events of one attempt against absent hardware: no normal-mode
/// device, and no bootloader either.
pub open spec fn no_hardware_attempt() -> Seq<ResolveEvent> {
    seq![
        ResolveEvent::NormalSearch { found: false },
        ResolveEvent::IspSearch { outcome: IspSearchOutcome::Missing },
    ]
}

/// `k` such attempts in a row.
pub open spec fn no_hardware_events(k: nat) -> Seq<ResolveEvent>
    decreases k,
{
    if k == 0 {
        seq![]
    } else {
        no_hardware_attempt() + no_hardware_events((k - 1) as nat)
    }
}

proof fn lemma_no_hardware_attempt_step(m: ModeTransition)
    requires
        m.phase == Phase::SearchingNormal || m.phase is Failed,
    ensures
        m.phase == Phase::SearchingNormal ==> spec_run(m, no_hardware_attempt())
            == spec_attempt_failed(m),
        m.phase is Failed ==> spec_run(m, no_hardware_attempt()) == m,
{
    let e0 = ResolveEvent::NormalSearch { found: false };
    let e1 = ResolveEvent::IspSearch { outcome: IspSearchOutcome::Missing };
    assert(no_hardware_attempt()[0] == e0);
    assert(no_hardware_attempt().drop_first() =~= seq![e1]);
    let m1 = spec_step(m, e0);
    assert(spec_run(m, no_hardware_attempt()) == spec_run(m1, seq![e1]));
    assert(seq![e1][0] == e1);
    assert(seq![e1].drop_first() =~= Seq::<ResolveEvent>::empty());
    let m2 = spec_step(m1, e1);
    assert(spec_run(m1, seq![e1]) == spec_run(m2, Seq::<ResolveEvent>::empty()));
    assert(spec_run(m2, Seq::<ResolveEvent>::empty()) == m2);
}

proof fn lemma_no_hardware_partial(retry: usize, k: nat)
    requires
        1 <= retry,
        k <= retry - 1,
    ensures
        spec_run(spec_new_resolution(retry), no_hardware_events(k)) == (ModeTransition {
            retry,
            attempt: (k + 1) as usize,
            phase: Phase::SearchingNormal,
        }),
    decreases k,
{
    if k == 0 {
        assert(no_hardware_events(0) =~= Seq::<ResolveEvent>::empty());
    } else {
        lemma_no_hardware_partial(retry, (k - 1) as nat);
        let before = ModeTransition { retry, attempt: k as usize, phase: Phase::SearchingNormal };
        assert(no_hardware_events(k) =~= no_hardware_events((k - 1) as nat)
            + no_hardware_attempt()) by {
            lemma_no_hardware_events_snoc(k);
        }
        lemma_run_append(
            spec_new_resolution(retry),
            no_hardware_events((k - 1) as nat),
            no_hardware_attempt(),
        );
        lemma_no_hardware_attempt_step(before);
    }
}

proof fn lemma_no_hardware_events_snoc(k: nat)
    requires
        k >= 1,
    ensures
        no_hardware_events(k) =~= no_hardware_events((k - 1) as nat) + no_hardware_attempt(),
    decreases k,
{
    if k == 1 {
        assert(no_hardware_events(1) =~= no_hardware_attempt() + no_hardware_events(0));
        assert(no_hardware_events(0) =~= Seq::<ResolveEvent>::empty());
    } else {
        lemma_no_hardware_events_snoc((k - 1) as nat);
    }
}

/// Against absent hardware, the resolution runs exactly `retry` attempts and
/// then fails with `DeviceNotFound`: after any shorter run the machine is
/// still searching, and after the last attempt it is failed for good.
pub proof fn lemma_retry_exhaustion(retry: usize, k: nat)
    requires
        1 <= retry,
    ensures
        k < retry ==> spec_run(spec_new_resolution(retry), no_hardware_events(k)).phase
            == Phase::SearchingNormal,
        k < retry ==> spec_run(spec_new_resolution(retry), no_hardware_events(k)).attempt == k + 1,
        k >= retry ==> spec_run(spec_new_resolution(retry), no_hardware_events(k)).phase
            == Phase::Failed(ResolveFailure::DeviceNotFound),
        k >= retry ==> spec_run(spec_new_resolution(retry), no_hardware_events(k)).attempt
            == retry,
    decreases k,
{
    if k < retry {
        lemma_no_hardware_partial(retry, k);
    } else if k == retry {
        lemma_no_hardware_partial(retry, (retry - 1) as nat);
        let before = ModeTransition { retry, attempt: retry, phase: Phase::SearchingNormal };
        lemma_no_hardware_events_snoc(k);
        lemma_run_append(
            spec_new_resolution(retry),
            no_hardware_events((k - 1) as nat),
            no_hardware_attempt(),
        );
        lemma_no_hardware_attempt_step(before);
    } else {
        lemma_retry_exhaustion(retry, (k - 1) as nat);
        lemma_no_hardware_events_snoc(k);
        lemma_run_append(
            spec_new_resolution(retry),
            no_hardware_events((k - 1) as nat),
            no_hardware_attempt(),
        );
        let m = spec_run(spec_new_resolution(retry), no_hardware_events((k - 1) as nat));
        lemma_no_hardware_attempt_step(m);
    }
}

} // verus!
