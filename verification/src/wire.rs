//! What the manager and the engine say to each other, and how a message is framed.
//!
//! The manager sends directives, the engine answers each with a response and reports its state
//! in heartbeats. On a stream every message is its length, four bytes with the most significant
//! first, and then that many bytes of payload.

use crate::float::F32;
use vstd::prelude::*;

verus! {

/// One order to the engine.
#[derive(Debug, Clone, Copy)]
pub enum EngineCommand {
    /// Keep this fraction of the uncompressed bytes of the KV cache.
    KvCompress { budget: F32 },
    /// Release what was applied.
    RestoreDefaults,
    Suspend,
    Resume,
}

impl EngineCommand {
    /// Equality of commands: budgets compare as numbers.
    pub open spec fn spec_same(self, other: EngineCommand) -> bool {
        match (self, other) {
            (
                EngineCommand::KvCompress { budget: a },
                EngineCommand::KvCompress { budget: b },
            ) => a.same(b),
            (EngineCommand::RestoreDefaults, EngineCommand::RestoreDefaults) => true,
            (EngineCommand::Suspend, EngineCommand::Suspend) => true,
            (EngineCommand::Resume, EngineCommand::Resume) => true,
            _ => false,
        }
    }

    #[verifier::when_used_as_spec(spec_same)]
    pub fn same(self, other: EngineCommand) -> (r: bool)
        ensures
            r == self.same(other),
    {
        match (self, other) {
            (
                EngineCommand::KvCompress { budget: a },
                EngineCommand::KvCompress { budget: b },
            ) => a.same(b),
            (EngineCommand::RestoreDefaults, EngineCommand::RestoreDefaults) => true,
            (EngineCommand::Suspend, EngineCommand::Suspend) => true,
            (EngineCommand::Resume, EngineCommand::Resume) => true,
            _ => false,
        }
    }
}

impl PartialEq for EngineCommand {
    fn eq(&self, other: &EngineCommand) -> (r: bool) {
        self.same(*other)
    }
}

impl vstd::std_specs::cmp::PartialEqSpecImpl for EngineCommand {
    open spec fn obeys_eq_spec() -> bool {
        true
    }

    open spec fn eq_spec(&self, other: &EngineCommand) -> bool {
        self.same(*other)
    }
}

/// Equality of command lists.
pub open spec fn same_commands(a: Seq<EngineCommand>, b: Seq<EngineCommand>) -> bool {
    a.len() == b.len() && forall|i: int| 0 <= i < a.len() ==> (#[trigger] a[i]).same(b[i])
}

pub fn commands_equal(a: &Vec<EngineCommand>, b: &Vec<EngineCommand>) -> (r: bool)
    ensures
        r == same_commands(a@, b@),
{
    if a.len() != b.len() {
        return false;
    }
    let mut i: usize = 0;
    while i < a.len()
        invariant
            i <= a.len(),
            a.len() == b.len(),
            forall|j: int| 0 <= j < i ==> (#[trigger] a@[j]).same(b@[j]),
        decreases a.len() - i,
    {
        if !a[i].same(b[i]) {
            return false;
        }
        i = i + 1;
    }
    true
}

/// A copy of a command list.
pub fn copy_commands(a: &Vec<EngineCommand>) -> (r: Vec<EngineCommand>)
    ensures
        r@ == a@,
{
    let mut r: Vec<EngineCommand> = Vec::new();
    let mut i: usize = 0;
    while i < a.len()
        invariant
            i <= a.len(),
            r@ == a@.take(i as int),
        decreases a.len() - i,
    {
        proof {
            assert(a@.take(i as int).push(a@[i as int]) == a@.take(i as int + 1));
        }
        r.push(a[i]);
        i = i + 1;
    }
    proof {
        assert(a@.take(i as int) == a@);
    }
    r
}

/// Commands that belong together, under a number by which the engine answers them.
#[derive(Debug, Clone, PartialEq)]
pub struct EngineDirective {
    pub seq_id: u64,
    pub commands: Vec<EngineCommand>,
}

/// What the manager sends.
#[derive(Debug, Clone, PartialEq)]
pub enum ManagerMessage {
    Directive(EngineDirective),
}

/// What the engine is working on.
#[derive(Debug, Clone, Copy, PartialEq, Eq, Structural)]
pub enum Phase {
    Idle,
    Prefill,
    Decode,
}

/// Whether the engine runs.
#[derive(Debug, Clone, Copy, PartialEq, Eq, Structural)]
pub enum EngineState {
    Idle,
    Running,
    Suspended,
}

/// A heartbeat.
#[derive(Debug, Clone, Copy, PartialEq)]
pub struct EngineStatus {
    /// Bytes of KV cache that are resident.
    pub kv_cache_bytes: u64,
    /// Bytes that the cache takes uncompressed; a budget is a fraction of these.
    pub kv_cache_budget_bytes: u64,
    pub kv_cache_tokens: u64,
    /// Milliseconds between two tokens.
    pub tbt_ms: F32,
    pub phase: Phase,
    pub state: EngineState,
}

/// What became of one command.
#[derive(Debug, Clone, PartialEq)]
pub enum CommandResult {
    Applied,
    Partial { achieved: F32, reason: String },
    Rejected { reason: String },
}

/// The engine's answer to a directive: one result for each of its commands.
#[derive(Debug, Clone, PartialEq)]
pub struct CommandResponse {
    pub seq_id: u64,
    pub results: Vec<CommandResult>,
}

/// What the engine sends.
#[derive(Debug, Clone, PartialEq)]
pub enum EngineMessage {
    Heartbeat(EngineStatus),
    Response(CommandResponse),
}

/// A length as four bytes, the most significant first; what four bytes cannot hold is cut off.
pub open spec fn length_prefix(n: nat) -> Seq<u8> {
    seq![
        (n / 0x100_0000 % 0x100) as u8,
        (n / 0x1_0000 % 0x100) as u8,
        (n / 0x100 % 0x100) as u8,
        (n % 0x100) as u8,
    ]
}

/// The length that four bytes stand for.
pub open spec fn prefixed_length(b: Seq<u8>) -> nat {
    (b[0] * 0x100_0000 + b[1] * 0x1_0000 + b[2] * 0x100 + b[3]) as nat
}

/// A framed payload: its length and then its bytes.
pub fn frame(payload: &[u8]) -> (r: Vec<u8>)
    ensures
        r@ == length_prefix(payload@.len()) + payload@,
{
    let n: usize = payload.len();
    let mut r: Vec<u8> = Vec::new();
    r.push((n / 0x100_0000 % 0x100) as u8);
    r.push((n / 0x1_0000 % 0x100) as u8);
    r.push((n / 0x100 % 0x100) as u8);
    r.push((n % 0x100) as u8);
    let ghost prefix = length_prefix(payload@.len());
    proof {
        assert(r@ =~= prefix);
        assert(payload@.take(0) == Seq::<u8>::empty());
    }
    let mut i: usize = 0;
    while i < n
        invariant
            n == payload@.len(),
            i <= n,
            r@ == prefix + payload@.take(i as int),
        decreases n - i,
    {
        proof {
            let p = payload@;
            assert((prefix + p.take(i as int)).push(p[i as int]) =~= prefix + p.take(i as int + 1));
        }
        r.push(payload[i]);
        i = i + 1;
    }
    proof {
        assert(payload@.take(n as int) == payload@);
    }
    r
}

/// What came of reading the four bytes before a payload.
#[derive(Debug, Clone, Copy)]
pub enum PrefixRead {
    Bytes([u8; 4]),
    /// The read timed out or would have blocked.
    NotReady,
    Failed,
}

/// What a reader does after the prefix.
#[derive(Debug, Clone, Copy, PartialEq, Eq, Structural)]
pub enum AfterPrefix {
    /// Read a payload of this many bytes.
    ReadPayload(usize),
    /// There is no message yet.
    NoMessage,
    /// The stream is unusable.
    Fail,
}

/// A reader that gets no prefix in time has no message yet; any other failure is one.
pub fn after_prefix(read: PrefixRead) -> (r: AfterPrefix)
    ensures
        match read {
            PrefixRead::Bytes(b) => r == AfterPrefix::ReadPayload(prefixed_length(b@) as usize)
                && prefixed_length(b@) <= usize::MAX,
            PrefixRead::NotReady => r == AfterPrefix::NoMessage,
            PrefixRead::Failed => r == AfterPrefix::Fail,
        },
{
    match read {
        PrefixRead::Bytes(b) => {
            let n: u32 = (b[0] as u32) * 0x100_0000 + (b[1] as u32) * 0x1_0000 + (b[2] as u32)
                * 0x100 + (b[3] as u32);
            AfterPrefix::ReadPayload(n as usize)
        },
        PrefixRead::NotReady => AfterPrefix::NoMessage,
        PrefixRead::Failed => AfterPrefix::Fail,
    }
}

/// What is framed is read back: the prefix gives the length of the payload, and the payload is
/// what follows it, however the stream goes on.
pub proof fn law_frame_is_read_back(payload: Seq<u8>, rest: Seq<u8>)
    requires
        payload.len() < 0x1_0000_0000,
    ensures
        ({
            let stream = length_prefix(payload.len()) + payload + rest;
            let n = prefixed_length(stream.take(4));
            &&& n == payload.len()
            &&& stream.subrange(4, 4 + n as int) == payload
            &&& stream.skip(4 + n as int) == rest
        }),
{
    let n = payload.len();
    let prefix = length_prefix(n);
    let stream = prefix + payload + rest;
    assert(stream.take(4) =~= prefix);
    assert(n / 0x100_0000 < 0x100);
    assert(n == n / 0x100_0000 * 0x100_0000 + n / 0x1_0000 % 0x100 * 0x1_0000 + n / 0x100 % 0x100
        * 0x100 + n % 0x100);
    assert(stream.subrange(4, 4 + n as int) =~= payload);
    assert(stream.skip(4 + n as int) =~= rest);
}

/// Payloads framed one after another.
pub open spec fn framed(payloads: Seq<Seq<u8>>) -> Seq<u8>
    decreases payloads.len(),
{
    if payloads.len() == 0 {
        Seq::empty()
    } else {
        length_prefix(payloads[0].len()) + payloads[0] + framed(payloads.drop_first())
    }
}

/// The payload that a stream begins with and what follows it, where both prefix and payload are
/// whole.
pub open spec fn read_payload(stream: Seq<u8>) -> Option<(Seq<u8>, Seq<u8>)> {
    if stream.len() < 4 {
        None
    } else {
        let n = prefixed_length(stream.take(4));
        if stream.len() < 4 + n {
            None
        } else {
            Some((stream.subrange(4, 4 + n as int), stream.skip(4 + n as int)))
        }
    }
}

/// The first `count` payloads of a stream and what follows them.
pub open spec fn read_payloads(stream: Seq<u8>, count: nat) -> Option<(Seq<Seq<u8>>, Seq<u8>)>
    decreases count,
{
    if count == 0 {
        Some((Seq::empty(), stream))
    } else {
        match read_payload(stream) {
            Some((payload, rest)) => match read_payloads(rest, (count - 1) as nat) {
                Some((payloads, end)) => Some((seq![payload] + payloads, end)),
                None => None,
            },
            None => None,
        }
    }
}

proof fn lemma_first_is_read(payload: Seq<u8>, rest: Seq<u8>)
    requires
        payload.len() < 0x1_0000_0000,
    ensures
        read_payload(length_prefix(payload.len()) + payload + rest) == Some((payload, rest)),
{
    law_frame_is_read_back(payload, rest);
}

proof fn lemma_regroup(prefix: Seq<u8>, payload: Seq<u8>, others: Seq<u8>, rest: Seq<u8>)
    ensures
        (prefix + payload + others) + rest == prefix + payload + (others + rest),
{
    assert((prefix + payload + others) + rest =~= prefix + payload + (others + rest));
}

/// Messages framed one after another are read back in their order, each once and whole, and what
/// follows them on the stream is left as it is.
pub proof fn law_frames_are_read_back_in_order(payloads: Seq<Seq<u8>>, rest: Seq<u8>)
    requires
        forall|i: int| 0 <= i < payloads.len() ==> (#[trigger] payloads[i]).len() < 0x1_0000_0000,
    ensures
        read_payloads(framed(payloads) + rest, payloads.len()) == Some((payloads, rest)),
    decreases payloads.len(),
{
    if payloads.len() == 0 {
        assert(framed(payloads) + rest =~= rest);
        assert(payloads =~= Seq::empty());
    } else {
        let first = payloads[0];
        let others = payloads.drop_first();
        let tail = framed(others) + rest;
        let prefix = length_prefix(first.len());
        assert(framed(payloads) == prefix + first + framed(others));
        lemma_regroup(prefix, first, framed(others), rest);
        lemma_first_is_read(first, tail);
        assert forall|i: int| 0 <= i < others.len() implies (#[trigger] others[i]).len()
            < 0x1_0000_0000 by {
            assert(others[i] == payloads[i + 1]);
        }
        law_frames_are_read_back_in_order(others, rest);
        assert(seq![first] + others =~= payloads);
    }
}

} // verus!
