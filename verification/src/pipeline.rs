//! What every policy offers, the numbering of directives, and the suppression of repeated ones.

use crate::float::{F32, F64};
use crate::signal::SystemSignal;
use crate::text::same;
use crate::types::OperatingMode;
use crate::wire::{
    commands_equal, copy_commands, same_commands, EngineCommand, EngineDirective, EngineMessage,
};
use vstd::prelude::*;

verus! {

/// One entry of what a policy shows of itself.
pub ghost enum Shown {
    Number(Seq<char>, F32),
    Count(Seq<char>, u64),
    Text(Seq<char>, Seq<char>),
}

/// Collects what a policy shows of itself, entry by entry.
pub trait PolicyVisitor: Sized {
    /// What a visitor has collected.
    type Collected;

    spec fn collected(&self) -> Self::Collected;

    /// What is collected after one more entry.
    spec fn with(collected: Self::Collected, entry: Shown) -> Self::Collected;

    fn record_f32(&mut self, key: &str, value: F32)
        ensures
            final(self).collected() == Self::with(
                old(self).collected(),
                Shown::Number(key@, value),
            ),
    ;

    fn record_u64(&mut self, key: &str, value: u64)
        ensures
            final(self).collected() == Self::with(old(self).collected(), Shown::Count(key@, value)),
    ;

    fn record_string(&mut self, key: &str, value: &str)
        ensures
            final(self).collected() == Self::with(old(self).collected(), Shown::Text(key@, value@)),
    ;
}

/// What is collected after a row of entries.
pub open spec fn visited<V: PolicyVisitor>(
    collected: V::Collected,
    entries: Seq<Shown>,
) -> V::Collected
    decreases entries.len(),
{
    if entries.len() == 0 {
        collected
    } else {
        V::with(visited::<V>(collected, entries.drop_last()), entries.last())
    }
}

pub broadcast proof fn lemma_visited_one_more<V: PolicyVisitor>(
    collected: V::Collected,
    entries: Seq<Shown>,
    entry: Shown,
)
    ensures
        #[trigger] visited::<V>(collected, entries.push(entry)) == V::with(
            visited::<V>(collected, entries),
            entry,
        ),
{
    assert(entries.push(entry).drop_last() =~= entries);
}

/// One entry, kept.
#[derive(Debug, Clone)]
pub enum Record {
    Number(String, F32),
    Count(String, u64),
    Text(String, String),
}

impl View for Record {
    type V = Shown;

    open spec fn view(&self) -> Shown {
        match *self {
            Record::Number(key, value) => Shown::Number(key@, value),
            Record::Count(key, value) => Shown::Count(key@, value),
            Record::Text(key, value) => Shown::Text(key@, value@),
        }
    }
}

/// Keeps everything that a policy shows.
#[derive(Debug, Clone)]
pub struct StateRecorder {
    pub records: Vec<Record>,
}

impl StateRecorder {
    pub fn new() -> (r: Self)
        ensures
            r.collected() == Seq::<Shown>::empty(),
    {
        let r = StateRecorder { records: Vec::new() };
        proof {
            assert(r.collected() =~= Seq::<Shown>::empty());
        }
        r
    }
}

impl Default for StateRecorder {
    fn default() -> (r: Self)
        ensures
            r.collected() == Seq::<Shown>::empty(),
    {
        StateRecorder::new()
    }
}

impl PolicyVisitor for StateRecorder {
    type Collected = Seq<Shown>;

    open spec fn collected(&self) -> Seq<Shown> {
        self.records@.map_values(|r: Record| r@)
    }

    open spec fn with(collected: Seq<Shown>, entry: Shown) -> Seq<Shown> {
        collected.push(entry)
    }

    fn record_f32(&mut self, key: &str, value: F32) {
        self.records.push(Record::Number(key.to_owned(), value));
        proof {
            assert(self.collected() =~= old(self).collected().push(Shown::Number(key@, value)));
        }
    }

    fn record_u64(&mut self, key: &str, value: u64) {
        self.records.push(Record::Count(key.to_owned(), value));
        proof {
            assert(self.collected() =~= old(self).collected().push(Shown::Count(key@, value)));
        }
    }

    fn record_string(&mut self, key: &str, value: &str) {
        self.records.push(Record::Text(key.to_owned(), value.to_owned()));
        proof {
            assert(self.collected() =~= old(self).collected().push(Shown::Text(key@, value@)));
        }
    }
}

/// A policy whose script can be replaced while it runs.
pub trait ReloadablePolicy: Sized {
    spec fn reloadable(&self) -> bool;

    /// Why a script could not be loaded.
    type Failure;

    /// Replaces the script by a text that is loaded into a new machine, after `register` has added
    /// its functions to that. A script that does not load leaves the policy untouched.
    fn reload_script<R: Fn(&mlua::Lua) -> Result<(), mlua::Error>>(
        &mut self,
        source: &str,
        path: &str,
        register: &R,
    ) -> (r: Result<(), Self::Failure>)
        requires
            old(self).reloadable(),
            forall|lua: &mlua::Lua| call_requires(*register, (lua,)),
        ensures
            final(self).reloadable(),
            r is Err ==> *final(self) == *old(self),
    ;

    fn script_path(&self) -> (r: Option<&str>);
}

/// What decides: signals go in, directives come out.
pub trait PolicyStrategy: Sized + Send {
    /// What holds of a policy between its calls.
    spec fn valid(&self) -> bool;

    /// Whether a signal can lead to these commands and leave this policy behind.
    spec fn may_process(
        &self,
        signal: SystemSignal,
        commands: Seq<EngineCommand>,
        after: Self,
    ) -> bool;

    /// The policy after a message of the engine.
    spec fn updated(&self, msg: EngineMessage) -> Self;

    /// The policy without what the last signal queued for observation.
    spec fn uncounted(&self) -> Self;

    spec fn current_mode(&self) -> OperatingMode;

    /// What the policy shows of itself, in order.
    spec fn shown(&self) -> Seq<Shown>;

    /// Takes in a signal. A directive that comes of it has commands and takes the next number;
    /// without commands there is no directive.
    fn process_signal(&mut self, signal: &SystemSignal, ids: &mut SeqCounter) -> (r: Option<
        EngineDirective,
    >)
        requires
            old(self).valid(),
        ensures
            final(self).valid(),
            old(self).may_process(*signal, commands_in(r), *final(self)),
            numbered(r, *old(ids), *final(ids)),
    ;

    /// Takes in a heartbeat or a response.
    fn update_engine_state(&mut self, msg: &EngineMessage)
        requires
            old(self).valid(),
        ensures
            final(self).valid(),
            *final(self) == old(self).updated(*msg),
    ;

    fn mode(&self) -> (r: OperatingMode)
        ensures
            r == self.current_mode(),
    ;

    /// Saves what the policy has learned; a policy that learns nothing does nothing.
    fn save_model(&self) {
    }

    /// Shows the policy's state to a visitor.
    fn inspect_state<V: PolicyVisitor>(&mut self, visitor: &mut V)
        requires
            old(self).valid(),
        ensures
            *final(self) == *old(self),
            final(visitor).collected() == visited::<V>(
                old(visitor).collected(),
                old(self).shown(),
            ),
    ;

    /// Takes back what the last signal queued for observation, where its directive was held back.
    fn cancel_last_observation(&mut self)
        requires
            old(self).valid(),
        ensures
            final(self).valid(),
            *final(self) == old(self).uncounted(),
    ;

    /// What replaces the policy's script.
    type Reloadable: ReloadablePolicy;

    /// This policy as one whose script can be replaced, if it is one.
    fn as_reloadable(&mut self) -> (r: Option<&mut Self::Reloadable>)
        requires
            old(self).valid(),
    ;
}

/// The commands of a directive, and none where there is none.
pub open spec fn commands_in(directive: Option<EngineDirective>) -> Seq<EngineCommand> {
    match directive {
        Some(d) => d.commands@,
        None => Seq::empty(),
    }
}

/// Looks for one counter among what a policy shows.
#[derive(Debug, Clone, Copy)]
pub struct OverrunCollector {
    pub count: u64,
}

impl PolicyVisitor for OverrunCollector {
    type Collected = u64;

    open spec fn collected(&self) -> u64 {
        self.count
    }

    open spec fn with(collected: u64, entry: Shown) -> u64 {
        match entry {
            Shown::Count(key, value) => if key == "observation_overrun_count"@ {
                value
            } else {
                collected
            },
            _ => collected,
        }
    }

    fn record_f32(&mut self, _key: &str, _value: F32) {
    }

    fn record_u64(&mut self, key: &str, value: u64) {
        if same(key, "observation_overrun_count") {
            self.count = value;
        }
    }

    fn record_string(&mut self, _key: &str, _value: &str) {
    }
}

/// The count of observation overruns that a policy shows; zero where it shows none.
pub fn get_observation_overrun_count<P: PolicyStrategy>(policy: &mut P) -> (r: u64)
    requires
        old(policy).valid(),
    ensures
        r == visited::<OverrunCollector>(0, old(policy).shown()),
        *final(policy) == *old(policy),
{
    let mut collector = OverrunCollector { count: 0 };
    policy.inspect_state(&mut collector);
    collector.count
}

/// The numbers of directives: each one is given once, in order, from one on.
#[derive(Debug)]
pub struct SeqCounter {
    pub next: u64,
}

impl SeqCounter {
    pub fn new() -> (r: Self)
        ensures
            r.next == 1,
    {
        SeqCounter { next: 1 }
    }

    /// The counter after one number was taken; after the last number it starts again at zero.
    pub open spec fn taken(self) -> SeqCounter {
        SeqCounter {
            next: if self.next == u64::MAX {
                0
            } else {
                (self.next + 1) as u64
            },
        }
    }
}

impl Default for SeqCounter {
    fn default() -> (r: Self)
        ensures
            r.next == 1,
    {
        SeqCounter::new()
    }
}

/// Takes the next number.
pub fn next_seq_id(counter: &mut SeqCounter) -> (r: u64)
    ensures
        r == old(counter).next,
        *final(counter) == old(counter).taken(),
{
    let id: u64 = counter.next;
    counter.next = id.wrapping_add(1);
    id
}

/// A directive has commands and takes the next number; where there is none, no number is taken.
pub open spec fn numbered(
    directive: Option<EngineDirective>,
    before: SeqCounter,
    after: SeqCounter,
) -> bool {
    match directive {
        Some(d) => d.commands@.len() > 0 && d.seq_id == before.next && after == before.taken(),
        None => after == before,
    }
}

/// Suppresses directives that repeat the one before.
///
/// A directive passes where its commands differ from those of the last one that passed, or
/// where the cooldown has gone by since that one.
pub struct DirectiveDeduplicator {
    pub last_commands: Option<Vec<EngineCommand>>,
    /// When the last directive passed, in seconds.
    pub last_sent_at: Option<F64>,
    /// After how many seconds an unchanged directive passes again.
    pub cooldown_secs: F64,
}

/// What a deduplicator remembers.
pub ghost struct Passed {
    pub last_commands: Option<Seq<EngineCommand>>,
    pub last_sent_at: Option<F64>,
    pub cooldown_secs: F64,
}

impl Passed {
    /// Nothing has passed yet.
    pub open spec fn nothing(cooldown_secs: F64) -> Passed {
        Passed { last_commands: None, last_sent_at: None, cooldown_secs }
    }

    pub open spec fn repeats(self, commands: Seq<EngineCommand>) -> bool {
        match self.last_commands {
            Some(last) => same_commands(last, commands),
            None => false,
        }
    }

    pub open spec fn cooled_down(self, now_secs: F64) -> bool {
        match self.last_sent_at {
            Some(t) => now_secs.minus(t).at_least(self.cooldown_secs),
            None => false,
        }
    }

    /// Whether commands pass now.
    pub open spec fn lets_pass(self, commands: Seq<EngineCommand>, now_secs: F64) -> bool {
        !self.repeats(commands) || self.cooled_down(now_secs)
    }

    /// What is remembered after commands came: what passed, and nothing of what did not.
    pub open spec fn after(self, commands: Seq<EngineCommand>, now_secs: F64) -> Passed {
        if self.lets_pass(commands, now_secs) {
            Passed { last_commands: Some(commands), last_sent_at: Some(now_secs), ..self }
        } else {
            self
        }
    }
}

impl View for DirectiveDeduplicator {
    type V = Passed;

    open spec fn view(&self) -> Passed {
        Passed {
            last_commands: match self.last_commands {
                Some(c) => Some(c@),
                None => None,
            },
            last_sent_at: self.last_sent_at,
            cooldown_secs: self.cooldown_secs,
        }
    }
}

impl DirectiveDeduplicator {
    /// A deduplicator with a cooldown of 60 seconds.
    pub fn new() -> (r: Self)
        ensures
            r@ == Passed::nothing(F64 { bits: 0x404e_0000_0000_0000 }),
    {
        Self::with_cooldown(F64 { bits: 0x404e_0000_0000_0000 })
    }

    pub fn with_cooldown(cooldown_secs: F64) -> (r: Self)
        ensures
            r@ == Passed::nothing(cooldown_secs),
    {
        DirectiveDeduplicator { last_commands: None, last_sent_at: None, cooldown_secs }
    }

    /// Gives a directive back where it passes. `now_secs` counts from the start of the process.
    pub fn process(&mut self, directive: EngineDirective, now_secs: F64) -> (r: Option<
        EngineDirective,
    >)
        ensures
            r == if old(self)@.lets_pass(directive.commands@, now_secs) {
                Some(directive)
            } else {
                None
            },
            final(self)@ == old(self)@.after(directive.commands@, now_secs),
    {
        let is_dup: bool = match &self.last_commands {
            Some(last) => commands_equal(last, &directive.commands),
            None => false,
        };
        let cooldown_elapsed: bool = match self.last_sent_at {
            Some(t) => now_secs.minus(t).at_least(self.cooldown_secs),
            None => false,
        };
        if is_dup && !cooldown_elapsed {
            None
        } else {
            self.last_commands = Some(copy_commands(&directive.commands));
            self.last_sent_at = Some(now_secs);
            Some(directive)
        }
    }
}

impl Default for DirectiveDeduplicator {
    fn default() -> (r: Self)
        ensures
            r@ == Passed::nothing(F64 { bits: 0x404e_0000_0000_0000 }),
    {
        DirectiveDeduplicator::new()
    }
}

/// The first directive always passes.
pub proof fn law_first_passes(cooldown_secs: F64, commands: Seq<EngineCommand>, now_secs: F64)
    ensures
        Passed::nothing(cooldown_secs).lets_pass(commands, now_secs),
{
}

/// Commands that differ from the last that passed always pass.
pub proof fn law_change_passes(p: Passed, commands: Seq<EngineCommand>, now_secs: F64)
    requires
        p.last_commands is Some ==> !same_commands(p.last_commands->Some_0, commands),
    ensures
        p.lets_pass(commands, now_secs),
{
}

/// After commands have passed, equal ones are held back until the cooldown has gone by since,
/// and pass from then on. That they were held back meanwhile makes no difference.
pub proof fn law_repeat_waits_for_cooldown(
    p: Passed,
    commands: Seq<EngineCommand>,
    again: Seq<EngineCommand>,
    sent_at: F64,
    between: F64,
    now_secs: F64,
)
    requires
        p.lets_pass(commands, sent_at),
        same_commands(commands, again),
    ensures
        p.after(commands, sent_at).lets_pass(again, now_secs) <==> now_secs.minus(
            sent_at,
        ).at_least(p.cooldown_secs),
        !between.minus(sent_at).at_least(p.cooldown_secs) ==> p.after(commands, sent_at).after(
            again,
            between,
        ).lets_pass(again, now_secs) == p.after(commands, sent_at).lets_pass(again, now_secs),
{
}

/// What is remembered after a row of commands, each at its time.
pub open spec fn after_all(p: Passed, row: Seq<(Seq<EngineCommand>, F64)>) -> Passed
    decreases row.len(),
{
    if row.len() == 0 {
        p
    } else {
        after_all(p, row.drop_last()).after(row.last().0, row.last().1)
    }
}

/// Whether none of a row passes.
pub open spec fn none_passes(p: Passed, row: Seq<(Seq<EngineCommand>, F64)>) -> bool {
    forall|i: int|
        0 <= i < row.len() ==> !after_all(p, row.take(i)).lets_pass(
            (#[trigger] row[i]).0,
            row[i].1,
        )
}

proof fn lemma_none_passes(p: Passed, row: Seq<(Seq<EngineCommand>, F64)>)
    requires
        none_passes(p, row),
    ensures
        after_all(p, row) == p,
    decreases row.len(),
{
    if row.len() > 0 {
        let shorter = row.drop_last();
        assert forall|i: int| 0 <= i < shorter.len() implies !after_all(p, shorter.take(i)).lets_pass(
            (#[trigger] shorter[i]).0,
            shorter[i].1,
        ) by {
            assert(shorter.take(i) =~= row.take(i));
            assert(shorter[i] == row[i]);
        }
        lemma_none_passes(p, shorter);
        assert(row.take(row.len() - 1) =~= shorter);
        assert(!after_all(p, row.take(row.len() - 1)).lets_pass(
            row[row.len() - 1].0,
            row[row.len() - 1].1,
        ));
    }
}

/// Of two equal directives that pass with none in between, the second comes no sooner than a
/// cooldown after the first, however many were held back meanwhile.
pub proof fn law_equal_directives_are_a_cooldown_apart(
    p: Passed,
    first: Seq<EngineCommand>,
    sent_at: F64,
    held_back: Seq<(Seq<EngineCommand>, F64)>,
    second: Seq<EngineCommand>,
    now_secs: F64,
)
    requires
        p.lets_pass(first, sent_at),
        none_passes(p.after(first, sent_at), held_back),
        after_all(p.after(first, sent_at), held_back).lets_pass(second, now_secs),
        same_commands(first, second),
    ensures
        now_secs.minus(sent_at).at_least(p.cooldown_secs),
{
    lemma_none_passes(p.after(first, sent_at), held_back);
}

/// Going to other commands and back again passes each time.
pub proof fn law_cycle_passes(
    p: Passed,
    a: Seq<EngineCommand>,
    b: Seq<EngineCommand>,
    t1: F64,
    t2: F64,
    t3: F64,
)
    requires
        p.lets_pass(a, t1),
        !same_commands(a, b),
    ensures
        p.after(a, t1).lets_pass(b, t2),
        p.after(a, t1).after(b, t2).lets_pass(a, t3),
{
    if same_commands(b, a) {
        assert forall|i: int| 0 <= i < a.len() implies (#[trigger] a[i]).same(b[i]) by {
            assert(b[i].same(a[i]));
        }
    }
}

} // verus!
