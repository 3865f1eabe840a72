//! The probe at the entry of a file operation.
//!
//! The probe puts together an [`Event`] in a scratch buffer and keeps it until
//! the operation returns. Whatever touches the kernel is done outside of this
//! library: [`EntryProbe::next`] says what to do next, and
//! [`try_uprobe_handler`] takes what came of it.

use crate::event::{Event, EventModel, EventType};
use vstd::prelude::*;

verus! {

/// What the entry probe does next.
#[derive(Clone, Copy, Debug, PartialEq, Eq)]
pub enum EntryStep {
    /// Get hold of the scratch event.
    TakeScratch,
    /// Read the first argument of the call, the address of the source path.
    ReadSource,
    /// Read the second argument of the call, the address of the target path.
    ReadTarget { source: u64 },
    /// Copy the string at an address of the caller to the source path; the target
    /// path, if there is one, is pending.
    CopySource { source: u64, pending: Option<u64> },
    /// Copy the string at an address of the caller to the target path.
    CopyTarget { target: u64 },
    /// Read the identity of the caller.
    ReadCaller,
    /// Keep the scratch event under the identity of the caller.
    StoreCall { caller: u64 },
    /// Nothing: the probe is done.
    Finished { result: Result<u32, u32> },
}

/// What came of a step.
#[derive(Clone, Copy, Debug, PartialEq, Eq)]
pub enum EntryReply {
    /// The scratch event was looked up.
    Scratch,
    /// The argument read, if there is one.
    Argument(Option<u64>),
    /// The string was copied, or the error code of the kernel.
    Copied(Result<(), i64>),
    /// The identity of the caller.
    Caller(u64),
    /// The event was kept, or the error code of the kernel.
    Stored(Result<(), i64>),
}

/// A run of the entry probe.
#[derive(Clone, Copy, Debug, PartialEq, Eq)]
pub struct EntryProbe {
    /// The operation that was called.
    pub event_type: EventType,
    /// What to do next.
    pub next: EntryStep,
}

/// The low 32 bits of a number.
pub open spec fn low_bits(code: i64) -> u32 {
    (code as int % 0x1_0000_0000) as u32
}

/// The result of a probe that has failed with the given code.
pub open spec fn failed(code: u32) -> EntryStep {
    EntryStep::Finished { result: Err(code) }
}

/// The step that follows a reply, if the scratch event is there. A reply that
/// does not answer the step leaves it as it is.
pub open spec fn step_after(event_type: EventType, step: EntryStep, reply: EntryReply) -> EntryStep {
    match (step, reply) {
        (EntryStep::TakeScratch, EntryReply::Scratch) => EntryStep::ReadSource,
        (EntryStep::ReadSource, EntryReply::Argument(None)) => failed(1),
        (EntryStep::ReadSource, EntryReply::Argument(Some(source))) => if event_type
            == EventType::Rename {
            EntryStep::ReadTarget { source }
        } else {
            EntryStep::CopySource { source, pending: None }
        },
        (EntryStep::ReadTarget { .. }, EntryReply::Argument(None)) => failed(1),
        (
            EntryStep::ReadTarget { source },
            EntryReply::Argument(Some(target)),
        ) => EntryStep::CopySource { source, pending: Some(target) },
        (EntryStep::CopySource { .. }, EntryReply::Copied(Err(code))) => failed(low_bits(code)),
        (
            EntryStep::CopySource { pending: Some(target), .. },
            EntryReply::Copied(Ok(_)),
        ) => EntryStep::CopyTarget { target },
        (
            EntryStep::CopySource { pending: None, .. },
            EntryReply::Copied(Ok(_)),
        ) => EntryStep::ReadCaller,
        (EntryStep::CopyTarget { .. }, EntryReply::Copied(Err(code))) => failed(low_bits(code)),
        (EntryStep::CopyTarget { .. }, EntryReply::Copied(Ok(_))) => EntryStep::ReadCaller,
        (EntryStep::ReadCaller, EntryReply::Caller(caller)) => EntryStep::StoreCall { caller },
        (EntryStep::StoreCall { .. }, EntryReply::Stored(Err(code))) => failed(low_bits(code)),
        (EntryStep::StoreCall { .. }, EntryReply::Stored(Ok(_))) => EntryStep::Finished {
            result: Ok(0),
        },
        _ => step,
    }
}

/// The scratch event after a reply: it gets its type as soon as it is there, and
/// once the source path of an operation with a single path is copied, the target
/// path is made empty.
pub open spec fn scratch_after(
    event_type: EventType,
    step: EntryStep,
    reply: EntryReply,
    event: EventModel,
) -> EventModel {
    match (step, reply) {
        (EntryStep::TakeScratch, EntryReply::Scratch) => EventModel { event: event_type, ..event },
        (
            EntryStep::CopySource { pending: None, .. },
            EntryReply::Copied(Ok(_)),
        ) => EventModel { tgt_path: event.tgt_path.update(0, 0), ..event },
        _ => event,
    }
}

impl EntryProbe {
    /// The run after a reply. Without the scratch event, a run that is not done
    /// fails.
    pub open spec fn after(self, reply: EntryReply, has_scratch: bool) -> EntryProbe {
        let next = if has_scratch {
            step_after(self.event_type, self.next, reply)
        } else if self.next is Finished {
            self.next
        } else {
            failed(1)
        };
        EntryProbe { event_type: self.event_type, next }
    }
}

/// Everything the kernel answers in a run of the entry probe.
pub struct EntryWorld {
    /// The scratch event, with what an earlier run left in it.
    pub scratch: Option<EventModel>,
    /// The first argument of the call.
    pub source: Option<u64>,
    /// The second argument of the call.
    pub target: Option<u64>,
    /// What copying the string at an address makes of a path buffer, and whether
    /// it succeeds.
    pub copy: spec_fn(u64, Seq<u8>) -> (Seq<u8>, Result<(), i64>),
    /// The identity of the caller.
    pub caller: u64,
    /// Whether keeping the event succeeds.
    pub stored: Result<(), i64>,
}

/// What comes of a run of the entry probe: its result, and the event that was
/// kept, under the identity of the caller.
pub struct EntryOutcome {
    pub result: Result<u32, u32>,
    pub kept: Option<(u64, EventModel)>,
}

impl EntryWorld {
    /// The answer to a step, with the scratch event as it is.
    pub open spec fn reply(self, step: EntryStep, event: EventModel) -> EntryReply {
        match step {
            EntryStep::TakeScratch => EntryReply::Scratch,
            EntryStep::ReadSource => EntryReply::Argument(self.source),
            EntryStep::ReadTarget { .. } => EntryReply::Argument(self.target),
            EntryStep::CopySource { source, .. } => EntryReply::Copied(
                (self.copy)(source, event.src_path).1,
            ),
            EntryStep::CopyTarget { target } => EntryReply::Copied(
                (self.copy)(target, event.tgt_path).1,
            ),
            EntryStep::ReadCaller => EntryReply::Caller(self.caller),
            EntryStep::StoreCall { .. } => EntryReply::Stored(self.stored),
            EntryStep::Finished { .. } => EntryReply::Scratch,
        }
    }

    /// What a step makes of the scratch event.
    pub open spec fn write(self, step: EntryStep, event: EventModel) -> EventModel {
        match step {
            EntryStep::CopySource { source, .. } => EventModel {
                src_path: (self.copy)(source, event.src_path).0,
                ..event
            },
            EntryStep::CopyTarget { target } => EventModel {
                tgt_path: (self.copy)(target, event.tgt_path).0,
                ..event
            },
            _ => event,
        }
    }

    /// The outcome of at most `steps` steps, with the scratch event as it is.
    pub open spec fn run(self, probe: EntryProbe, event: EventModel, steps: nat) -> Option<
        EntryOutcome,
    >
        decreases steps,
    {
        if let EntryStep::Finished { result } = probe.next {
            Some(EntryOutcome { result, kept: None })
        } else if steps == 0 {
            None
        } else {
            let reply = self.reply(probe.next, event);
            let written = self.write(probe.next, event);
            let rest = self.run(
                probe.after(reply, self.scratch is Some),
                scratch_after(probe.event_type, probe.next, reply, written),
                (steps - 1) as nat,
            );
            match (rest, probe.next, reply) {
                (
                    Some(outcome),
                    EntryStep::StoreCall { caller },
                    EntryReply::Stored(Ok(_)),
                ) => Some(EntryOutcome { kept: Some((caller, written)), ..outcome }),
                _ => rest,
            }
        }
    }

    /// The outcome that a call of an operation should have: an event of its type
    /// with its path or, if it is a rename, with both of its paths is kept.
    pub open spec fn outcome(self, event_type: EventType) -> EntryOutcome {
        let rename = event_type == EventType::Rename;
        match (self.scratch, self.source, self.target) {
            (Some(before), Some(source), target) if rename ==> target is Some => {
                let src_copy = (self.copy)(source, before.src_path);
                let tgt_copy = if rename {
                    (self.copy)(target.unwrap(), before.tgt_path)
                } else {
                    (before.tgt_path.update(0, 0), Ok(()))
                };
                match (src_copy.1, tgt_copy.1, self.stored) {
                    (Ok(_), Ok(_), Ok(_)) => EntryOutcome {
                        result: Ok(0),
                        kept: Some(
                            (
                                self.caller,
                                EventModel {
                                    event: event_type,
                                    src_path: src_copy.0,
                                    tgt_path: tgt_copy.0,
                                },
                            ),
                        ),
                    },
                    (Err(code), _, _) => EntryOutcome { result: Err(low_bits(code)), kept: None },
                    (_, Err(code), _) => EntryOutcome { result: Err(low_bits(code)), kept: None },
                    (_, _, Err(code)) => EntryOutcome { result: Err(low_bits(code)), kept: None },
                }
            },
            _ => EntryOutcome { result: Err(1), kept: None },
        }
    }
}

/// Whatever the kernel answers, the entry probe is done after at most seven
/// steps. It keeps an event exactly if it succeeds. That event has the type of
/// the operation and the paths copied for this call; where the operation has no
/// target path, the target path is empty, whatever an earlier call left there.
pub proof fn entry_probe_keeps_its_call(world: EntryWorld, event_type: EventType)
    requires
        world.scratch matches Some(before) ==> before.tgt_path.len() > 0,
    ensures
        world.run(
            EntryProbe { event_type, next: EntryStep::TakeScratch },
            world.scratch.unwrap(),
            7,
        ) == Some(world.outcome(event_type)),
        world.outcome(event_type).kept is Some <==> world.outcome(event_type).result is Ok,
        world.outcome(event_type).kept matches Some((caller, event)) ==> {
            let before = world.scratch.unwrap();
            &&& caller == world.caller
            &&& event.event == event_type
            &&& event.src_path == (world.copy)(world.source.unwrap(), before.src_path).0
            &&& event_type == EventType::Rename ==> event.tgt_path == (world.copy)(
                world.target.unwrap(),
                before.tgt_path,
            ).0
            &&& event_type != EventType::Rename ==> event.tgt_path[0] == 0
        },
{
    reveal_with_fuel(EntryWorld::run, 8);
}

/// What comes of a run of the entry probe, answer by answer. Without scratch
/// event or without an argument that the operation has, the probe fails with code
/// 1. If the kernel fails to copy a path or to keep the event, it fails with the
/// low 32 bits of the first such error. Otherwise it succeeds with code 0 and
/// keeps, under the identity of the caller, an event of the operation's type with
/// the path copied from its first argument, and as target path the one copied
/// from the second argument of a rename, or else the old one made empty. An
/// operation with a single path takes five steps at most, a rename seven.
pub proof fn entry_probe_does_what_its_call_asks(world: EntryWorld, event_type: EventType)
    requires
        world.scratch matches Some(before) ==> before.tgt_path.len() > 0,
    ensures
        ({
            let rename = event_type == EventType::Rename;
            let start = EntryProbe { event_type, next: EntryStep::TakeScratch };
            let steps: nat = if rename {
                7
            } else {
                5
            };
            let before = world.scratch.unwrap();
            let source = (world.copy)(world.source.unwrap(), before.src_path);
            let target = (world.copy)(world.target.unwrap(), before.tgt_path);
            let modulus: int = 0x1_0000_0000;
            match world.run(start, before, steps) {
                None => false,
                Some(outcome) => {
                    if world.scratch is None || world.source is None || rename && world.target
                        is None {
                        outcome.result == Err::<u32, u32>(1) && outcome.kept is None
                    } else if let Err(code) = source.1 {
                        outcome.kept is None && (outcome.result matches Err(exit) && exit == code
                            as int % modulus)
                    } else if rename && target.1 is Err {
                        outcome.kept is None && (outcome.result matches Err(exit) && exit
                            == target.1->Err_0 as int % modulus)
                    } else if let Err(code) = world.stored {
                        outcome.kept is None && (outcome.result matches Err(exit) && exit == code
                            as int % modulus)
                    } else {
                        &&& outcome.result == Ok::<u32, u32>(0)
                        &&& outcome.kept matches Some((caller, event))
                        &&& caller == world.caller
                        &&& event.event == event_type
                        &&& event.src_path == source.0
                        &&& event.tgt_path == if rename {
                            target.0
                        } else {
                            before.tgt_path.update(0, 0)
                        }
                    }
                },
            }
        }),
{
    reveal_with_fuel(EntryWorld::run, 8);
}

/// A reply that is no answer to the step changes neither the step nor the scratch
/// event, and nothing changes a run that is done. Without scratch event, any other
/// run fails with code 1.
pub proof fn entry_probe_heeds_answers_only(
    probe: EntryProbe,
    reply: EntryReply,
    event: EventModel,
)
    ensures
        ({
            let answers = match probe.next {
                EntryStep::TakeScratch => reply is Scratch,
                EntryStep::ReadSource => reply is Argument,
                EntryStep::ReadTarget { .. } => reply is Argument,
                EntryStep::CopySource { .. } => reply is Copied,
                EntryStep::CopyTarget { .. } => reply is Copied,
                EntryStep::ReadCaller => reply is Caller,
                EntryStep::StoreCall { .. } => reply is Stored,
                EntryStep::Finished { .. } => false,
            };
            &&& !answers ==> probe.after(reply, true) == probe && scratch_after(
                probe.event_type,
                probe.next,
                reply,
                event,
            ) == event
            &&& probe.after(reply, true).event_type == probe.event_type
            &&& probe.next is Finished ==> probe.after(reply, false) == probe
            &&& !(probe.next is Finished) ==> probe.after(reply, false) == (EntryProbe {
                event_type: probe.event_type,
                next: EntryStep::Finished { result: Err(1) },
            })
        }),
{
}

/// The exit code of a probe: success and failure alike are handed on.
pub open spec fn exit_code_of(result: Result<u32, u32>) -> u32 {
    match result {
        Ok(code) => code,
        Err(code) => code,
    }
}

/// A probe exits with the code of its result.
pub proof fn exit_code_is_handed_on(code: u32)
    ensures
        exit_code_of(Ok(code)) == code,
        exit_code_of(Err(code)) == code,
{
}

impl EntryProbe {
    /// The exit code of the run, once it is done.
    pub fn exit_code(&self) -> (code: Option<u32>)
        ensures
            code == (match self.next {
                EntryStep::Finished { result } => Some(exit_code_of(result)),
                _ => None,
            }),
    {
        match self.next {
            EntryStep::Finished { result: Ok(code) } => Some(code),
            EntryStep::Finished { result: Err(code) } => Some(code),
            _ => None,
        }
    }
}

/// The entry probe of `unlink`.
pub fn uprobe_unlink() -> (probe: EntryProbe)
    ensures
        probe.event_type == EventType::Unlink,
        probe.next == EntryStep::TakeScratch,
{
    EntryProbe { event_type: EventType::Unlink, next: EntryStep::TakeScratch }
}

/// The entry probe of `create`.
pub fn uprobe_create() -> (probe: EntryProbe)
    ensures
        probe.event_type == EventType::Create,
        probe.next == EntryStep::TakeScratch,
{
    EntryProbe { event_type: EventType::Create, next: EntryStep::TakeScratch }
}

/// The entry probe of `rename`.
pub fn uprobe_rename() -> (probe: EntryProbe)
    ensures
        probe.event_type == EventType::Rename,
        probe.next == EntryStep::TakeScratch,
{
    EntryProbe { event_type: EventType::Rename, next: EntryStep::TakeScratch }
}

/// Carries a run of the entry probe on with what came of its last step. The
/// scratch event is absent if there is none.
pub fn try_uprobe_handler<const N: usize>(
    probe: EntryProbe,
    reply: EntryReply,
    scratch: Option<&mut Event<N>>,
) -> (after: EntryProbe)
    requires
        N > 0,
    ensures
        after == probe.after(reply, scratch is Some),
        scratch matches Some(event) ==> final(event)@ == scratch_after(
            probe.event_type,
            probe.next,
            reply,
            event@,
        ),
{
    let event_type: EventType = probe.event_type;
    let event: &mut Event<N> = match scratch {
        None => {
            let next: EntryStep = match probe.next {
                EntryStep::Finished { result } => EntryStep::Finished { result },
                _ => EntryStep::Finished { result: Err(1) },
            };
            return EntryProbe { event_type, next };
        },
        Some(event) => event,
    };
    let next: EntryStep = match (probe.next, reply) {
        (EntryStep::TakeScratch, EntryReply::Scratch) => {
            event.event = event_type;
            EntryStep::ReadSource
        },
        (EntryStep::ReadSource, EntryReply::Argument(Some(source))) => match event_type {
            EventType::Unlink | EventType::Create => EntryStep::CopySource { source, pending: None },
            EventType::Rename => EntryStep::ReadTarget { source },
        },
        (
            EntryStep::ReadTarget { source },
            EntryReply::Argument(Some(target)),
        ) => EntryStep::CopySource { source, pending: Some(target) },
        (
            EntryStep::ReadSource | EntryStep::ReadTarget { .. },
            EntryReply::Argument(None),
        ) => EntryStep::Finished { result: Err(1) },
        (EntryStep::CopySource { pending, .. }, EntryReply::Copied(Ok(_))) => match pending {
            Some(target) => EntryStep::CopyTarget { target },
            None => {
                event.tgt_path[0] = 0;
                EntryStep::ReadCaller
            },
        },
        (EntryStep::CopyTarget { .. }, EntryReply::Copied(Ok(_))) => EntryStep::ReadCaller,
        (
            EntryStep::CopySource { .. } | EntryStep::CopyTarget { .. },
            EntryReply::Copied(Err(code)),
        ) => EntryStep::Finished { result: Err(error_code(code)) },
        (EntryStep::ReadCaller, EntryReply::Caller(caller)) => EntryStep::StoreCall { caller },
        (EntryStep::StoreCall { .. }, EntryReply::Stored(Ok(_))) => EntryStep::Finished {
            result: Ok(0),
        },
        (EntryStep::StoreCall { .. }, EntryReply::Stored(Err(code))) => EntryStep::Finished {
            result: Err(error_code(code)),
        },
        (step, _) => step,
    };
    EntryProbe { event_type, next }
}

/// An error code of the kernel as the exit code of a probe: its low 32 bits.
fn error_code(code: i64) -> (exit: u32)
    ensures
        exit == low_bits(code),
{
    let exit: u32 = #[verifier::truncate]
    (code as u32);
    assert(exit == code % 0x1_0000_0000) by (bit_vector)
        requires
            exit == code as u32,
    ;
    exit
}

} // verus!
