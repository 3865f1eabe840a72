//! The probe at the return of a file operation.
//!
//! The probe takes up the [`Event`] that the entry probe kept and reports it if
//! the operation succeeded in a share of interest. Whatever touches the kernel is
//! done outside of this library: [`ReturnProbe::next`] says what to do next, and
//! [`try_uretprobe_handler`] takes what came of it.

use crate::entry::{entry_probe_keeps_its_call, exit_code_of, EntryWorld};
use crate::event::{Event, EventModel, EventType};
use crate::share::{get_share_name, share_name, ShareName};
use vstd::prelude::*;

verus! {

/// What the return probe does next.
#[derive(Clone, Copy, Debug, PartialEq, Eq)]
pub enum ReturnStep {
    /// Read the identity of the caller.
    ReadCaller,
    /// Look up the event kept under the identity of the caller.
    LookUpCall { caller: u64 },
    /// Read what the operation returned.
    ReadResult { caller: u64 },
    /// Get hold of the buffer for share names.
    TakeShare { caller: u64 },
    /// Look up the share of the source path, which is in the buffer, in the
    /// list of the shares of interest.
    CheckSource { caller: u64 },
    /// Look up the share of the target path, which is in the buffer, in the
    /// list of the shares of interest.
    CheckTarget { caller: u64 },
    /// Report the event.
    Emit { caller: u64 },
    /// Drop the event kept under the identity of the caller.
    RemoveCall { caller: u64 },
    /// Nothing: the probe is done.
    Finished { result: Result<u32, u32> },
}

/// What came of a step.
#[derive(Clone, Copy, Debug, PartialEq, Eq)]
pub enum ReturnReply {
    /// The identity of the caller.
    Caller(u64),
    /// What the operation returned, if it can be told.
    Returned(Option<i32>),
    /// Whether the share is in the list of the shares of interest.
    Listed(bool),
    /// The step was carried out.
    Done,
}

/// A run of the return probe.
#[derive(Clone, Copy, Debug, PartialEq, Eq)]
pub struct ReturnProbe {
    /// What to do next.
    pub next: ReturnStep,
}

/// The path whose share a reply makes the probe look at, if any.
pub open spec fn path_to_check(step: ReturnStep, reply: ReturnReply, call: EventModel) -> Option<
    Seq<u8>,
> {
    match (step, reply) {
        (ReturnStep::TakeShare { .. }, ReturnReply::Done) => Some(call.src_path),
        (ReturnStep::CheckSource { .. }, ReturnReply::Listed(false)) => if call.event
            == EventType::Rename {
            Some(call.tgt_path)
        } else {
            None
        },
        _ => None,
    }
}

/// The step that follows a reply, given the event kept for the call and whether
/// there is a buffer for share names. A reply that does not answer the step
/// leaves it as it is.
pub open spec fn step_after(
    step: ReturnStep,
    reply: ReturnReply,
    call: Option<EventModel>,
    has_share: bool,
) -> ReturnStep {
    let failed = ReturnStep::Finished { result: Err(1) };
    match (step, reply) {
        (ReturnStep::ReadCaller, ReturnReply::Caller(caller)) => ReturnStep::LookUpCall { caller },
        (ReturnStep::LookUpCall { caller }, ReturnReply::Done) => if call is Some {
            ReturnStep::ReadResult { caller }
        } else {
            failed
        },
        (ReturnStep::ReadResult { .. }, ReturnReply::Returned(None)) => failed,
        (ReturnStep::ReadResult { caller }, ReturnReply::Returned(Some(code))) => if code == 0 {
            ReturnStep::TakeShare { caller }
        } else {
            ReturnStep::RemoveCall { caller }
        },
        (ReturnStep::TakeShare { caller }, ReturnReply::Done) => if call is Some && has_share {
            ReturnStep::CheckSource { caller }
        } else {
            failed
        },
        (ReturnStep::CheckSource { caller }, ReturnReply::Listed(true)) => ReturnStep::Emit {
            caller,
        },
        (ReturnStep::CheckSource { caller }, ReturnReply::Listed(false)) => match call {
            Some(event) if has_share => if event.event == EventType::Rename {
                ReturnStep::CheckTarget { caller }
            } else {
                ReturnStep::RemoveCall { caller }
            },
            _ => failed,
        },
        (ReturnStep::CheckTarget { caller }, ReturnReply::Listed(listed)) => if listed {
            ReturnStep::Emit { caller }
        } else {
            ReturnStep::RemoveCall { caller }
        },
        (ReturnStep::Emit { caller }, ReturnReply::Done) => ReturnStep::RemoveCall { caller },
        (ReturnStep::RemoveCall { .. }, ReturnReply::Done) => ReturnStep::Finished {
            result: Ok(0),
        },
        _ => step,
    }
}

/// The buffer for share names after a reply.
pub open spec fn share_after(
    step: ReturnStep,
    reply: ReturnReply,
    call: Option<EventModel>,
    share: Seq<u8>,
) -> Seq<u8> {
    match call {
        Some(event) => match path_to_check(step, reply, event) {
            Some(path) => share_name(path),
            None => share,
        },
        None => share,
    }
}

/// Everything the kernel answers in a run of the return probe.
pub struct ReturnWorld {
    /// The identity of the caller.
    pub caller: u64,
    /// The event kept under it.
    pub call: Option<EventModel>,
    /// What the operation returned.
    pub returned: Option<i32>,
    /// The buffer for share names, with what an earlier run left in it.
    pub share: Option<Seq<u8>>,
    /// The shares of interest.
    pub listed: spec_fn(Seq<u8>) -> bool,
}

/// What comes of a run of the return probe: its result, how often the event was
/// reported, and whether it was dropped.
pub struct ReturnOutcome {
    pub result: Result<u32, u32>,
    pub reports: nat,
    pub dropped: bool,
}

impl ReturnWorld {
    /// The answer to a step.
    pub open spec fn reply(self, step: ReturnStep, share: Seq<u8>) -> ReturnReply {
        match step {
            ReturnStep::ReadCaller => ReturnReply::Caller(self.caller),
            ReturnStep::ReadResult { .. } => ReturnReply::Returned(self.returned),
            ReturnStep::CheckSource { .. } => ReturnReply::Listed((self.listed)(share)),
            ReturnStep::CheckTarget { .. } => ReturnReply::Listed((self.listed)(share)),
            _ => ReturnReply::Done,
        }
    }

    /// The outcome of at most `steps` steps, with the buffer as it is.
    pub open spec fn run(self, step: ReturnStep, share: Seq<u8>, steps: nat) -> Option<
        ReturnOutcome,
    >
        decreases steps,
    {
        if let ReturnStep::Finished { result } = step {
            Some(ReturnOutcome { result, reports: 0, dropped: false })
        } else if steps == 0 {
            None
        } else {
            let reply = self.reply(step, share);
            let rest = self.run(
                step_after(step, reply, self.call, self.share is Some),
                share_after(step, reply, self.call, share),
                (steps - 1) as nat,
            );
            match (rest, step) {
                (Some(outcome), ReturnStep::Emit { .. }) => Some(
                    ReturnOutcome { reports: outcome.reports + 1, ..outcome },
                ),
                (Some(outcome), ReturnStep::RemoveCall { caller }) => Some(
                    ReturnOutcome { dropped: outcome.dropped || caller == self.caller, ..outcome },
                ),
                _ => rest,
            }
        }
    }

    /// The call succeeded on a path in a share of interest: its source path or,
    /// if it is a rename, its target path.
    pub open spec fn is_of_interest(self, event: EventModel) -> bool {
        ||| (self.listed)(share_name(event.src_path))
        ||| event.event == EventType::Rename && (self.listed)(share_name(event.tgt_path))
    }

    /// The outcome that the return of an operation should have.
    pub open spec fn outcome(self) -> ReturnOutcome {
        match (self.call, self.returned) {
            (Some(event), Some(code)) => if code != 0 {
                ReturnOutcome { result: Ok(0), reports: 0, dropped: true }
            } else if self.share is None {
                ReturnOutcome { result: Err(1), reports: 0, dropped: false }
            } else if self.is_of_interest(event) {
                ReturnOutcome { result: Ok(0), reports: 1, dropped: true }
            } else {
                ReturnOutcome { result: Ok(0), reports: 0, dropped: true }
            },
            _ => ReturnOutcome { result: Err(1), reports: 0, dropped: false },
        }
    }
}

/// Whatever the kernel answers, the return probe is done after at most eight
/// steps. It reports the event at most once, and exactly if there is one, the
/// operation succeeded in a share of interest, and there is a buffer for share
/// names. It drops the event exactly if it does not fail.
pub proof fn return_probe_reports_what_is_of_interest(world: ReturnWorld)
    ensures
        world.run(ReturnStep::ReadCaller, world.share.unwrap(), 8) == Some(world.outcome()),
        world.outcome().result is Ok <==> world.outcome().dropped,
        world.outcome().reports > 0 ==> world.returned == Some(0i32),
{
    reveal_with_fuel(ReturnWorld::run, 9);
}

/// What comes of a run of the return probe, answer by answer. Without a kept
/// event, without a return value, or without buffer for share names where one is
/// needed, it fails with code 1, reports nothing and drops nothing. Otherwise it
/// succeeds with code 0 and drops the event, and it has reported it once if the
/// operation returned zero and the share of the source path is listed or, for a
/// rename, that of the target path.
pub proof fn return_probe_does_what_its_call_asks(world: ReturnWorld)
    ensures
        ({
            let event = world.call.unwrap();
            let source = (world.listed)(share_name(event.src_path));
            let target = (world.listed)(share_name(event.tgt_path));
            match world.run(ReturnStep::ReadCaller, world.share.unwrap(), 8) {
                None => false,
                Some(outcome) => {
                    if world.call is None || world.returned is None {
                        outcome.result == Err::<u32, u32>(1) && outcome.reports == 0
                            && !outcome.dropped
                    } else if world.returned != Some(0i32) {
                        outcome.result == Ok::<u32, u32>(0) && outcome.reports == 0
                            && outcome.dropped
                    } else if world.share is None {
                        outcome.result == Err::<u32, u32>(1) && outcome.reports == 0
                            && !outcome.dropped
                    } else if source || event.event == EventType::Rename && target {
                        outcome.result == Ok::<u32, u32>(0) && outcome.reports == 1
                            && outcome.dropped
                    } else {
                        outcome.result == Ok::<u32, u32>(0) && outcome.reports == 0
                            && outcome.dropped
                    }
                },
            }
        }),
{
    reveal_with_fuel(ReturnWorld::run, 9);
}

/// The identity of the caller that a step is about.
pub open spec fn caller_of(step: ReturnStep) -> Option<u64> {
    match step {
        ReturnStep::ReadCaller => None,
        ReturnStep::LookUpCall { caller } => Some(caller),
        ReturnStep::ReadResult { caller } => Some(caller),
        ReturnStep::TakeShare { caller } => Some(caller),
        ReturnStep::CheckSource { caller } => Some(caller),
        ReturnStep::CheckTarget { caller } => Some(caller),
        ReturnStep::Emit { caller } => Some(caller),
        ReturnStep::RemoveCall { caller } => Some(caller),
        ReturnStep::Finished { .. } => None,
    }
}

/// The call is looked up under the identity that was read, and every later step is
/// about that caller. The event is dropped right after it was reported, and the
/// probe is done after that. A reply that is no answer to the step changes neither
/// the step nor the buffer for share names, and nothing changes a run that is
/// done.
pub proof fn return_probe_keeps_to_its_caller(
    step: ReturnStep,
    reply: ReturnReply,
    call: Option<EventModel>,
    has_share: bool,
    share: Seq<u8>,
)
    ensures
        ({
            let after = step_after(step, reply, call, has_share);
            let answers = match step {
                ReturnStep::ReadCaller => reply is Caller,
                ReturnStep::LookUpCall { .. } => reply is Done,
                ReturnStep::ReadResult { .. } => reply is Returned,
                ReturnStep::TakeShare { .. } => reply is Done,
                ReturnStep::CheckSource { .. } => reply is Listed,
                ReturnStep::CheckTarget { .. } => reply is Listed,
                ReturnStep::Emit { .. } => reply is Done,
                ReturnStep::RemoveCall { .. } => reply is Done,
                ReturnStep::Finished { .. } => false,
            };
            &&& !answers ==> after == step && share_after(step, reply, call, share) == share
            &&& reply matches ReturnReply::Caller(caller) ==> (step is ReadCaller ==> after == (
            ReturnStep::LookUpCall { caller }))
            &&& caller_of(step) is Some ==> caller_of(after) == caller_of(step) || after is Finished
            &&& step is Emit && reply is Done ==> after is RemoveCall
            &&& step is RemoveCall && reply is Done ==> after == (ReturnStep::Finished {
                result: Ok(0),
            })
        }),
{
}

/// A call that is probed at its entry and at its return is reported at most once.
/// It is reported exactly if the entry probe succeeded, the operation succeeded,
/// there is a buffer for share names, and the path copied at the entry, or the
/// second one if it is a rename, lies in a share of interest.
pub proof fn call_is_reported_by_its_paths(
    entry: EntryWorld,
    event_type: EventType,
    exit: ReturnWorld,
)
    requires
        entry.scratch matches Some(before) ==> before.tgt_path.len() > 0,
        entry.caller == exit.caller,
        exit.call == (match entry.outcome(event_type).kept {
            Some((_, event)) => Some(event),
            None => None,
        }),
    ensures
        exit.outcome().reports == 1 <==> {
            let before = entry.scratch.unwrap();
            &&& entry.outcome(event_type).result is Ok
            &&& exit.returned == Some(0i32)
            &&& exit.share is Some
            &&& {
                ||| (exit.listed)(
                    share_name((entry.copy)(entry.source.unwrap(), before.src_path).0),
                )
                ||| event_type == EventType::Rename && (exit.listed)(
                    share_name((entry.copy)(entry.target.unwrap(), before.tgt_path).0),
                )
            }
        },
        exit.outcome().reports <= 1,
{
    entry_probe_keeps_its_call(entry, event_type);
}

impl ReturnProbe {
    /// The exit code of the run, once it is done.
    pub fn exit_code(&self) -> (code: Option<u32>)
        ensures
            code == (match self.next {
                ReturnStep::Finished { result } => Some(exit_code_of(result)),
                _ => None,
            }),
    {
        match self.next {
            ReturnStep::Finished { result: Ok(code) } => Some(code),
            ReturnStep::Finished { result: Err(code) } => Some(code),
            _ => None,
        }
    }
}

/// The return probe of `unlink`.
pub fn uretprobe_unlink() -> (probe: ReturnProbe)
    ensures
        probe.next == ReturnStep::ReadCaller,
{
    ReturnProbe { next: ReturnStep::ReadCaller }
}

/// The return probe of `create`.
pub fn uretprobe_create() -> (probe: ReturnProbe)
    ensures
        probe.next == ReturnStep::ReadCaller,
{
    ReturnProbe { next: ReturnStep::ReadCaller }
}

/// The return probe of `rename`.
pub fn uretprobe_rename() -> (probe: ReturnProbe)
    ensures
        probe.next == ReturnStep::ReadCaller,
{
    ReturnProbe { next: ReturnStep::ReadCaller }
}

/// An event that may be absent, taken by its view.
pub open spec fn call_view<const N: usize>(call: Option<&Event<N>>) -> Option<EventModel> {
    match call {
        Some(event) => Some(event@),
        None => None,
    }
}

/// Carries a run of the return probe on with what came of its last step. The
/// event kept for the call and the buffer for share names are absent if there
/// is none.
pub fn try_uretprobe_handler<const N: usize>(
    probe: ReturnProbe,
    reply: ReturnReply,
    call: Option<&Event<N>>,
    share: Option<&mut ShareName>,
) -> (after: ReturnProbe)
    ensures
        after.next == step_after(probe.next, reply, call_view(call), share is Some),
        share matches Some(buffer) ==> final(buffer)@ == share_after(
            probe.next,
            reply,
            call_view(call),
            buffer@,
        ),
{
    let failed: ReturnStep = ReturnStep::Finished { result: Err(1) };
    let next: ReturnStep = match (probe.next, reply) {
        (ReturnStep::ReadCaller, ReturnReply::Caller(caller)) => ReturnStep::LookUpCall { caller },
        (ReturnStep::LookUpCall { caller }, ReturnReply::Done) => match call {
            Some(_) => ReturnStep::ReadResult { caller },
            None => failed,
        },
        (ReturnStep::ReadResult { caller }, ReturnReply::Returned(returned)) => match returned {
            None => failed,
            Some(0) => ReturnStep::TakeShare { caller },
            Some(_) => ReturnStep::RemoveCall { caller },
        },
        (ReturnStep::TakeShare { caller }, ReturnReply::Done) => match (call, share) {
            (Some(event), Some(buffer)) => match get_share_name(&event.src_path, buffer) {
                Ok(_) => ReturnStep::CheckSource { caller },
                Err(code) => ReturnStep::Finished { result: Err(code) },
            },
            _ => failed,
        },
        (ReturnStep::CheckSource { caller }, ReturnReply::Listed(listed)) => if listed {
            ReturnStep::Emit { caller }
        } else {
            match (call, share) {
                (Some(event), Some(buffer)) => if event.event == EventType::Rename {
                    match get_share_name(&event.tgt_path, buffer) {
                        Ok(_) => ReturnStep::CheckTarget { caller },
                        Err(code) => ReturnStep::Finished { result: Err(code) },
                    }
                } else {
                    ReturnStep::RemoveCall { caller }
                },
                _ => failed,
            }
        },
        (ReturnStep::CheckTarget { caller }, ReturnReply::Listed(listed)) => if listed {
            ReturnStep::Emit { caller }
        } else {
            ReturnStep::RemoveCall { caller }
        },
        (ReturnStep::Emit { caller }, ReturnReply::Done) => ReturnStep::RemoveCall { caller },
        (ReturnStep::RemoveCall { .. }, ReturnReply::Done) => ReturnStep::Finished {
            result: Ok(0),
        },
        (step, _) => step,
    };
    ReturnProbe { next }
}

} // verus!
