use dirt::entry::{
    try_uprobe_handler, uprobe_create, uprobe_rename, uprobe_unlink, EntryProbe, EntryReply, EntryStep,
};
use dirt::event::{Event, EventType};
use dirt::exit::{
    try_uretprobe_handler, uretprobe_create, uretprobe_rename, uretprobe_unlink, ReturnProbe, ReturnReply,
    ReturnStep,
};
use dirt::halt::Program;
use dirt::share::ShareName;

const CALLER: u64 = 0x0000_0007_0000_0009;

fn path(text: &[u8]) -> [u8; 32] {
    let mut buffer = [0u8; 32];
    buffer[..text.len()].copy_from_slice(text);
    buffer
}

fn event(kind: EventType, source: &[u8], target: &[u8]) -> Event<32> {
    Event { event: kind, src_path: path(source), tgt_path: path(target) }
}

/// What the kernel answers to an entry probe.
struct Entry {
    scratch: Option<Event<32>>,
    arguments: [Option<u64>; 2],
    copied: Result<(), i64>,
    stored: Result<(), i64>,
}

fn answering() -> Entry {
    Entry {
        scratch: Some(event(EventType::Rename, b"/stale/a", b"/stale/b")),
        arguments: [Some(1), Some(2)],
        copied: Ok(()),
        stored: Ok(()),
    }
}

/// The strings that lie at the addresses 1 and 2 of the caller.
fn string_at(address: u64) -> [u8; 32] {
    if address == 1 {
        path(b"/media/a")
    } else {
        path(b"/backup/b")
    }
}

/// Runs an entry probe and gives its exit code and the event it kept.
fn run_entry(mut probe: EntryProbe, mut kernel: Entry) -> (u32, Option<(u64, Event<32>)>) {
    let mut kept = None;
    loop {
        let reply = match probe.next {
            EntryStep::TakeScratch => EntryReply::Scratch,
            EntryStep::ReadSource => EntryReply::Argument(kernel.arguments[0]),
            EntryStep::ReadTarget { .. } => EntryReply::Argument(kernel.arguments[1]),
            EntryStep::CopySource { source, .. } => {
                kernel.scratch.as_mut().unwrap().src_path = string_at(source);
                EntryReply::Copied(kernel.copied)
            }
            EntryStep::CopyTarget { target } => {
                kernel.scratch.as_mut().unwrap().tgt_path = string_at(target);
                EntryReply::Copied(kernel.copied)
            }
            EntryStep::ReadCaller => EntryReply::Caller(CALLER),
            EntryStep::StoreCall { caller } => {
                if kernel.stored.is_ok() {
                    kept = kernel.scratch.map(|event| (caller, event));
                }
                EntryReply::Stored(kernel.stored)
            }
            EntryStep::Finished { .. } => return (probe.exit_code().unwrap(), kept),
        };
        assert_eq!(probe.exit_code(), None);
        probe = try_uprobe_handler(probe, reply, kernel.scratch.as_mut());
    }
}

/// Runs a return probe and gives its exit code, how often it reported the event,
/// and whether it dropped it.
fn run_return(
    mut probe: ReturnProbe,
    call: Option<&Event<32>>,
    returned: Option<i32>,
    mut share: Option<ShareName>,
    listed: &[&[u8]],
) -> (u32, usize, bool) {
    let mut reports = 0;
    let mut dropped = false;
    loop {
        let reply = match probe.next {
            ReturnStep::ReadCaller => ReturnReply::Caller(CALLER),
            ReturnStep::ReadResult { .. } => ReturnReply::Returned(returned),
            ReturnStep::CheckSource { .. } | ReturnStep::CheckTarget { .. } => {
                let held = share.unwrap();
                ReturnReply::Listed(listed.iter().any(|name| {
                    held.starts_with(name) && held[name.len()..].iter().all(|&byte| byte == 0)
                }))
            }
            ReturnStep::Emit { caller } => {
                assert_eq!(caller, CALLER);
                reports += 1;
                ReturnReply::Done
            }
            ReturnStep::RemoveCall { caller } => {
                assert_eq!(caller, CALLER);
                dropped = true;
                ReturnReply::Done
            }
            ReturnStep::LookUpCall { .. } | ReturnStep::TakeShare { .. } => ReturnReply::Done,
            ReturnStep::Finished { .. } => return (probe.exit_code().unwrap(), reports, dropped),
        };
        assert_eq!(probe.exit_code(), None);
        probe = try_uretprobe_handler(probe, reply, call, share.as_mut());
    }
}

#[test]
fn unlink_keeps_its_path_and_clears_the_target() {
    let (code, kept) = run_entry(uprobe_unlink(), answering());
    assert_eq!(code, 0);
    let (caller, event) = kept.unwrap();
    assert_eq!(caller, CALLER);
    assert_eq!(event.event, EventType::Unlink);
    assert_eq!(event.src_path, path(b"/media/a"));
    assert_eq!(event.tgt_path, path(b"\0stale/b"));
}

#[test]
fn create_keeps_its_path_and_clears_the_target() {
    let (code, kept) = run_entry(uprobe_create(), answering());
    assert_eq!(code, 0);
    let (_, event) = kept.unwrap();
    assert_eq!(event.event, EventType::Create);
    assert_eq!(event.src_path, path(b"/media/a"));
    assert_eq!(event.tgt_path[0], 0);
}

#[test]
fn rename_keeps_both_paths() {
    let (code, kept) = run_entry(uprobe_rename(), answering());
    assert_eq!(code, 0);
    let (_, event) = kept.unwrap();
    assert_eq!(event.event, EventType::Rename);
    assert_eq!(event.src_path, path(b"/media/a"));
    assert_eq!(event.tgt_path, path(b"/backup/b"));
}

#[test]
fn an_entry_probe_fails_without_scratch_event() {
    let (code, kept) = run_entry(uprobe_unlink(), Entry { scratch: None, ..answering() });
    assert_eq!(code, 1);
    assert!(kept.is_none());
}

#[test]
fn an_entry_probe_fails_without_arguments() {
    let (code, kept) = run_entry(uprobe_create(), Entry { arguments: [None, Some(2)], ..answering() });
    assert_eq!((code, kept.is_none()), (1, true));
    let (code, kept) = run_entry(uprobe_rename(), Entry { arguments: [Some(1), None], ..answering() });
    assert_eq!((code, kept.is_none()), (1, true));
    // Only a rename reads the second argument.
    let (code, kept) = run_entry(uprobe_unlink(), Entry { arguments: [Some(1), None], ..answering() });
    assert_eq!((code, kept.is_none()), (0, false));
}

#[test]
fn an_entry_probe_hands_on_the_low_bits_of_an_error() {
    let (code, kept) = run_entry(uprobe_rename(), Entry { copied: Err(-14), ..answering() });
    assert_eq!((code, kept.is_none()), (0xffff_fff2, true));
    let (code, kept) = run_entry(uprobe_create(), Entry { stored: Err(-7), ..answering() });
    assert_eq!((code, kept.is_none()), (0xffff_fff9, true));
    let (code, _) = run_entry(uprobe_create(), Entry { stored: Err(0x1_0000_0002), ..answering() });
    assert_eq!(code, 2);
}

#[test]
fn a_reply_that_answers_nothing_changes_nothing() {
    let probe = uprobe_unlink();
    let mut scratch = event(EventType::Create, b"/a", b"/b");
    let after = try_uprobe_handler(probe, EntryReply::Caller(3), Some(&mut scratch));
    assert_eq!(after, probe);
    assert_eq!(scratch.event, EventType::Create);
    let probe = uretprobe_unlink();
    let mut share: ShareName = [7; 256];
    let after = try_uretprobe_handler(probe, ReturnReply::Listed(true), Some(&scratch), Some(&mut share));
    assert_eq!(after, probe);
    assert_eq!(share, [7; 256]);
}

#[test]
fn a_successful_call_in_a_listed_share_is_reported() {
    let call = event(EventType::Unlink, b"/media/a", b"");
    let share = Some([9; 256]);
    assert_eq!(run_return(uretprobe_unlink(), Some(&call), Some(0), share, &[b"media"]), (0, 1, true));
    assert_eq!(run_return(uretprobe_unlink(), Some(&call), Some(0), share, &[b"med"]), (0, 0, true));
    assert_eq!(run_return(uretprobe_unlink(), Some(&call), Some(0), share, &[]), (0, 0, true));
}

#[test]
fn a_failed_call_is_dropped_without_report() {
    let call = event(EventType::Create, b"/media/a", b"");
    let share = Some([0; 256]);
    assert_eq!(run_return(uretprobe_create(), Some(&call), Some(-1), share, &[b"media"]), (0, 0, true));
    // The share buffer is not needed then.
    assert_eq!(run_return(uretprobe_create(), Some(&call), Some(1), None, &[b"media"]), (0, 0, true));
}

#[test]
fn a_rename_is_reported_for_either_share_and_once() {
    let call = event(EventType::Rename, b"/media/a", b"/backup/b");
    let share = Some([0; 256]);
    let run = |listed: &[&[u8]]| run_return(uretprobe_rename(), Some(&call), Some(0), share, listed);
    assert_eq!(run(&[b"media"]), (0, 1, true));
    assert_eq!(run(&[b"backup"]), (0, 1, true));
    assert_eq!(run(&[b"media", b"backup"]), (0, 1, true));
    assert_eq!(run(&[b"other"]), (0, 0, true));
}

#[test]
fn only_a_rename_is_reported_for_its_target() {
    let call = event(EventType::Create, b"/media/a", b"/backup/b");
    let share = Some([0; 256]);
    assert_eq!(run_return(uretprobe_create(), Some(&call), Some(0), share, &[b"backup"]), (0, 0, true));
}

#[test]
fn a_return_probe_fails_without_call_result_or_buffer() {
    let call = event(EventType::Unlink, b"/media/a", b"");
    let share = Some([0; 256]);
    assert_eq!(run_return(uretprobe_unlink(), None, Some(0), share, &[b"media"]), (1, 0, false));
    assert_eq!(run_return(uretprobe_unlink(), Some(&call), None, share, &[b"media"]), (1, 0, false));
    assert_eq!(run_return(uretprobe_unlink(), Some(&call), Some(0), None, &[b"media"]), (1, 0, false));
}

#[test]
fn a_call_is_reported_by_the_paths_of_its_entry() {
    let (_, kept) = run_entry(uprobe_rename(), answering());
    let (_, call) = kept.unwrap();
    let share = Some([0; 256]);
    assert_eq!(run_return(uretprobe_rename(), Some(&call), Some(0), share, &[b"backup"]), (0, 1, true));
    assert_eq!(run_return(uretprobe_rename(), Some(&call), Some(0), share, &[b"stale"]), (0, 0, true));
}

#[test]
fn a_halted_program_stays_halted() {
    assert_eq!(dirt::halt::panic(Program::Running), Program::Halted);
    assert_eq!(dirt::halt::panic(Program::Halted), Program::Halted);
}
