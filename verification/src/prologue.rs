//! Recognising where a function begins in x86-64 machine code.
//!
//! A stripped binary does not say where its functions start, so the start is
//! guessed from byte patterns: the instructions compilers open a function with,
//! and the padding they leave between functions. All patterns look only at the
//! window of bytes they are given.

use crate::bytes::{matches_at, stands_at};
use vstd::prelude::*;

verus! {

/// `endbr64`.
pub open spec fn endbr64() -> Seq<u8> {
    seq![0xf3u8, 0x0f, 0x1e, 0xfa]
}

/// `push rbp; mov rbp, rsp`.
pub open spec fn frame_setup() -> Seq<u8> {
    seq![0x55u8, 0x48, 0x89, 0xe5]
}

/// `sub rsp, imm8`, up to the immediate.
pub open spec fn stack_allocation_imm8() -> Seq<u8> {
    seq![0x48u8, 0x83, 0xec]
}

/// `sub rsp, imm32`, up to the immediate.
pub open spec fn stack_allocation_imm32() -> Seq<u8> {
    seq![0x48u8, 0x81, 0xec]
}

/// `nop` or `int3`, the bytes that fill the gap between two functions.
pub open spec fn is_padding(byte: u8) -> bool {
    byte == 0x90 || byte == 0xcc
}

/// `push` of one of the eight low registers.
pub open spec fn is_push(byte: u8) -> bool {
    0x50 <= byte <= 0x57
}

/// A REX prefix.
pub open spec fn is_rex(byte: u8) -> bool {
    0x40 <= byte <= 0x4f
}

/// How many bytes the register push at `at` takes: one, two with a REX prefix,
/// or zero if no push stands there.
pub open spec fn push_len(window: Seq<u8>, at: int) -> int {
    if !(0 <= at < window.len()) {
        0
    } else if is_push(window[at]) {
        1
    } else if is_rex(window[at]) && at + 1 < window.len() && is_push(window[at + 1]) {
        2
    } else {
        0
    }
}

/// Two register pushes stand one after the other from `at` on.
pub open spec fn pushes_twice(window: Seq<u8>, at: int) -> bool {
    push_len(window, at) > 0 && push_len(window, at + push_len(window, at)) > 0
}

/// `push rbp` right after padding or a `ret`.
pub open spec fn pushes_frame_after_gap(window: Seq<u8>, at: int) -> bool {
    &&& 0 < at < window.len()
    &&& window[at] == 0x55
    &&& is_padding(window[at - 1]) || window[at - 1] == 0xc3
}

/// The position reached from `at` by stepping back over padding, stopping at
/// the first byte of the window at the latest.
pub open spec fn before_padding(window: Seq<u8>, at: int) -> int
    decreases at,
{
    if at > 0 && is_padding(window[at]) {
        before_padding(window, at - 1)
    } else {
        at
    }
}

/// The first byte after padding that either follows a `ret` or is at least four
/// bytes long.
pub open spec fn follows_padding(window: Seq<u8>, at: int) -> bool {
    &&& 0 < at < window.len()
    &&& is_padding(window[at - 1])
    &&& !is_padding(window[at])
    &&& {
        let end = before_padding(window, at - 1);
        window[end] == 0xc3 || window[end] == 0xc2 || at - 1 - end >= 4
    }
}

/// A function may begin at position `at` of `window`.
pub open spec fn is_function_start(window: Seq<u8>, at: int) -> bool {
    ||| stands_at(window, at, endbr64())
    ||| stands_at(window, at, frame_setup())
    ||| pushes_frame_after_gap(window, at)
    ||| pushes_twice(window, at)
    ||| follows_padding(window, at)
    ||| stands_at(window, at, stack_allocation_imm8())
    ||| stands_at(window, at, stack_allocation_imm32())
}

/// The greatest position below `end` at which a function may begin.
pub open spec fn last_function_start(window: Seq<u8>, end: int) -> Option<int>
    decreases end,
{
    if end <= 0 {
        None
    } else if is_function_start(window, end - 1) {
        Some(end - 1)
    } else {
        last_function_start(window, end - 1)
    }
}

/// The last function start of a window is a function start, and none comes
/// after it; there is none only if no position of the window is one.
pub proof fn last_function_start_is_last(window: Seq<u8>, end: int)
    ensures
        match last_function_start(window, end) {
            Some(at) => {
                &&& 0 <= at < end
                &&& is_function_start(window, at)
                &&& forall|k: int| at < k < end ==> !is_function_start(window, k)
            },
            None => forall|k: int| 0 <= k < end ==> !is_function_start(window, k),
        },
    decreases end,
{
    if end > 0 && !is_function_start(window, end - 1) {
        last_function_start_is_last(window, end - 1);
    }
}

/// Stepping back over padding passes padding only, and stops at the first byte
/// or at one that is none.
proof fn lemma_before_padding(window: Seq<u8>, at: int)
    requires
        0 <= at < window.len(),
    ensures
        0 <= before_padding(window, at) <= at,
        forall|j: int| before_padding(window, at) < j <= at ==> is_padding(#[trigger] window[j]),
        before_padding(window, at) > 0 ==> !is_padding(window[before_padding(window, at)]),
    decreases at,
{
    if at > 0 && is_padding(window[at]) {
        lemma_before_padding(window, at - 1);
    }
}

/// A function may begin exactly where one of these stands: `endbr64`; `push rbp;
/// mov rbp, rsp`; `push rbp` right after `nop`, `int3` or `ret`; two register
/// pushes in a row, each with or without a REX prefix; a byte other than `nop`
/// and `int3` after a run of those that follows a `ret` or has at least four
/// bytes, the first byte of the window left out; `sub rsp` of an immediate.
pub proof fn function_starts_are_byte_patterns(window: Seq<u8>, at: int)
    requires
        0 <= at < window.len(),
    ensures
        is_function_start(window, at) <==> {
            let n = window.len();
            let push = |p: int| p < n && 0x50 <= window[p] <= 0x57;
            let rex = |p: int| p < n && 0x40 <= window[p] <= 0x4f;
            ||| at + 4 <= n && window[at] == 0xf3 && window[at + 1] == 0x0f && window[at + 2] == 0x1e
                && window[at + 3] == 0xfa
            ||| at + 4 <= n && window[at] == 0x55 && window[at + 1] == 0x48 && window[at + 2] == 0x89
                && window[at + 3] == 0xe5
            ||| at > 0 && window[at] == 0x55 && (window[at - 1] == 0x90 || window[at - 1] == 0xcc
                || window[at - 1] == 0xc3)
            ||| push(at) && push(at + 1)
            ||| push(at) && rex(at + 1) && push(at + 2)
            ||| rex(at) && push(at + 1) && push(at + 2)
            ||| rex(at) && push(at + 1) && rex(at + 2) && push(at + 3)
            ||| window[at] != 0x90 && window[at] != 0xcc && exists|e: int|
                {
                    &&& 0 <= e <= at - 2
                    &&& #[trigger] window[e] == 0xc3 || window[e] == 0xc2 || at - 1 - e >= 4
                    &&& forall|j: int|
                        e < j < at ==> #[trigger] window[j] == 0x90 || window[j] == 0xcc
                }
            ||| at + 3 <= n && window[at] == 0x48 && (window[at + 1] == 0x83 || window[at + 1] == 0x81)
                && window[at + 2] == 0xec
        },
{
    let n = window.len();
    assert(stands_at(window, at, endbr64()) <==> at + 4 <= n && window[at] == 0xf3 && window[at + 1]
        == 0x0f && window[at + 2] == 0x1e && window[at + 3] == 0xfa) by {
        lemma_four_bytes(window, at, endbr64());
    }
    assert(stands_at(window, at, frame_setup()) <==> at + 4 <= n && window[at] == 0x55 && window[at
        + 1] == 0x48 && window[at + 2] == 0x89 && window[at + 3] == 0xe5) by {
        lemma_four_bytes(window, at, frame_setup());
    }
    lemma_three_bytes(window, at, stack_allocation_imm8());
    lemma_three_bytes(window, at, stack_allocation_imm32());
    if at > 0 {
        let end = before_padding(window, at - 1);
        lemma_before_padding(window, at - 1);
        if follows_padding(window, at) {
            assert(0 <= end <= at - 2);
            assert(window[end] == 0xc3 || window[end] == 0xc2 || at - 1 - end >= 4);
            assert forall|j: int| end < j < at implies #[trigger] window[j] == 0x90 || window[j]
                == 0xcc by {
                assert(is_padding(window[j]));
            }
        }
        if exists|e: int|
            {
                &&& 0 <= e <= at - 2
                &&& #[trigger] window[e] == 0xc3 || window[e] == 0xc2 || at - 1 - e >= 4
                &&& forall|j: int| e < j < at ==> #[trigger] window[j] == 0x90 || window[j] == 0xcc
            } && !is_padding(window[at]) {
            let e = choose|e: int|
                {
                    &&& 0 <= e <= at - 2
                    &&& #[trigger] window[e] == 0xc3 || window[e] == 0xc2 || at - 1 - e >= 4
                    &&& forall|j: int| e < j < at ==> #[trigger] window[j] == 0x90 || window[j] == 0xcc
                };
            assert(window[at - 1] == 0x90 || window[at - 1] == 0xcc);
            if end > e {
                assert(window[end] == 0x90 || window[end] == 0xcc);
            }
            if end < e {
                assert(is_padding(window[e]));
            }
            assert(follows_padding(window, at));
        }
    }
}

/// A pattern of four bytes, byte by byte.
proof fn lemma_four_bytes(window: Seq<u8>, at: int, pattern: Seq<u8>)
    requires
        0 <= at,
        pattern.len() == 4,
    ensures
        stands_at(window, at, pattern) <==> at + 4 <= window.len() && window[at] == pattern[0]
            && window[at + 1] == pattern[1] && window[at + 2] == pattern[2] && window[at + 3]
            == pattern[3],
{
    if stands_at(window, at, pattern) {
        assert(window[at + 0] == pattern[0]);
        assert(window[at + 1] == pattern[1]);
        assert(window[at + 2] == pattern[2]);
        assert(window[at + 3] == pattern[3]);
    }
}

/// A pattern of three bytes, byte by byte.
proof fn lemma_three_bytes(window: Seq<u8>, at: int, pattern: Seq<u8>)
    requires
        0 <= at,
        pattern.len() == 3,
    ensures
        stands_at(window, at, pattern) <==> at + 3 <= window.len() && window[at] == pattern[0]
            && window[at + 1] == pattern[1] && window[at + 2] == pattern[2],
{
    if stands_at(window, at, pattern) {
        assert(window[at + 0] == pattern[0]);
        assert(window[at + 1] == pattern[1]);
        assert(window[at + 2] == pattern[2]);
    }
}

/// Tells whether a byte fills the gap between two functions.
fn padding(byte: u8) -> (yes: bool)
    ensures
        yes == is_padding(byte),
{
    byte == 0x90 || byte == 0xcc
}

/// The length of the register push at `at`, or zero.
fn push_len_at(window: &[u8], at: usize) -> (len: usize)
    ensures
        len == push_len(window@, at as int),
{
    if at >= window.len() {
        return 0;
    }
    let byte: u8 = window[at];
    if 0x50 <= byte && byte <= 0x57 {
        1
    } else if 0x40 <= byte && byte <= 0x4f && at + 1 < window.len() && 0x50 <= window[at + 1]
        && window[at + 1] <= 0x57 {
        2
    } else {
        0
    }
}

/// Tells whether at least two register pushes stand in a row from `at` on.
fn has_push_sequence(window: &[u8], at: usize) -> (found: bool)
    requires
        at < window@.len(),
    ensures
        found == pushes_twice(window@, at as int),
{
    let first: usize = push_len_at(window, at);
    assert(at + first <= window.len());
    first > 0 && push_len_at(window, at + first) > 0
}

/// Tells whether `at` is the first byte after the padding between two functions.
fn starts_after_padding(window: &[u8], at: usize) -> (found: bool)
    requires
        at < window@.len(),
    ensures
        found == follows_padding(window@, at as int),
{
    if at == 0 || !padding(window[at - 1]) || padding(window[at]) {
        return false;
    }
    let mut end: usize = at - 1;
    while end > 0 && padding(window[end])
        invariant
            end < at < window@.len(),
            before_padding(window@, end as int) == before_padding(window@, at - 1),
        decreases end,
    {
        end -= 1;
    }
    window[end] == 0xc3 || window[end] == 0xc2 || at - 1 - end >= 4
}

/// Tells whether a function may begin at position `at` of `window`.
pub fn function_start(window: &[u8], at: usize) -> (found: bool)
    requires
        at < window@.len(),
    ensures
        found == is_function_start(window@, at as int),
{
    let endbr64_bytes: [u8; 4] = [0xf3, 0x0f, 0x1e, 0xfa];
    let frame_setup_bytes: [u8; 4] = [0x55, 0x48, 0x89, 0xe5];
    let imm8_bytes: [u8; 3] = [0x48, 0x83, 0xec];
    let imm32_bytes: [u8; 3] = [0x48, 0x81, 0xec];
    proof {
        assert(endbr64_bytes@ =~= endbr64());
        assert(frame_setup_bytes@ =~= frame_setup());
        assert(imm8_bytes@ =~= stack_allocation_imm8());
        assert(imm32_bytes@ =~= stack_allocation_imm32());
    }
    if matches_at(window, at, &endbr64_bytes) || matches_at(window, at, &frame_setup_bytes) {
        return true;
    }
    if window[at] == 0x55 && at > 0 && (padding(window[at - 1]) || window[at - 1] == 0xc3) {
        return true;
    }
    has_push_sequence(window, at) || starts_after_padding(window, at) || matches_at(
        window,
        at,
        &imm8_bytes,
    ) || matches_at(window, at, &imm32_bytes)
}

/// Searches `window` backwards for the last position at which a function may
/// begin.
pub fn find_last_function_start(window: &[u8]) -> (found: Option<usize>)
    ensures
        match found {
            Some(at) => last_function_start(window@, window@.len() as int) == Some(at as int),
            None => last_function_start(window@, window@.len() as int) is None,
        },
{
    let mut end: usize = window.len();
    while end > 0
        invariant
            end <= window@.len(),
            last_function_start(window@, window@.len() as int) == last_function_start(
                window@,
                end as int,
            ),
        decreases end,
    {
        if function_start(window, end - 1) {
            return Some(end - 1);
        }
        end -= 1;
    }
    None
}

} // verus!
