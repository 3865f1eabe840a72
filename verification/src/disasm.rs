//! x86-64 instructions, and the ones that refer to a given address.
//!
//! The `iced_x86` crate decodes and prints the instructions. What the analysis
//! reads of one is held in [`Instruction`] as plain values.

use iced_x86::{Decoder, DecoderOptions, Formatter, IntelFormatter, OpKind, Register};
use vstd::prelude::*;
use vstd::slice::slice_subrange;

verus! {

/// The greatest number of operands an instruction has.
pub const MAX_OPERANDS: u32 = 5;

/// The kind of an operand, as far as it can hold an address.
#[derive(Clone, Copy, Debug, PartialEq, Eq)]
pub enum Operand {
    /// A memory operand.
    Memory,
    /// A 64-bit immediate.
    Immediate64,
    /// A 32-bit immediate.
    Immediate32,
    /// Any other operand.
    Other,
}

/// What the analysis reads of an instruction.
#[derive(Clone, Copy, Debug, PartialEq, Eq)]
pub struct Instruction {
    /// The address of the instruction.
    pub ip: u64,
    /// Its length in bytes.
    pub len: usize,
    /// The bytes are no valid instruction.
    pub invalid: bool,
    /// Its memory operand is relative to the instruction pointer.
    pub ip_relative: bool,
    /// The address of that operand.
    pub ip_relative_address: u64,
    /// The number of operands.
    pub operand_count: u32,
    /// The kinds of the operands; those from `operand_count` on mean nothing.
    pub operands: [Operand; 5],
    /// Its memory operand has a base register.
    pub has_base: bool,
    /// Its memory operand has an index register.
    pub has_index: bool,
    /// The displacement of its memory operand.
    pub displacement: u64,
    /// Its 64-bit immediate.
    pub immediate64: u64,
    /// Its 32-bit immediate.
    pub immediate32: u32,
}

/// The instruction that `iced_x86::Decoder::decode` reads, in 64-bit mode with
/// AMD's variants, from the beginning of `code` for the address `ip`.
pub uninterp spec fn decoded(code: Seq<u8>, ip: u64) -> Instruction;

/// The text that `iced_x86::IntelFormatter::format` writes for the instruction
/// at the beginning of `code` for the address `ip`.
pub uninterp spec fn intel_text(code: Seq<u8>, ip: u64) -> Seq<char>;

/// The address `len` bytes after `ip`; addresses wrap around.
pub open spec fn advance(ip: u64, len: int) -> u64 {
    ((ip + len) % 0x1_0000_0000_0000_0000) as u64
}

/// The instructions that `code` holds when it lies at the address `ip`, one
/// directly after the other.
pub open spec fn instructions(code: Seq<u8>, ip: u64) -> Seq<Instruction>
    decreases code.len(),
{
    if code.len() == 0 {
        Seq::empty()
    } else {
        let first = decoded(code, ip);
        if 1 <= first.len <= code.len() {
            seq![first] + instructions(code.skip(first.len as int), advance(ip, first.len as int))
        } else {
            seq![first]
        }
    }
}

/// The operand with number `k` is the address `target`: a memory operand without
/// registers whose displacement it is, or an immediate of that value.
pub open spec fn operand_is(instruction: Instruction, k: int, target: u64) -> bool {
    match instruction.operands@[k] {
        Operand::Memory => !instruction.has_base && !instruction.has_index
            && instruction.displacement == target,
        Operand::Immediate64 => instruction.immediate64 == target,
        Operand::Immediate32 => instruction.immediate32 as u64 == target,
        Operand::Other => false,
    }
}

/// How many of the operands below number `n` are the address `target`.
pub open spec fn operands_that_are(instruction: Instruction, n: int, target: u64) -> nat
    decreases n,
{
    if n <= 0 {
        0
    } else {
        operands_that_are(instruction, n - 1, target) + if operand_is(instruction, n - 1, target) {
            1nat
        } else {
            0nat
        }
    }
}

/// How often an instruction refers to the address `target`: once for a memory
/// operand relative to the instruction pointer, and once for each operand that
/// is the address itself. Bytes that are no instruction refer to nothing.
pub open spec fn mentions(instruction: Instruction, target: u64) -> nat {
    if instruction.invalid {
        0
    } else {
        operands_that_are(instruction, instruction.operand_count as int, target)
            + if instruction.ip_relative && instruction.ip_relative_address == target {
            1nat
        } else {
            0nat
        }
    }
}

/// The addresses of the instructions that refer to `target`, in order, each as
/// often as it does.
pub open spec fn references(listing: Seq<Instruction>, target: u64) -> Seq<u64>
    decreases listing.len(),
{
    if listing.len() == 0 {
        Seq::empty()
    } else {
        Seq::new(mentions(listing[0], target), |k: int| listing[0].ip) + references(
            listing.skip(1),
            target,
        )
    }
}

/// Calls `iced_x86::Decoder::decode` on the bytes of `code`, in 64-bit mode with
/// AMD's variants: the instruction is a function of the bytes and the address.
/// It lies at the address given, has at most fifteen bytes, all of them in
/// `code`, and at least one if `code` has any.
#[verifier::external_body]
pub(crate) fn decode(code: &[u8], ip: u64) -> (instruction: Instruction)
    ensures
        instruction == decoded(code@, ip),
        instruction.ip == ip,
        instruction.len <= 15,
        instruction.len <= code@.len(),
        code@.len() > 0 ==> instruction.len >= 1,
        instruction.operand_count <= MAX_OPERANDS,
{
    let i = Decoder::with_ip(64, code, ip, DecoderOptions::AMD).decode();
    Instruction {
        ip: i.ip(), len: i.len(), invalid: i.is_invalid(),
        ip_relative: i.is_ip_rel_memory_operand(), ip_relative_address: i.ip_rel_memory_address(),
        operand_count: i.op_count(),
        operands: [0, 1, 2, 3, 4].map(|k| match i.op_kind(k) {
            OpKind::Memory => Operand::Memory,
            OpKind::Immediate64 => Operand::Immediate64,
            OpKind::Immediate32 => Operand::Immediate32,
            _ => Operand::Other,
        }),
        has_base: i.memory_base() != Register::None, has_index: i.memory_index() != Register::None,
        displacement: i.memory_displacement64(), immediate64: i.immediate64(), immediate32: i.immediate32(),
    }
}

/// Calls `iced_x86::IntelFormatter::format` on the instruction at the beginning
/// of `code`: the text is a function of the bytes and the address.
#[verifier::external_body]
pub(crate) fn intel_syntax(code: &[u8], ip: u64) -> (text: String)
    ensures
        text@ == intel_text(code@, ip),
{
    let instruction = Decoder::with_ip(64, code, ip, DecoderOptions::AMD).decode();
    let mut text = String::new();
    IntelFormatter::new().format(&instruction, &mut text);
    text
}

/// Every instruction of the listing has at most [`MAX_OPERANDS`] operands.
pub open spec fn operand_counts_bounded(listing: Seq<Instruction>) -> bool {
    forall|k: int| 0 <= k < listing.len() ==> (#[trigger] listing[k]).operand_count <= MAX_OPERANDS
}

/// Every instruction of the listing lies in the `len` bytes from the address `ip`
/// on, and each after those before it.
pub open spec fn lies_in_order(listing: Seq<Instruction>, ip: u64, len: nat) -> bool {
    &&& forall|k: int| 0 <= k < listing.len() ==> ip <= (#[trigger] listing[k]).ip < ip + len
    &&& forall|j: int, k: int|
        0 <= j < k < listing.len() ==> (#[trigger] listing[j]).ip < (#[trigger] listing[k]).ip
}

/// The references to an address are the addresses of the instructions that refer
/// to it.
pub proof fn references_are_mentions(listing: Seq<Instruction>, target: u64)
    ensures
        forall|r: u64| #[trigger]
            references(listing, target).contains(r) <==> exists|k: int|
                {
                    &&& 0 <= k < listing.len()
                    &&& (#[trigger] listing[k]).ip == r
                    &&& mentions(listing[k], target) > 0
                },
    decreases listing.len(),
{
    if listing.len() > 0 {
        let rest = listing.skip(1);
        let first = Seq::new(mentions(listing[0], target), |k: int| listing[0].ip);
        references_are_mentions(rest, target);
        assert(references(listing, target) == first + references(rest, target));
        assert forall|r: u64| #[trigger]
            references(listing, target).contains(r) <==> exists|k: int|
                {
                    &&& 0 <= k < listing.len()
                    &&& (#[trigger] listing[k]).ip == r
                    &&& mentions(listing[k], target) > 0
                } by {
            if references(listing, target).contains(r) {
                let j = choose|j: int|
                    0 <= j < references(listing, target).len() && references(listing, target)[j]
                        == r;
                if j < first.len() {
                    assert(listing[0].ip == r);
                } else {
                    assert(references(rest, target)[j - first.len()] == r);
                    assert(references(rest, target).contains(r));
                    let k = choose|k: int|
                        {
                            &&& 0 <= k < rest.len()
                            &&& (#[trigger] rest[k]).ip == r
                            &&& mentions(rest[k], target) > 0
                        };
                    assert(listing[k + 1] == rest[k]);
                }
            }
            if exists|k: int|
                {
                    &&& 0 <= k < listing.len()
                    &&& (#[trigger] listing[k]).ip == r
                    &&& mentions(listing[k], target) > 0
                } {
                let k = choose|k: int|
                    {
                        &&& 0 <= k < listing.len()
                        &&& (#[trigger] listing[k]).ip == r
                        &&& mentions(listing[k], target) > 0
                    };
                if k == 0 {
                    assert(first[0] == r);
                    assert(references(listing, target)[0] == r);
                } else {
                    assert(rest[k - 1] == listing[k]);
                    assert(references(rest, target).contains(r));
                    let j = choose|j: int|
                        0 <= j < references(rest, target).len() && references(rest, target)[j] == r;
                    assert(references(listing, target)[first.len() + j] == r);
                }
            }
        }
    }
}

/// The number of bytes of the instructions of a listing.
pub open spec fn total_len(listing: Seq<Instruction>) -> int
    decreases listing.len(),
{
    if listing.len() == 0 {
        0
    } else {
        total_len(listing.drop_last()) + listing.last().len
    }
}

/// An instruction before a listing adds its bytes.
proof fn lemma_total_len_front(first: Instruction, rest: Seq<Instruction>)
    ensures
        total_len(seq![first] + rest) == first.len + total_len(rest),
    decreases rest.len(),
{
    let all = seq![first] + rest;
    if rest.len() == 0 {
        assert(all.drop_last() =~= Seq::empty());
        assert(total_len(all.drop_last()) == 0);
    } else {
        lemma_total_len_front(first, rest.drop_last());
        assert(all.drop_last() =~= seq![first] + rest.drop_last());
        assert(all.last() == rest.last());
    }
}

/// Every instruction of code is decoded where those before it end, for the
/// address that many bytes after the first; addresses wrap around.
pub proof fn instructions_lie_one_after_the_other(code: Seq<u8>, ip: u64, k: int)
    requires
        0 <= k < instructions(code, ip).len(),
    ensures
        ({
            let at = total_len(instructions(code, ip).take(k));
            &&& 0 <= at < code.len()
            &&& instructions(code, ip)[k] == decoded(
                code.skip(at),
                ((ip + at) % 0x1_0000_0000_0000_0000) as u64,
            )
        }),
    decreases k,
{
    let listing = instructions(code, ip);
    let first = decoded(code, ip);
    if k == 0 {
        assert(listing.take(0) =~= Seq::empty());
        assert(total_len(listing.take(0)) == 0);
        assert(code.skip(0) =~= code);
        assert(listing[0] == first);
    } else {
        let rest_code = code.skip(first.len as int);
        let rest_ip = advance(ip, first.len as int);
        let rest = instructions(rest_code, rest_ip);
        let before = rest.take(k - 1);
        let at = total_len(before);
        assert(listing == seq![first] + rest);
        instructions_lie_one_after_the_other(rest_code, rest_ip, k - 1);
        assert(listing.take(k) =~= seq![first] + before);
        lemma_total_len_front(first, before);
        assert(rest_code.skip(at) =~= code.skip(first.len + at));
        assert((rest_ip + at) % 0x1_0000_0000_0000_0000 == (ip + (first.len + at))
            % 0x1_0000_0000_0000_0000);
    }
}

/// The instructions of code go on to its end, unless one has no bytes or more
/// than are left.
pub proof fn instructions_fill_the_code(code: Seq<u8>, ip: u64)
    ensures
        ({
            let listing = instructions(code, ip);
            ||| total_len(listing) >= code.len()
            ||| listing.len() > 0 && listing.last().len == 0
        }),
    decreases code.len(),
{
    let listing = instructions(code, ip);
    if code.len() > 0 {
        let first = decoded(code, ip);
        if 1 <= first.len <= code.len() {
            let rest_code = code.skip(first.len as int);
            let rest_ip = advance(ip, first.len as int);
            let rest = instructions(rest_code, rest_ip);
            instructions_fill_the_code(rest_code, rest_ip);
            lemma_total_len_front(first, rest);
            if rest.len() > 0 {
                assert(listing.last() == rest.last());
            }
        } else {
            assert(listing.drop_last() =~= Seq::empty());
            assert(total_len(listing.drop_last()) == 0);
        }
    }
}

/// An address is among the references to a target exactly if a valid instruction
/// lies at it that has a memory operand relative to the instruction pointer with
/// the target as its address, or an operand that is the target: a memory operand
/// without base and index and with the target as its displacement, or a 64-bit or
/// 32-bit immediate of that value. Nothing else of the instruction matters.
pub proof fn references_are_operands(listing: Seq<Instruction>, target: u64, r: u64)
    ensures
        references(listing, target).contains(r) <==> exists|k: int|
            {
                let i = #[trigger] listing[k];
                &&& 0 <= k < listing.len()
                &&& i.ip == r
                &&& !i.invalid
                &&& {
                    ||| i.ip_relative && i.ip_relative_address == target
                    ||| exists|j: int|
                        0 <= j < i.operand_count && match #[trigger] i.operands@[j] {
                            Operand::Memory => !i.has_base && !i.has_index && i.displacement
                                == target,
                            Operand::Immediate64 => i.immediate64 == target,
                            Operand::Immediate32 => i.immediate32 == target,
                            Operand::Other => false,
                        }
                }
            },
{
    references_are_mentions(listing, target);
    assert forall|k: int| 0 <= k < listing.len() implies (mentions(#[trigger] listing[k], target) > 0
        <==> {
        let i = listing[k];
        &&& !i.invalid
        &&& {
            ||| i.ip_relative && i.ip_relative_address == target
            ||| exists|j: int|
                0 <= j < i.operand_count && match #[trigger] i.operands@[j] {
                    Operand::Memory => !i.has_base && !i.has_index && i.displacement == target,
                    Operand::Immediate64 => i.immediate64 == target,
                    Operand::Immediate32 => i.immediate32 == target,
                    Operand::Other => false,
                }
        }
    }) by {
        let i = listing[k];
        lemma_operands_that_are(i, i.operand_count as int, target);
    }
}

/// Some operand is the target exactly if their number is not zero.
proof fn lemma_operands_that_are(instruction: Instruction, n: int, target: u64)
    ensures
        operands_that_are(instruction, n, target) > 0 <==> exists|j: int|
            0 <= j < n && match #[trigger] instruction.operands@[j] {
                Operand::Memory => !instruction.has_base && !instruction.has_index
                    && instruction.displacement == target,
                Operand::Immediate64 => instruction.immediate64 == target,
                Operand::Immediate32 => instruction.immediate32 == target,
                Operand::Other => false,
            },
    decreases n,
{
    if n > 0 {
        lemma_operands_that_are(instruction, n - 1, target);
        let last = instruction.operands@[n - 1];
        assert(operand_is(instruction, n - 1, target) <==> match last {
            Operand::Memory => !instruction.has_base && !instruction.has_index
                && instruction.displacement == target,
            Operand::Immediate64 => instruction.immediate64 == target,
            Operand::Immediate32 => instruction.immediate32 == target,
            Operand::Other => false,
        });
    }
}

/// An instruction refers to a target as often as it has operands that are the
/// target, and once more if its memory operand relative to the instruction
/// pointer has that address; an invalid one never does.
pub proof fn mentions_count_the_operands(instruction: Instruction, target: u64)
    ensures
        ({
            let named = Set::new(
                |j: int|
                    0 <= j < instruction.operand_count && match instruction.operands@[j] {
                        Operand::Memory => !instruction.has_base && !instruction.has_index
                            && instruction.displacement == target,
                        Operand::Immediate64 => instruction.immediate64 == target,
                        Operand::Immediate32 => instruction.immediate32 == target,
                        Operand::Other => false,
                    },
            );
            let relative: nat = if instruction.ip_relative && instruction.ip_relative_address
                == target {
                1
            } else {
                0
            };
            &&& named.finite()
            &&& mentions(instruction, target) == if instruction.invalid {
                0
            } else {
                relative + named.len()
            }
        }),
{
    lemma_operand_set(instruction, instruction.operand_count as int, target);
}

/// The number of operands that are the target is that of their set.
proof fn lemma_operand_set(instruction: Instruction, n: int, target: u64)
    ensures
        ({
            let named = Set::new(
                |j: int|
                    0 <= j < n && match instruction.operands@[j] {
                        Operand::Memory => !instruction.has_base && !instruction.has_index
                            && instruction.displacement == target,
                        Operand::Immediate64 => instruction.immediate64 == target,
                        Operand::Immediate32 => instruction.immediate32 == target,
                        Operand::Other => false,
                    },
            );
            named.finite() && operands_that_are(instruction, n, target) == named.len()
        }),
    decreases n,
{
    let named = Set::new(
        |j: int|
            0 <= j < n && match instruction.operands@[j] {
                Operand::Memory => !instruction.has_base && !instruction.has_index
                    && instruction.displacement == target,
                Operand::Immediate64 => instruction.immediate64 == target,
                Operand::Immediate32 => instruction.immediate32 == target,
                Operand::Other => false,
            },
    );
    if n <= 0 {
        assert(named =~= Set::empty());
    } else {
        lemma_operand_set(instruction, n - 1, target);
        let before = Set::new(
            |j: int|
                0 <= j < n - 1 && match instruction.operands@[j] {
                    Operand::Memory => !instruction.has_base && !instruction.has_index
                        && instruction.displacement == target,
                    Operand::Immediate64 => instruction.immediate64 == target,
                    Operand::Immediate32 => instruction.immediate32 == target,
                    Operand::Other => false,
                },
        );
        if operand_is(instruction, n - 1, target) {
            assert(named =~= before.insert(n - 1));
        } else {
            assert(named =~= before);
        }
    }
}

/// The references in two listings one after the other are those in the first and
/// then those in the second; those in a single instruction are its address, as
/// often as it refers to the target.
pub proof fn references_come_in_order(
    first: Seq<Instruction>,
    second: Seq<Instruction>,
    instruction: Instruction,
    target: u64,
)
    ensures
        references(first + second, target) == references(first, target) + references(second, target),
        references(seq![instruction], target).len() == mentions(instruction, target),
        forall|k: int|
            0 <= k < references(seq![instruction], target).len() ==> #[trigger] references(
                seq![instruction],
                target,
            )[k] == instruction.ip,
    decreases first.len(),
{
    let single = seq![instruction];
    assert(single.skip(1) =~= Seq::empty());
    assert(references(single.skip(1), target) =~= Seq::empty());
    let all = first + second;
    if first.len() == 0 {
        assert(all =~= second);
        assert(references(all, target) =~= references(first, target) + references(second, target));
    } else {
        references_come_in_order(first.skip(1), second, instruction, target);
        assert(all.skip(1) =~= first.skip(1) + second);
        assert(references(all, target) =~= references(first, target) + references(second, target));
    }
}

/// The instructions that `code` holds when it lies at the address `ip`. Their
/// addresses ascend through the code, unless it reaches beyond the last address.
pub fn disassemble(code: &[u8], ip: u64) -> (listing: Vec<Instruction>)
    ensures
        listing@ == instructions(code@, ip),
        operand_counts_bounded(listing@),
        total_len(listing@) == code@.len(),
        ip + code@.len() <= u64::MAX + 1 ==> lies_in_order(listing@, ip, code@.len()),
{
    let mut listing: Vec<Instruction> = Vec::new();
    let mut at: usize = 0;
    let mut address: u64 = ip;
    proof {
        assert(code@.skip(0) =~= code@);
    }
    while at < code.len()
        invariant
            at <= code.len(),
            listing@ + instructions(code@.skip(at as int), address) == instructions(code@, ip),
            operand_counts_bounded(listing@),
            total_len(listing@) == at,
            ip + at <= u64::MAX ==> address == ip + at,
            ip + code.len() <= u64::MAX + 1 ==> lies_in_order(listing@, ip, at as nat),
        decreases code.len() - at,
    {
        let rest: &[u8] = slice_subrange(code, at, code.len());
        let instruction: Instruction = decode(rest, address);
        let ghost before = listing@;
        listing.push(instruction);
        proof {
            assert(listing@.drop_last() =~= before);
            assert(rest@ =~= code@.skip(at as int));
            assert(rest@.skip(instruction.len as int) =~= code@.skip(at + instruction.len));
            assert(before + (seq![instruction] + instructions(
                code@.skip(at + instruction.len),
                advance(address, instruction.len as int),
            )) =~= listing@ + instructions(
                code@.skip(at + instruction.len),
                advance(address, instruction.len as int),
            ));
        }
        at += instruction.len;
        address = address.wrapping_add(instruction.len as u64);
    }
    proof {
        assert(listing@ + Seq::<Instruction>::empty() =~= listing@);
    }
    listing
}

/// Tells whether the operand with number `k` is the address `target`.
fn operand_matches(instruction: &Instruction, k: u32, target: u64) -> (yes: bool)
    requires
        k < MAX_OPERANDS,
    ensures
        yes == operand_is(*instruction, k as int, target),
{
    match instruction.operands[k as usize] {
        Operand::Memory => !instruction.has_base && !instruction.has_index
            && instruction.displacement == target,
        Operand::Immediate64 => instruction.immediate64 == target,
        Operand::Immediate32 => instruction.immediate32 as u64 == target,
        Operand::Other => false,
    }
}

/// Counts how often an instruction refers to the address `target`.
pub fn count_mentions(instruction: &Instruction, target: u64) -> (count: usize)
    requires
        instruction.operand_count <= MAX_OPERANDS,
    ensures
        count == mentions(*instruction, target),
{
    if instruction.invalid {
        return 0;
    }
    let mut count: usize = 0;
    if instruction.ip_relative && instruction.ip_relative_address == target {
        count = 1;
    }
    let ghost relative: nat = count as nat;
    let mut k: u32 = 0;
    while k < instruction.operand_count
        invariant
            k <= instruction.operand_count <= MAX_OPERANDS,
            relative <= 1,
            count == relative + operands_that_are(*instruction, k as int, target),
            count <= k + 1,
        decreases instruction.operand_count - k,
    {
        if operand_matches(instruction, k, target) {
            count += 1;
        }
        k += 1;
    }
    count
}

/// The addresses of the instructions of a listing that refer to `target`.
pub fn find_references(listing: &[Instruction], target: u64) -> (found: Vec<u64>)
    requires
        operand_counts_bounded(listing@),
    ensures
        found@ == references(listing@, target),
{
    let mut found: Vec<u64> = Vec::new();
    let mut k: usize = 0;
    proof {
        assert(listing@.skip(0) =~= listing@);
    }
    while k < listing.len()
        invariant
            k <= listing.len(),
            operand_counts_bounded(listing@),
            found@ + references(listing@.skip(k as int), target) == references(listing@, target),
        decreases listing.len() - k,
    {
        let instruction: Instruction = listing[k];
        let count: usize = count_mentions(&instruction, target);
        let ghost before = found@;
        let mut n: usize = 0;
        while n < count
            invariant
                n <= count,
                found@ == before + Seq::new(n as nat, |j: int| instruction.ip),
            decreases count - n,
        {
            found.push(instruction.ip);
            n += 1;
            assert(found@ =~= before + Seq::new(n as nat, |j: int| instruction.ip));
        }
        proof {
            let rest = listing@.skip(k as int);
            assert(rest[0] == instruction);
            assert(rest.skip(1) =~= listing@.skip(k + 1));
            assert(Seq::new(count as nat, |j: int| instruction.ip) =~= Seq::new(
                mentions(rest[0], target),
                |j: int| rest[0].ip,
            ));
            assert(found@ + references(listing@.skip(k + 1), target) =~= before + references(
                rest,
                target,
            ));
        }
        k += 1;
    }
    proof {
        assert(found@ + Seq::<u64>::empty() =~= found@);
    }
    found
}

} // verus!
