use dirt::disasm::{count_mentions, disassemble, find_references, Instruction, Operand};

fn single(code: &[u8], ip: u64) -> Instruction {
    let listing = disassemble(code, ip);
    assert_eq!(listing.len(), 1);
    listing[0]
}

#[test]
fn instructions_follow_each_other() {
    let code = [0xf3, 0x0f, 0x1e, 0xfa, 0x48, 0x8d, 0x3d, 0xf9, 0x0f, 0, 0, 0xc3];
    let listing = disassemble(&code, 0x401000);
    let places: Vec<(u64, usize)> = listing.iter().map(|i| (i.ip, i.len)).collect();
    assert_eq!(places, vec![(0x401000, 4), (0x401004, 7), (0x40100b, 1)]);
    assert!(disassemble(&[], 0x401000).is_empty());
}

#[test]
fn addresses_wrap_around() {
    let listing = disassemble(&[0x90, 0x90, 0x90], u64::MAX - 1);
    let places: Vec<u64> = listing.iter().map(|i| i.ip).collect();
    assert_eq!(places, vec![u64::MAX - 1, u64::MAX, 0]);
}

#[test]
fn a_cut_off_instruction_is_invalid() {
    let instruction = single(&[0x48, 0x8d, 0x3d, 0xf9], 0x1000);
    assert!(instruction.invalid);
    assert_eq!(instruction.len, 4);
    assert_eq!(count_mentions(&instruction, 0), 0);
}

#[test]
fn a_relative_operand_refers_to_its_address() {
    let instruction = single(&[0x48, 0x8d, 0x3d, 0xf9, 0x0f, 0, 0], 0x401004);
    assert!(instruction.ip_relative);
    assert_eq!(instruction.ip_relative_address, 0x402004);
    assert_eq!(instruction.operand_count, 2);
    assert_eq!(instruction.operands[1], Operand::Memory);
    assert!(instruction.has_base);
    assert_eq!(count_mentions(&instruction, 0x402004), 1);
    assert_eq!(count_mentions(&instruction, 0x402005), 0);
}

#[test]
fn an_absolute_operand_refers_to_its_address() {
    // mov rax, [402004h]
    let instruction = single(&[0x48, 0x8b, 0x04, 0x25, 0x04, 0x20, 0x40, 0], 0);
    assert!(!instruction.has_base && !instruction.has_index);
    assert_eq!(instruction.displacement, 0x402004);
    assert_eq!(count_mentions(&instruction, 0x402004), 1);
    // mov rax, [rbx + 402004h]
    let based = single(&[0x48, 0x8b, 0x83, 0x04, 0x20, 0x40, 0], 0);
    assert!(based.has_base);
    assert_eq!(count_mentions(&based, 0x402004), 0);
    // mov rax, [rbx*8 + 402004h]
    let indexed = single(&[0x48, 0x8b, 0x04, 0xdd, 0x04, 0x20, 0x40, 0], 0);
    assert!(indexed.has_index);
    assert_eq!(count_mentions(&indexed, 0x402004), 0);
}

#[test]
fn an_immediate_refers_to_its_value() {
    // mov rax, 1122334455667788h
    let wide = single(&[0x48, 0xb8, 0x88, 0x77, 0x66, 0x55, 0x44, 0x33, 0x22, 0x11], 0);
    assert_eq!(wide.operands[1], Operand::Immediate64);
    assert_eq!(count_mentions(&wide, 0x1122334455667788), 1);
    // mov edi, 402004h
    let narrow = single(&[0xbf, 0x04, 0x20, 0x40, 0], 0);
    assert_eq!(narrow.operands[1], Operand::Immediate32);
    assert_eq!(count_mentions(&narrow, 0x402004), 1);
    // mov rdi, 402004h, an immediate that is extended
    let extended = single(&[0x48, 0xc7, 0xc7, 0x04, 0x20, 0x40, 0], 0);
    assert_eq!(extended.operands[1], Operand::Other);
    assert_eq!(count_mentions(&extended, 0x402004), 0);
}

#[test]
fn references_are_counted_as_often_as_they_occur() {
    // mov dword ptr [402004h], 402004h; nop; mov edi, 402004h
    let code = [
        0xc7, 0x04, 0x25, 0x04, 0x20, 0x40, 0, 0x04, 0x20, 0x40, 0, 0x90, 0xbf, 0x04, 0x20, 0x40, 0,
    ];
    let listing = disassemble(&code, 0x1000);
    assert_eq!(find_references(&listing, 0x402004), vec![0x1000, 0x1000, 0x100c]);
    assert!(find_references(&listing, 0x402005).is_empty());
}
