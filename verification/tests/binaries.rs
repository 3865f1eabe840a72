use dirt::analysis::{
    find_prologue_in, find_string_in, format_listing_line, list_instructions, select_loadable,
    string_in_range, ShfsAnalysis,
};
use dirt::elf_file::{Section, Segment};
use dirt::error::ShfsError;
use dirt::offsets::{FunctionEntry, FunctionOffsets};
use dirt::shfs::{checked_get_function_offsets, get_function_offsets, BinaryFile, Candidate, SHFS_BINARY_PATH};

const TEXT_ADDR: u64 = 0x401000;
const TEXT_OFFSET: u64 = 0x200;
const RODATA_ADDR: u64 = 0x402000;
const ENDBR64: [u8; 4] = [0xf3, 0x0f, 0x1e, 0xfa];

/// A 64-bit little-endian ELF file in the making.
struct Image {
    text: Vec<u8>,
    text_name: &'static str,
    rodata: Vec<u8>,
    rodata_name: &'static str,
    rodata_addr: u64,
    rodata_type: u32,
    rodata_flags: u64,
    rodata_missing_bytes: u64,
    segments: Vec<Segment>,
}

fn segment(p_type: u32, p_offset: u64, p_vaddr: u64, p_memsz: u64) -> Segment {
    Segment { p_type, p_offset, p_vaddr, p_memsz }
}

/// A file with the given code at `TEXT_ADDR` and the given data at `RODATA_ADDR`.
fn image(text: &[u8], rodata: &[u8]) -> Image {
    Image {
        text: text.to_vec(),
        text_name: ".text",
        rodata: rodata.to_vec(),
        rodata_name: ".rodata",
        rodata_addr: RODATA_ADDR,
        rodata_type: 1,
        rodata_flags: 0,
        rodata_missing_bytes: 0,
        segments: vec![
            segment(4, 0, TEXT_ADDR, 0x1000),
            segment(1, TEXT_OFFSET, TEXT_ADDR, 0x1000),
        ],
    }
}

impl Image {
    fn bytes(&self) -> Vec<u8> {
        let mut names = vec![0u8];
        let mut name_at = Vec::new();
        for name in [self.text_name, self.rodata_name, ".shstrtab"] {
            name_at.push(names.len() as u32);
            names.extend_from_slice(name.as_bytes());
            names.push(0);
        }
        let rodata_offset = TEXT_OFFSET + self.text.len() as u64;
        let names_offset = rodata_offset + self.rodata.len() as u64;
        let sections_offset = names_offset + names.len() as u64;

        let mut file = Vec::new();
        file.extend_from_slice(&[0x7f, b'E', b'L', b'F', 2, 1, 1, 0, 0, 0, 0, 0, 0, 0, 0, 0]);
        file.extend_from_slice(&2u16.to_le_bytes());
        file.extend_from_slice(&62u16.to_le_bytes());
        file.extend_from_slice(&1u32.to_le_bytes());
        let program_offset: u64 = if self.segments.is_empty() { 0 } else { 64 };
        for word in [TEXT_ADDR, program_offset, sections_offset] {
            file.extend_from_slice(&word.to_le_bytes());
        }
        file.extend_from_slice(&0u32.to_le_bytes());
        for half in [64u16, 56, self.segments.len() as u16, 64, 4, 3] {
            file.extend_from_slice(&half.to_le_bytes());
        }
        for s in &self.segments {
            file.extend_from_slice(&s.p_type.to_le_bytes());
            file.extend_from_slice(&5u32.to_le_bytes());
            for word in [s.p_offset, s.p_vaddr, s.p_vaddr, s.p_memsz, s.p_memsz, 1] {
                file.extend_from_slice(&word.to_le_bytes());
            }
        }
        file.resize(TEXT_OFFSET as usize, 0);
        file.extend_from_slice(&self.text);
        file.extend_from_slice(&self.rodata);
        file.extend_from_slice(&names);
        let rodata_size = self.rodata.len() as u64 + self.rodata_missing_bytes;
        let sections = [
            (0, 0, 0, 0, 0, 0),
            (name_at[0], 1, 0, TEXT_ADDR, TEXT_OFFSET, self.text.len() as u64),
            (name_at[1], self.rodata_type, self.rodata_flags, self.rodata_addr, rodata_offset, rodata_size),
            (name_at[2], 3, 0, 0, names_offset, names.len() as u64),
        ];
        for (name, kind, flags, addr, offset, size) in sections {
            file.extend_from_slice(&u32::to_le_bytes(name));
            file.extend_from_slice(&u32::to_le_bytes(kind));
            for word in [flags, addr, offset, size] {
                file.extend_from_slice(&word.to_le_bytes());
            }
            file.extend_from_slice(&[0; 8]);
            file.extend_from_slice(&1u64.to_le_bytes());
            file.extend_from_slice(&0u64.to_le_bytes());
        }
        file
    }
}

/// `lea rdi, [target]`, at `at` bytes into the code.
fn lea(at: u64, target: u64) -> Vec<u8> {
    let next = TEXT_ADDR + at + 7;
    let mut code = vec![0x48, 0x8d, 0x3d];
    code.extend_from_slice(&(target.wrapping_sub(next) as u32).to_le_bytes());
    code
}

/// Functions that each begin with `endbr64`, have `gap` bytes of `mov al, al`
/// after it, refer to a target, and return.
fn functions(parts: &[(usize, u64)]) -> Vec<u8> {
    let mut code: Vec<u8> = Vec::new();
    for &(gap, target) in parts {
        code.extend_from_slice(&ENDBR64);
        for _ in 0..gap / 2 {
            code.extend_from_slice(&[0x88, 0xc0]);
        }
        let reference = lea(code.len() as u64, target);
        code.extend_from_slice(&reference);
        code.push(0xc3);
    }
    code
}

fn offsets_of(names: &[&str], image: &Image) -> Option<Result<Vec<(String, u64)>, ShfsError>> {
    let file = image.bytes();
    checked_get_function_offsets(names, BinaryFile::Contents(&file)).map(|found| {
        found.map(|table| table.entries.into_iter().map(|e| (e.name, e.offset)).collect())
    })
}

fn found(names: &[&str], image: &Image) -> Vec<(String, u64)> {
    offsets_of(names, image).unwrap().unwrap()
}

fn failure(names: &[&str], image: &Image) -> ShfsError {
    offsets_of(names, image).unwrap().unwrap_err()
}

#[test]
fn a_function_is_found_through_its_name() {
    let image = image(&functions(&[(0, RODATA_ADDR + 4)]), b"xyz\0unlink\0");
    let file = image.bytes();
    let analysis = ShfsAnalysis::new(&file).unwrap();
    assert_eq!(analysis.text_section.sh_addr, TEXT_ADDR);
    assert_eq!(analysis.text_section.sh_offset, TEXT_OFFSET);
    assert_eq!(analysis.text_section.sh_size, 12);
    assert_eq!(analysis.loadable_segments, vec![segment(1, TEXT_OFFSET, TEXT_ADDR, 0x1000)]);
    assert_eq!(analysis.find_string_vaddr("unlink").unwrap(), RODATA_ADDR + 4);
    assert_eq!(analysis.find_string_refs_vaddr(RODATA_ADDR + 4).unwrap(), vec![TEXT_ADDR + 4]);
    assert_eq!(analysis.find_function_prologue_vaddr(TEXT_ADDR + 4).unwrap(), TEXT_ADDR);
    assert_eq!(analysis.vaddr_to_offset(TEXT_ADDR).unwrap(), TEXT_OFFSET);
    assert_eq!(found(&["unlink"], &image), vec![("unlink".to_string(), TEXT_OFFSET)]);
}

#[test]
fn the_listing_shows_the_instructions() {
    let image = image(&functions(&[(0, RODATA_ADDR + 4)]), b"xyz\0unlink\0");
    let file = image.bytes();
    let table = get_function_offsets(&["unlink"], BinaryFile::Contents(&file)).unwrap();
    assert_eq!(
        table.entries[0].listing,
        vec![
            "unlink: 0x0000000000401000 f3 0f 1e fa          endbr64",
            "unlink: 0x0000000000401004 48 8d 3d f9 0f 00 00  lea rdi,[402004h]",
            "unlink: 0x000000000040100b c3                   ret",
        ]
    );
    let analysis = ShfsAnalysis::new(&file).unwrap();
    assert_eq!(analysis.verify_function("end", TEXT_ADDR + 12).unwrap(), Vec::<String>::new());
    assert!(!analysis.function_in_range("end", TEXT_ADDR + 13));
    assert!(!analysis.function_in_range("end", TEXT_ADDR - 1));
}

#[test]
fn the_listing_stops_after_twenty_instructions() {
    let lines = list_instructions("f", &[0x90; 25], 0x1000, 20);
    assert_eq!(lines.len(), 20);
    assert_eq!(lines[19], "f: 0x0000000000001013 90                   nop");
    let image = image(&[0x90; 25], b"f\0");
    let file = image.bytes();
    assert_eq!(ShfsAnalysis::new(&file).unwrap().verify_function("f", TEXT_ADDR).unwrap().len(), 20);
}

#[test]
fn a_line_has_name_address_bytes_and_text() {
    assert_eq!(
        format_listing_line("f", 0x10, &[0xc3], "ret"),
        format!("{}: {:#018x} {:<20} {}", "f", 0x10, "c3 ", "ret")
    );
}

#[test]
fn the_closest_function_start_is_taken() {
    let image = image(&functions(&[(4, RODATA_ADDR), (2, RODATA_ADDR), (4, RODATA_ADDR)]), b"f\0");
    assert_eq!(found(&["f"], &image), vec![("f".to_string(), TEXT_OFFSET + 16)]);
}

#[test]
fn of_equally_close_function_starts_the_first_is_taken() {
    let image = image(&functions(&[(2, RODATA_ADDR), (2, RODATA_ADDR)]), b"f\0");
    assert_eq!(found(&["f"], &image), vec![("f".to_string(), TEXT_OFFSET)]);
}

#[test]
fn functions_never_share_an_offset() {
    // The second name is referred to from the first function, too.
    let mut code = functions(&[(0, RODATA_ADDR)]);
    code.pop();
    let at = code.len() as u64;
    code.extend_from_slice(&lea(at, RODATA_ADDR + 2));
    code.push(0xc3);
    let lonely = image(&code, b"f\0g\0");
    assert!(matches!(failure(&["f", "g"], &lonely), ShfsError::PrologueNotFound { name } if name == "g"));
    assert_eq!(found(&["g"], &lonely), vec![("g".to_string(), TEXT_OFFSET)]);

    // A function of its own that is farther away is taken then.
    let second = code.len() as u64;
    code.extend_from_slice(&ENDBR64);
    for _ in 0..8 {
        code.extend_from_slice(&[0x88, 0xc0]);
    }
    let at = code.len() as u64;
    code.extend_from_slice(&lea(at, RODATA_ADDR + 2));
    code.push(0xc3);
    let both = image(&code, b"f\0g\0");
    assert_eq!(
        found(&["f", "g"], &both),
        vec![("f".to_string(), TEXT_OFFSET), ("g".to_string(), TEXT_OFFSET + second)]
    );
    assert_eq!(found(&["f"], &both), vec![("f".to_string(), TEXT_OFFSET)]);
    assert_eq!(found(&["g"], &both), vec![("g".to_string(), TEXT_OFFSET)]);
}

#[test]
fn a_name_asked_for_twice_gets_the_later_offset() {
    let image = image(&functions(&[(0, RODATA_ADDR), (2, RODATA_ADDR)]), b"f\0");
    assert_eq!(found(&["f", "f"], &image), vec![("f".to_string(), TEXT_OFFSET + 12)]);
    // The first offset is free again then.
    assert_eq!(found(&["f", "f", "f"], &image), vec![("f".to_string(), TEXT_OFFSET)]);
    // A single function is not found twice.
    let single = self::image(&functions(&[(0, RODATA_ADDR)]), b"f\0");
    assert!(matches!(failure(&["f", "f"], &single), ShfsError::PrologueNotFound { name } if name == "f"));
}

#[test]
fn nothing_asked_for_nothing_found() {
    assert_eq!(found(&[], &image(&[0xc3], b"")), vec![]);
}

#[test]
fn the_search_for_a_function_start_is_limited() {
    let mut code = ENDBR64.to_vec();
    code.resize(4100, 0);
    assert_eq!(find_prologue_in(0x1000, &code, 0x1000 + 4096).unwrap(), 0x1000);
    let missed = find_prologue_in(0x1000, &code, 0x1000 + 4097).unwrap_err();
    assert!(matches!(missed, ShfsError::PrologueNotFound { name } if name == "0x2001"));
    // A reference at the very beginning has nothing before it.
    let first = find_prologue_in(0x1000, &code, 0x1000).unwrap_err();
    assert!(matches!(first, ShfsError::PrologueNotFound { name } if name == "0x1000"));
}

#[test]
fn a_name_ends_in_a_nul_byte() {
    assert_eq!(find_string_in(0x10, b"rename_at\0rename\0", "rename").unwrap(), 0x1a);
    let missed = find_string_in(0x10, b"rename_at\0", "rename").unwrap_err();
    assert!(matches!(missed, ShfsError::StringNotFound { name } if name == "rename"));
    assert_eq!(find_string_in(0x10, b"ab\0", "").unwrap(), 0x12);
    assert!(!string_in_range(0x10, b"ab\0", "a\0b"));
    assert!(string_in_range(u64::MAX - 1, b"ab\0", "b"));
    assert!(!string_in_range(u64::MAX, b"ab\0", "b"));
}

#[test]
fn a_missing_binary_is_reported() {
    let missing = get_function_offsets(&["f"], BinaryFile::Missing).unwrap_err();
    assert!(matches!(missing, ShfsError::BinaryNotFound { path } if path == "/usr/libexec/unraid/shfs"));
    assert_eq!(SHFS_BINARY_PATH, "/usr/libexec/unraid/shfs");
}

#[test]
fn an_unreadable_binary_is_reported() {
    let denied = std::io::Error::from(std::io::ErrorKind::PermissionDenied);
    match checked_get_function_offsets(&["f"], BinaryFile::Unreadable(denied)) {
        Some(Err(ShfsError::ReadError { path, source })) => {
            assert_eq!(path, SHFS_BINARY_PATH);
            assert_eq!(source.kind(), std::io::ErrorKind::PermissionDenied);
        }
        _ => panic!("a read error is expected"),
    }
}

#[test]
fn a_file_that_is_no_elf_file_is_refused() {
    let refused = get_function_offsets(&["f"], BinaryFile::Contents(b"#!/bin/sh\necho not an ELF file\n"));
    assert!(matches!(refused, Err(ShfsError::ElfParseError(elf::ParseError::BadMagic(_)))));
    assert!(matches!(ShfsAnalysis::new(&[]), Err(ShfsError::ElfParseError(_))));
}

#[test]
fn a_file_needs_code_and_segments() {
    let mut no_code = image(&functions(&[(0, RODATA_ADDR)]), b"f\0");
    no_code.text_name = ".code";
    assert!(matches!(failure(&["f"], &no_code), ShfsError::ExecSegmentNotFound));
    let mut no_segments = image(&functions(&[(0, RODATA_ADDR)]), b"f\0");
    no_segments.segments = vec![];
    assert!(matches!(failure(&["f"], &no_segments), ShfsError::ExecSegmentNotFound));
}

#[test]
fn a_file_needs_read_only_data() {
    let mut no_data = image(&functions(&[(0, RODATA_ADDR)]), b"f\0");
    no_data.rodata_name = ".data";
    assert!(matches!(failure(&["f"], &no_data), ShfsError::SectionNotFound { name } if name == ".rodata"));
}

#[test]
fn a_section_without_bytes_in_the_file_has_no_data() {
    let mut empty = image(&functions(&[(0, RODATA_ADDR)]), b"f\0");
    empty.rodata_type = 8;
    assert!(matches!(failure(&["f"], &empty), ShfsError::StringNotFound { name } if name == "f"));
}

#[test]
fn a_compressed_section_comes_without_its_compression_header() {
    let mut data = vec![0u8; 24];
    data[0] = 1;
    data.extend_from_slice(b"xyz\0f\0");
    let mut compressed = image(&functions(&[(0, RODATA_ADDR)]), &data);
    compressed.rodata_flags = 0x800;
    let file = compressed.bytes();
    assert_eq!(ShfsAnalysis::new(&file).unwrap().find_string_vaddr("f").unwrap(), RODATA_ADDR + 4);
    compressed.rodata.truncate(20);
    assert!(matches!(failure(&["f"], &compressed), ShfsError::ElfParseError(_)));
}

#[test]
fn a_section_beyond_the_file_is_refused() {
    let mut long = image(&functions(&[(0, RODATA_ADDR)]), b"f\0");
    long.rodata_missing_bytes = 0x10000;
    assert!(matches!(failure(&["f"], &long), ShfsError::ElfParseError(_)));
}

#[test]
fn a_name_that_does_not_occur_is_reported() {
    let image = image(&functions(&[(0, RODATA_ADDR)]), b"f\0");
    assert!(matches!(failure(&["g"], &image), ShfsError::StringNotFound { name } if name == "g"));
    assert!(matches!(failure(&["f", "g"], &image), ShfsError::StringNotFound { name } if name == "g"));
}

#[test]
fn a_name_that_nothing_refers_to_is_reported() {
    let image = image(&functions(&[(0, RODATA_ADDR)]), b"f\0g\0");
    assert!(matches!(failure(&["g"], &image), ShfsError::StringRefNotFound { name } if name == "0x402002"));
}

#[test]
fn a_reference_without_function_start_is_reported() {
    let image = image(&lea(0, RODATA_ADDR), b"f\0");
    assert!(matches!(failure(&["f"], &image), ShfsError::PrologueNotFound { name } if name == "f"));
}

#[test]
fn a_function_that_is_not_loaded_is_reported() {
    let mut elsewhere = image(&functions(&[(0, RODATA_ADDR)]), b"f\0");
    elsewhere.segments = vec![segment(1, 0, 0x500000, 0x1000)];
    assert!(matches!(failure(&["f"], &elsewhere), ShfsError::AddressNotLoadable { addr: TEXT_ADDR }));
    // Segments of other types are not loaded.
    elsewhere.segments = vec![segment(2, TEXT_OFFSET, TEXT_ADDR, 0x1000)];
    assert!(matches!(failure(&["f"], &elsewhere), ShfsError::AddressNotLoadable { addr: TEXT_ADDR }));
}

#[test]
fn addresses_beyond_the_last_one_are_told() {
    let mut high_data = image(&functions(&[(0, RODATA_ADDR)]), b"xyz\0f\0");
    high_data.rodata_addr = u64::MAX - 3;
    assert!(offsets_of(&["f"], &high_data).is_none());
    let mut long_segment = image(&functions(&[(0, RODATA_ADDR)]), b"f\0");
    long_segment.segments = vec![segment(1, TEXT_OFFSET, TEXT_ADDR, u64::MAX)];
    assert!(offsets_of(&["f"], &long_segment).is_none());
    let plain = image(&functions(&[(0, RODATA_ADDR)]), b"f\0");
    assert!(offsets_of(&["a\0b"], &plain).is_none());
}

#[test]
fn offsets_keep_distance_within_a_segment() {
    let section = Section {
        sh_name: 0,
        sh_type: 1,
        sh_flags: 0,
        sh_addr: 0,
        sh_offset: 0,
        sh_size: 0,
        sh_link: 0,
        sh_info: 0,
        sh_addralign: 1,
        sh_entsize: 0,
    };
    let analysis = ShfsAnalysis {
        file: &[],
        text_section: section,
        loadable_segments: vec![
            segment(1, 0x100, 0x1000, 0x10),
            segment(1, 0x900, 0x1008, 0x10),
            segment(1, u64::MAX, 0x3000, 0x10),
        ],
    };
    assert_eq!(analysis.vaddr_to_offset(0x1000).unwrap(), 0x100);
    assert_eq!(analysis.vaddr_to_offset(0x100f).unwrap(), 0x10f);
    // The second segment is looked at only where the first does not reach.
    assert_eq!(analysis.vaddr_to_offset(0x1010).unwrap(), 0x908);
    assert_eq!(analysis.vaddr_to_offset(0x1017).unwrap(), 0x90f);
    assert!(matches!(
        analysis.vaddr_to_offset(0x1018),
        Err(ShfsError::AddressNotLoadable { addr: 0x1018 })
    ));
    assert!(matches!(
        analysis.vaddr_to_offset(0xfff),
        Err(ShfsError::AddressNotLoadable { addr: 0xfff })
    ));
    assert!(analysis.offset_in_range(0x3000));
    assert!(!analysis.offset_in_range(0x3001));

    let near = Candidate { vaddr: 0x1000, distance: 4 };
    let far = Candidate { vaddr: 0x1001, distance: 9 };
    let mut table = FunctionOffsets::new();
    assert_eq!(analysis.find_closest_free(&[far, near], &table), Some(near));
    table.record(FunctionEntry { name: "f".to_string(), offset: 0x100, listing: vec![] });
    assert_eq!(analysis.find_closest_free(&[far, near], &table), Some(far));
    assert_eq!(analysis.find_closest_free(&[near], &table), None);
    // What is not loaded counts as lying at offset zero.
    let unloaded = Candidate { vaddr: 0x5000, distance: 1 };
    assert_eq!(analysis.find_closest_free(&[unloaded], &table), Some(unloaded));
    table.record(FunctionEntry { name: "g".to_string(), offset: 0, listing: vec![] });
    assert_eq!(analysis.find_closest_free(&[unloaded], &table), None);
}

#[test]
fn only_loadable_segments_are_selected() {
    let listed = [segment(4, 1, 1, 1), segment(1, 2, 2, 2), segment(6, 3, 3, 3), segment(1, 4, 4, 4)];
    assert_eq!(select_loadable(&listed), vec![listed[1], listed[3]]);
}

#[test]
fn a_table_holds_the_last_offset_of_a_name() {
    let entry = |name: &str, offset: u64| FunctionEntry { name: name.to_string(), offset, listing: vec![] };
    let mut table = FunctionOffsets::new();
    assert_eq!(table.get("f"), None);
    table.record(entry("f", 1));
    table.record(entry("g", 2));
    table.record(entry("f", 3));
    assert_eq!((table.get("f"), table.get("g"), table.get("h")), (Some(3), Some(2), None));
    assert!(table.contains_offset(3) && table.contains_offset(2) && !table.contains_offset(1));
    assert_eq!(table.entries.len(), 2);
}
