//! The parts of an ELF file that the analysis reads, as plain values.
//!
//! The `elf` crate does the parsing. Each function here hands it the bytes of
//! the whole file and turns what comes back into the types of this module.

use elf::endian::AnyEndian;
use elf::section::SectionHeader;
use elf::ElfBytes;
use vstd::prelude::*;

verus! {

/// The type of a segment that is mapped into memory.
pub const PT_LOAD: u32 = 1;

/// The type of a section that occupies no space in the file.
pub const SHT_NOBITS: u32 = 8;

/// The flag of a section whose data is compressed.
pub const SHF_COMPRESSED: u64 = 0x800;

/// A section header.
#[derive(Clone, Copy, Debug, PartialEq, Eq)]
pub struct Section {
    pub sh_name: u32,
    pub sh_type: u32,
    pub sh_flags: u64,
    pub sh_addr: u64,
    pub sh_offset: u64,
    pub sh_size: u64,
    pub sh_link: u32,
    pub sh_info: u32,
    pub sh_addralign: u64,
    pub sh_entsize: u64,
}

/// What the analysis reads of a program header.
#[derive(Clone, Copy, Debug, PartialEq, Eq)]
pub struct Segment {
    pub p_type: u32,
    pub p_offset: u64,
    pub p_vaddr: u64,
    pub p_memsz: u64,
}

/// What `elf::ElfBytes::minimal_parse` says of the bytes of a file, as far as
/// it succeeds.
pub uninterp spec fn elf_header(file: Seq<u8>) -> Result<(), elf::ParseError>;

/// The section header that `elf::ElfBytes::section_header_by_name` finds.
pub uninterp spec fn elf_section_by_name(file: Seq<u8>, name: Seq<char>) -> Result<
    Option<Section>,
    elf::ParseError,
>;

/// The program headers that `elf::ElfBytes::segments` lists.
pub uninterp spec fn elf_segments(file: Seq<u8>) -> Result<Option<Seq<Segment>>, elf::ParseError>;

/// The bytes that `elf::ElfBytes::section_data` gives for a section.
pub uninterp spec fn elf_section_data(file: Seq<u8>, section: Section) -> Result<
    Seq<u8>,
    elf::ParseError,
>;

/// A list of segments that may be absent, taken by its view.
pub open spec fn segments_view(
    listed: Result<Option<Vec<Segment>>, elf::ParseError>,
) -> Result<Option<Seq<Segment>>, elf::ParseError> {
    match listed {
        Ok(Some(segments)) => Ok(Some(segments@)),
        Ok(None) => Ok(None),
        Err(e) => Err(e),
    }
}

/// Bytes that may be absent, taken by their view.
pub open spec fn bytes_view(
    bytes: Result<&[u8], elf::ParseError>,
) -> Result<Seq<u8>, elf::ParseError> {
    match bytes {
        Ok(data) => Ok(data@),
        Err(e) => Err(e),
    }
}

/// What the header of a section says of its data: a section that takes no space
/// in the file has none; otherwise the header names a stretch of the file, which
/// has to lie in the file, and which is the data. Of a compressed section, the
/// data is the end of that stretch.
pub open spec fn is_data_of(
    file: Seq<u8>,
    section: Section,
    data: Result<Seq<u8>, elf::ParseError>,
) -> bool {
    let start: int = section.sh_offset as int;
    let end: int = section.sh_offset + section.sh_size;
    if section.sh_type == SHT_NOBITS {
        data matches Ok(bytes) && bytes == Seq::<u8>::empty()
    } else if end > file.len() {
        data is Err
    } else if section.sh_flags & SHF_COMPRESSED == 0 {
        data matches Ok(bytes) && bytes == file.subrange(start, end)
    } else {
        data matches Ok(bytes) ==> bytes.len() <= section.sh_size && bytes == file.subrange(
            end - bytes.len(),
            end,
        )
    }
}

/// Calls `elf::ElfBytes::minimal_parse`: whether it accepts the file, and the
/// error if it does not, is a function of the file's bytes.
#[verifier::external_body]
pub(crate) fn check_header(file: &[u8]) -> (checked: Result<(), elf::ParseError>)
    ensures
        checked == elf_header(file@),
{
    ElfBytes::<AnyEndian>::minimal_parse(file)?;
    Ok(())
}

/// Calls `elf::ElfBytes::section_header_by_name` on the parsed file: the header
/// found is a function of the file's bytes and the name. A file whose header
/// does not parse gives that error.
#[verifier::external_body]
pub(crate) fn section_by_name(file: &[u8], name: &str) -> (found: Result<
    Option<Section>,
    elf::ParseError,
>)
    ensures
        found == elf_section_by_name(file@, name@),
        elf_header(file@) is Err ==> found is Err,
{
    let elf = ElfBytes::<AnyEndian>::minimal_parse(file)?;
    let found = elf.section_header_by_name(name)?;
    Ok(found.map(|s| Section {
        sh_name: s.sh_name,
        sh_type: s.sh_type,
        sh_flags: s.sh_flags,
        sh_addr: s.sh_addr,
        sh_offset: s.sh_offset,
        sh_size: s.sh_size,
        sh_link: s.sh_link,
        sh_info: s.sh_info,
        sh_addralign: s.sh_addralign,
        sh_entsize: s.sh_entsize,
    }))
}

/// Calls `elf::ElfBytes::segments` on the parsed file and lists the program
/// headers of the table, in order: the list is a function of the file's bytes.
/// It is absent where the file has no program headers. A file whose header does
/// not parse gives that error.
#[verifier::external_body]
pub(crate) fn segments(file: &[u8]) -> (listed: Result<Option<Vec<Segment>>, elf::ParseError>)
    ensures
        segments_view(listed) == elf_segments(file@),
        elf_header(file@) is Err <==> listed is Err,
{
    let elf = ElfBytes::<AnyEndian>::minimal_parse(file)?;
    Ok(elf.segments().map(|table| table.iter().map(|p| Segment {
        p_type: p.p_type,
        p_offset: p.p_offset,
        p_vaddr: p.p_vaddr,
        p_memsz: p.p_memsz,
    }).collect()))
}

/// Calls `elf::ElfBytes::section_data` on the parsed file: the bytes are a
/// function of the file's bytes and the section header, and where the file's
/// header parses they are as the section header says (see [`is_data_of`]).
/// Compressed data comes without its compression header; how long that header
/// is, and when it is refused, is not stated. A file whose header does not parse
/// gives an error.
#[verifier::external_body]
pub(crate) fn section_data<'a>(file: &'a [u8], section: &Section) -> (data: Result<
    &'a [u8],
    elf::ParseError,
>)
    ensures
        bytes_view(data) == elf_section_data(file@, *section),
        elf_header(file@) is Ok ==> is_data_of(file@, *section, bytes_view(data)),
        elf_header(file@) is Err ==> data is Err,
{
    let Section { sh_name, sh_type, sh_flags, sh_addr, sh_offset, sh_size, .. } = *section;
    let Section { sh_link, sh_info, sh_addralign, sh_entsize, .. } = *section;
    let elf = ElfBytes::<AnyEndian>::minimal_parse(file)?;
    let (data, _) = elf.section_data(&SectionHeader {
        sh_name, sh_type, sh_flags, sh_addr, sh_offset, sh_size,
        sh_link, sh_info, sh_addralign, sh_entsize,
    })?;
    Ok(data)
}

} // verus!
