//! The analysis of the `shfs` binary: from a function's name to its code.
//!
//! The binary is stripped, so a function is found through its name as a string:
//! the string in `.rodata`, the instructions of `.text` that refer to it, and
//! the function starts before those.
//!
//! The headers of a file can hold any numbers, so an address computed from them
//! may lie outside the 64-bit range or outside the section that it should lie
//! in. The models below are `None` on such files, and the functions may not be
//! called on them; the functions whose names end in `_in_range` tell.

use crate::bytes::{
    find_bytes, first_occurrence, first_occurrence_holds_the_pattern, first_occurrence_is_first, stands_at,
};
use crate::disasm::{
    decode, decoded, disassemble, find_references, instructions, intel_syntax, intel_text,
    references, references_are_mentions, references_are_operands, Instruction, Operand,
};
use crate::elf_file::{
    check_header, elf_header, elf_section_by_name, elf_section_data, elf_segments, section_by_name,
    section_data, segments, Section, Segment, PT_LOAD,
};
use crate::error::{modelled, ErrorModel, ShfsError};
use crate::hex::{
    address_hex, align_left, format_address, format_bytes, format_hex, left_aligned, prefixed_hex,
    spaced_bytes_read_back, spaced_hex,
};
use crate::prologue::{
    find_last_function_start, is_function_start, last_function_start, last_function_start_is_last,
};
use vstd::prelude::*;
use vstd::slice::slice_subrange;
use vstd::string::*;
use vstd::utf8::encode_utf8;

verus! {

/// How far before a reference the start of its function is searched.
pub const SEARCH_LIMIT: usize = 4096;

/// How many instructions of a function are listed.
pub const LISTING_LIMIT: usize = 20;

/// A binary under analysis.
pub struct ShfsAnalysis<'a> {
    /// The bytes of the file.
    pub file: &'a [u8],
    /// The header of the `.text` section.
    pub text_section: Section,
    /// The segments that are mapped into memory.
    pub loadable_segments: Vec<Segment>,
}

/// The mathematical value of a [`ShfsAnalysis`].
pub struct AnalysisModel {
    pub file: Seq<u8>,
    pub text_section: Section,
    pub loadable_segments: Seq<Segment>,
}

impl<'a> View for ShfsAnalysis<'a> {
    type V = AnalysisModel;

    open spec fn view(&self) -> AnalysisModel {
        AnalysisModel {
            file: self.file@,
            text_section: self.text_section,
            loadable_segments: self.loadable_segments@,
        }
    }
}

impl<'a> DeepView for ShfsAnalysis<'a> {
    type V = AnalysisModel;

    open spec fn deep_view(&self) -> AnalysisModel {
        self@
    }
}

/// The segments that are mapped into memory.
pub open spec fn loadable(listed: Seq<Segment>) -> Seq<Segment> {
    listed.filter(|segment: Segment| segment.p_type == PT_LOAD)
}

/// The analysis of a file, or the reason why it cannot be analysed.
pub open spec fn analysis_of(file: Seq<u8>) -> Result<AnalysisModel, ErrorModel> {
    if let Err(e) = elf_header(file) {
        Err(ErrorModel::ElfParseError(e))
    } else {
        match elf_section_by_name(file, ".text"@) {
            Err(e) => Err(ErrorModel::ElfParseError(e)),
            Ok(None) => Err(ErrorModel::ExecSegmentNotFound),
            Ok(Some(text_section)) => match elf_segments(file) {
                Err(e) => Err(ErrorModel::ElfParseError(e)),
                Ok(None) => Err(ErrorModel::ExecSegmentNotFound),
                Ok(Some(listed)) => Ok(
                    AnalysisModel { file, text_section, loadable_segments: loadable(listed) },
                ),
            },
        }
    }
}

/// The segment holds the virtual address.
pub open spec fn covers(segment: Segment, vaddr: u64) -> bool {
    segment.p_vaddr <= vaddr < segment.p_vaddr + segment.p_memsz
}

/// The first of the segments that holds the virtual address.
pub open spec fn first_covering(segments: Seq<Segment>, vaddr: u64) -> Option<Segment>
    decreases segments.len(),
{
    if segments.len() == 0 {
        None
    } else if covers(segments[0], vaddr) {
        Some(segments[0])
    } else {
        first_covering(segments.skip(1), vaddr)
    }
}

/// The first covering segment is one of the segments and holds the address, and
/// no segment before it does; there is none only if no segment holds the address.
pub proof fn first_covering_is_first(segments: Seq<Segment>, vaddr: u64)
    ensures
        match first_covering(segments, vaddr) {
            Some(segment) => exists|k: int|
                {
                    &&& 0 <= k < segments.len()
                    &&& #[trigger] segments[k] == segment
                    &&& covers(segment, vaddr)
                    &&& forall|j: int| 0 <= j < k ==> !covers(#[trigger] segments[j], vaddr)
                },
            None => forall|j: int|
                0 <= j < segments.len() ==> !covers(#[trigger] segments[j], vaddr),
        },
    decreases segments.len(),
{
    if segments.len() > 0 && !covers(segments[0], vaddr) {
        let rest = segments.skip(1);
        first_covering_is_first(rest, vaddr);
        assert forall|j: int| 0 < j < segments.len() implies rest[j - 1] == #[trigger] segments[j] by {}
        if let Some(segment) = first_covering(segments, vaddr) {
            let k = choose|k: int|
                {
                    &&& 0 <= k < rest.len()
                    &&& #[trigger] rest[k] == segment
                    &&& forall|j: int| 0 <= j < k ==> !covers(#[trigger] rest[j], vaddr)
                };
            assert(segments[k + 1] == segment);
        }
    }
}

/// One line of the listing of a function: the name of the function, the address,
/// the bytes and the text of an instruction.
pub open spec fn listing_line(
    func_name: Seq<char>,
    ip: u64,
    bytes: Seq<u8>,
    text: Seq<char>,
) -> Seq<char> {
    func_name + ": "@ + address_hex(ip) + " "@ + left_aligned(spaced_hex(bytes), 20) + " "@ + text
}

/// Each of the first `limit` instructions of `code`, which lies at the address
/// `ip`, lies at a 64-bit address.
pub open spec fn listing_fits(code: Seq<u8>, ip: int, limit: nat) -> bool
    decreases limit,
{
    if limit == 0 || code.len() == 0 {
        true
    } else {
        let len: int = decoded(code, ip as u64).len as int;
        ip <= u64::MAX && listing_fits(code.skip(len), ip + len, (limit - 1) as nat)
    }
}

/// The lines for the first `limit` instructions of `code`, which lies at the
/// address `ip`.
pub open spec fn listing_lines(
    func_name: Seq<char>,
    code: Seq<u8>,
    ip: int,
    limit: nat,
) -> Seq<Seq<char>>
    decreases limit,
{
    if limit == 0 || code.len() == 0 {
        Seq::empty()
    } else {
        let len: int = decoded(code, ip as u64).len as int;
        let line = listing_line(func_name, ip as u64, code.take(len), intel_text(code, ip as u64));
        seq![line] + listing_lines(func_name, code.skip(len), ip + len, (limit - 1) as nat)
    }
}

impl AnalysisModel {
    /// The bytes of the `.text` section.
    pub open spec fn text_data(self) -> Result<Seq<u8>, elf::ParseError> {
        elf_section_data(self.file, self.text_section)
    }

    /// The addresses of the binary stay in range: neither `.rodata` nor `.text`
    /// reaches beyond the last address, and no loadable segment does, be it in
    /// memory or in the file.
    pub open spec fn well_placed(self) -> bool {
        &&& elf_section_by_name(self.file, ".rodata"@) matches Ok(Some(rodata)) ==> (
        elf_section_data(self.file, rodata) matches Ok(data) ==> rodata.sh_addr + data.len()
            <= u64::MAX + 1)
        &&& self.text_data() matches Ok(code) ==> self.text_section.sh_addr + code.len() <= u64::MAX
            + 1
        &&& forall|k: int|
            0 <= k < self.loadable_segments.len() ==> {
                let segment = #[trigger] self.loadable_segments[k];
                &&& segment.p_vaddr + segment.p_memsz <= u64::MAX
                &&& segment.p_offset + segment.p_memsz <= u64::MAX
            }
    }

    /// The position in the file of what is loaded at a virtual address.
    pub open spec fn offset_of(self, vaddr: u64) -> Option<Result<u64, ErrorModel>> {
        match first_covering(self.loadable_segments, vaddr) {
            None => Some(Err(ErrorModel::AddressNotLoadable { addr: vaddr })),
            Some(segment) => {
                let offset: int = segment.p_offset + (vaddr - segment.p_vaddr);
                if segment.p_vaddr + segment.p_memsz > u64::MAX || offset > u64::MAX {
                    None
                } else {
                    Some(Ok(offset as u64))
                }
            },
        }
    }

    /// The virtual address of the first place in `.rodata` that holds a name
    /// with a NUL byte after it.
    pub open spec fn string_vaddr(self, func_name: Seq<char>) -> Option<Result<u64, ErrorModel>> {
        match elf_section_by_name(self.file, ".rodata"@) {
            Err(e) => Some(Err(ErrorModel::ElfParseError(e))),
            Ok(None) => Some(Err(ErrorModel::SectionNotFound { name: ".rodata"@ })),
            Ok(Some(rodata)) => match elf_section_data(self.file, rodata) {
                Err(e) => Some(Err(ErrorModel::ElfParseError(e))),
                Ok(data) => string_vaddr_in(rodata.sh_addr, data, func_name),
            },
        }
    }

    /// The addresses of the instructions of `.text` that refer to an address.
    pub open spec fn string_refs(self, string_vaddr: u64) -> Result<Seq<u64>, ErrorModel> {
        match self.text_data() {
            Err(e) => Err(ErrorModel::ElfParseError(e)),
            Ok(code) => {
                let refs = references(instructions(code, self.text_section.sh_addr), string_vaddr);
                if refs.len() == 0 {
                    Err(ErrorModel::StringRefNotFound { name: prefixed_hex(string_vaddr as nat) })
                } else {
                    Ok(refs)
                }
            },
        }
    }

    /// The address of the last function start before a reference, at most
    /// [`SEARCH_LIMIT`] bytes away.
    pub open spec fn prologue_vaddr(self, ref_vaddr: u64) -> Option<Result<u64, ErrorModel>> {
        match self.text_data() {
            Err(e) => Some(Err(ErrorModel::ElfParseError(e))),
            Ok(code) => prologue_vaddr_in(self.text_section.sh_addr, code, ref_vaddr),
        }
    }

    /// The listing of the function at an address.
    pub open spec fn listing(self, func_name: Seq<char>, vaddr: u64) -> Option<
        Result<Seq<Seq<char>>, ErrorModel>,
    > {
        match self.text_data() {
            Err(e) => Some(Err(ErrorModel::ElfParseError(e))),
            Ok(code) => {
                let at: int = vaddr - self.text_section.sh_addr;
                if 0 <= at <= code.len() && listing_fits(
                    code.skip(at),
                    vaddr as int,
                    LISTING_LIMIT as nat,
                ) {
                    Some(
                        Ok(
                            listing_lines(
                                func_name,
                                code.skip(at),
                                vaddr as int,
                                LISTING_LIMIT as nat,
                            ),
                        ),
                    )
                } else {
                    None
                }
            },
        }
    }
}

/// In a binary whose `.text` section does not reach beyond the last address, each
/// of the references lies in the section, so that the function start before it
/// can be searched.
pub open spec fn refs_lie_in_text(analysis: AnalysisModel, refs: Seq<u64>) -> bool {
    forall|r: u64| #[trigger]
        refs.contains(r) ==> (analysis.text_data() matches Ok(code) && {
            let addr = analysis.text_section.sh_addr;
            addr + code.len() <= u64::MAX + 1 ==> addr <= r < addr + code.len()
                && analysis.prologue_vaddr(r) is Some
        })
}

/// The address of the first place that holds a name with a NUL byte after it,
/// in data that lies at the address `addr`.
pub open spec fn string_vaddr_in(addr: u64, data: Seq<u8>, func_name: Seq<char>) -> Option<
    Result<u64, ErrorModel>,
> {
    let name: Seq<u8> = encode_utf8(func_name);
    if name.contains(0) {
        None
    } else {
        match first_occurrence(data, name.push(0), 0) {
            None => Some(Err(ErrorModel::StringNotFound { name: func_name })),
            Some(at) => if addr + at > u64::MAX {
                None
            } else {
                Some(Ok((addr + at) as u64))
            },
        }
    }
}

/// Where the search for a function start before the position `end` stops.
pub open spec fn search_start(end: int) -> int {
    if end > SEARCH_LIMIT {
        end - SEARCH_LIMIT
    } else {
        0
    }
}

/// The address of the last function start before a reference in code that lies
/// at the address `addr`, at most [`SEARCH_LIMIT`] bytes away.
pub open spec fn prologue_vaddr_in(addr: u64, code: Seq<u8>, ref_vaddr: u64) -> Option<
    Result<u64, ErrorModel>,
> {
    let end: int = ref_vaddr - addr;
    if !(0 <= end <= code.len()) {
        None
    } else {
        let start: int = search_start(end);
        match last_function_start(code.subrange(start, end), end - start) {
            None => Some(
                Err(ErrorModel::PrologueNotFound { name: prefixed_hex(ref_vaddr as nat) }),
            ),
            Some(at) => Some(Ok((addr + start + at) as u64)),
        }
    }
}

/// The address found for a name is where the name stands in the data, with a NUL
/// byte after it, and it does not stand so anywhere before. The name is reported
/// missing exactly if it stands so nowhere.
pub proof fn string_is_where_it_was_found(addr: u64, data: Seq<u8>, func_name: Seq<char>)
    ensures
        match string_vaddr_in(addr, data, func_name) {
            Some(Ok(vaddr)) => {
                let name = encode_utf8(func_name).push(0);
                &&& addr <= vaddr
                &&& stands_at(data, vaddr - addr, name)
                &&& forall|k: int| 0 <= k < vaddr - addr ==> !stands_at(data, k, name)
            },
            Some(Err(e)) => {
                &&& e == ErrorModel::StringNotFound { name: func_name }
                &&& forall|k: int| !stands_at(data, k, encode_utf8(func_name).push(0))
            },
            None => {
                ||| encode_utf8(func_name).contains(0)
                ||| exists|k: int|
                    stands_at(data, k, encode_utf8(func_name).push(0)) && addr + k > u64::MAX
            },
        },
{
    first_occurrence_is_first(data, encode_utf8(func_name).push(0), 0);
}

/// Two addresses that the same segment is first to hold are as far apart in the
/// file as in memory.
pub proof fn offsets_keep_distance(analysis: AnalysisModel, low: u64, high: u64)
    requires
        first_covering(analysis.loadable_segments, low) is Some,
        first_covering(analysis.loadable_segments, low) == first_covering(
            analysis.loadable_segments,
            high,
        ),
    ensures
        (analysis.offset_of(low), analysis.offset_of(high)) matches (
            Some(Ok(low_offset)),
            Some(Ok(high_offset)),
        ) ==> high_offset - low_offset == high - low,
{
    first_covering_is_first(analysis.loadable_segments, low);
    first_covering_is_first(analysis.loadable_segments, high);
}

/// In a binary whose addresses stay in range, every name without a NUL byte can
/// be searched, and every address can be converted to a file offset.
pub proof fn well_placed_binaries_can_be_searched(
    analysis: AnalysisModel,
    func_name: Seq<char>,
    vaddr: u64,
)
    requires
        analysis.well_placed(),
    ensures
        !encode_utf8(func_name).contains(0) ==> analysis.string_vaddr(func_name) is Some,
        analysis.offset_of(vaddr) is Some,
{
    if let Ok(Some(rodata)) = elf_section_by_name(analysis.file, ".rodata"@) {
        if let Ok(data) = elf_section_data(analysis.file, rodata) {
            first_occurrence_is_first(data, encode_utf8(func_name).push(0), 0);
        }
    }
    first_covering_is_first(analysis.loadable_segments, vaddr);
}

/// A function start lies before the reference it was searched from, at most
/// [`SEARCH_LIMIT`] bytes away, and in the code. The bytes there look like the
/// beginning of a function, and no later position before the reference does.
pub proof fn prologue_is_closest(addr: u64, code: Seq<u8>, ref_vaddr: u64)
    ensures
        prologue_vaddr_in(addr, code, ref_vaddr) matches Some(Ok(vaddr)) ==> {
            let end: int = ref_vaddr - addr;
            let start: int = search_start(end);
            let window = code.subrange(start, end);
            &&& addr <= vaddr < ref_vaddr <= addr + code.len()
            &&& ref_vaddr - vaddr <= SEARCH_LIMIT
            &&& is_function_start(window, vaddr - addr - start)
            &&& forall|k: int|
                vaddr - addr - start < k < window.len() ==> !is_function_start(window, k)
        },
{
    let end: int = ref_vaddr - addr;
    if 0 <= end <= code.len() {
        let start: int = search_start(end);
        last_function_start_is_last(code.subrange(start, end), end - start);
    }
}

/// A listing has at most as many lines as asked for, and code that is not empty
/// has at least one.
pub proof fn listing_is_limited(
    func_name: Seq<char>,
    code: Seq<u8>,
    ip: int,
    limit: nat,
)
    ensures
        listing_lines(func_name, code, ip, limit).len() <= limit,
        limit > 0 && code.len() > 0 ==> listing_lines(func_name, code, ip, limit).len() > 0,
    decreases limit,
{
    if limit > 0 && code.len() > 0 {
        let len: int = decoded(code, ip as u64).len as int;
        listing_is_limited(func_name, code.skip(len), ip + len, (limit - 1) as nat);
    }
}

/// A reference in the code, or right after it, can be searched from, and no other
/// address. The 4096 bytes before it, or all of them if there are fewer, are
/// searched wherever in the code it lies: the search succeeds exactly if a
/// function may begin at one of them, and gives the last such place. It fails
/// only if there is none.
pub proof fn prologue_is_found_if_there_is_one(addr: u64, code: Seq<u8>, ref_vaddr: u64)
    ensures
        prologue_vaddr_in(addr, code, ref_vaddr) is Some <==> addr <= ref_vaddr <= addr + code.len(),
        addr <= ref_vaddr <= addr + code.len() ==> {
            let end: int = ref_vaddr - addr;
            let start: int = if end < 4096 {
                0
            } else {
                end - 4096
            };
            let window = code.subrange(start, end);
            match prologue_vaddr_in(addr, code, ref_vaddr) {
                Some(Ok(vaddr)) => {
                    let at: int = vaddr - addr - start;
                    &&& 0 <= at < window.len()
                    &&& is_function_start(window, at)
                    &&& forall|k: int| at < k < window.len() ==> !is_function_start(window, k)
                },
                Some(Err(e)) => {
                    &&& e == ErrorModel::PrologueNotFound { name: prefixed_hex(ref_vaddr as nat) }
                    &&& forall|k: int| 0 <= k < window.len() ==> !is_function_start(window, k)
                },
                None => false,
            }
        },
{
    let end: int = ref_vaddr - addr;
    if 0 <= end <= code.len() {
        let start: int = search_start(end);
        last_function_start_is_last(code.subrange(start, end), end - start);
    }
}

/// A binary's function start before a reference is searched in the data of its
/// `.text` section, at the address of that section.
pub proof fn prologue_is_searched_in_text(analysis: AnalysisModel, ref_vaddr: u64)
    ensures
        match elf_section_data(analysis.file, analysis.text_section) {
            Err(e) => analysis.prologue_vaddr(ref_vaddr) == Some(
                Err::<u64, _>(ErrorModel::ElfParseError(e)),
            ),
            Ok(code) => analysis.prologue_vaddr(ref_vaddr) == prologue_vaddr_in(
                analysis.text_section.sh_addr,
                code,
                ref_vaddr,
            ),
        },
{
}

/// A segment that holds an address is the first one if none before it does.
proof fn lemma_first_covering(segments: Seq<Segment>, vaddr: u64, k: int)
    requires
        0 <= k < segments.len(),
        covers(segments[k], vaddr),
        forall|j: int| 0 <= j < k ==> !covers(#[trigger] segments[j], vaddr),
    ensures
        first_covering(segments, vaddr) == Some(segments[k]),
    decreases segments.len(),
{
    if k > 0 {
        let rest = segments.skip(1);
        assert(!covers(segments[0], vaddr));
        assert forall|j: int| 0 <= j < k - 1 implies !covers(#[trigger] rest[j], vaddr) by {
            assert(rest[j] == segments[j + 1]);
        }
        assert(rest[k - 1] == segments[k]);
        lemma_first_covering(rest, vaddr, k - 1);
    }
}

/// An address in a loadable segment lies as far behind the segment's place in the
/// file as it lies behind the segment's place in memory, if no segment before
/// holds the address, too. Only a segment that reaches beyond the last address,
/// in memory or in the file, is left out.
pub proof fn offset_lies_in_the_segment(analysis: AnalysisModel, vaddr: u64, k: int)
    requires
        0 <= k < analysis.loadable_segments.len(),
        analysis.loadable_segments[k].p_vaddr <= vaddr,
        vaddr < analysis.loadable_segments[k].p_vaddr + analysis.loadable_segments[k].p_memsz,
        forall|j: int|
            0 <= j < k ==> (vaddr < (#[trigger] analysis.loadable_segments[j]).p_vaddr
                || analysis.loadable_segments[j].p_vaddr + analysis.loadable_segments[j].p_memsz
                <= vaddr),
    ensures
        ({
            let segment = analysis.loadable_segments[k];
            match analysis.offset_of(vaddr) {
                Some(Ok(offset)) => offset - segment.p_offset == vaddr - segment.p_vaddr,
                Some(Err(_)) => false,
                None => {
                    ||| segment.p_vaddr + segment.p_memsz > u64::MAX
                    ||| segment.p_offset + (vaddr - segment.p_vaddr) > u64::MAX
                },
            }
        }),
{
    lemma_first_covering(analysis.loadable_segments, vaddr, k);
}

/// An address that no loadable segment holds is reported as such.
pub proof fn unloaded_addresses_are_reported(analysis: AnalysisModel, vaddr: u64)
    requires
        forall|j: int|
            0 <= j < analysis.loadable_segments.len() ==> (vaddr
                < (#[trigger] analysis.loadable_segments[j]).p_vaddr
                || analysis.loadable_segments[j].p_vaddr + analysis.loadable_segments[j].p_memsz
                <= vaddr),
    ensures
        analysis.offset_of(vaddr) == Some(
            Err::<u64, _>((ErrorModel::AddressNotLoadable { addr: vaddr })),
        ),
{
    first_covering_is_first(analysis.loadable_segments, vaddr);
}

/// The segments with type 1 are selected, and no others, in the order in which
/// they are listed.
pub proof fn loadable_segments_are_selected(
    first: Seq<Segment>,
    second: Seq<Segment>,
    segment: Segment,
)
    ensures
        loadable(first + second) == loadable(first) + loadable(second),
        loadable(seq![segment]) == if segment.p_type == 1 {
            seq![segment]
        } else {
            Seq::empty()
        },
        loadable(Seq::empty()) == Seq::<Segment>::empty(),
    decreases second.len(),
{
    reveal(Seq::filter);
    assert(seq![segment].drop_last() =~= Seq::empty());
    assert(loadable(seq![segment].drop_last()) =~= Seq::empty());
    let all = first + second;
    if second.len() == 0 {
        assert(all =~= first);
        assert(loadable(second) =~= Seq::empty());
        assert(loadable(first) + loadable(second) =~= loadable(first));
    } else {
        loadable_segments_are_selected(first, second.drop_last(), segment);
        assert(all.drop_last() =~= first + second.drop_last());
        assert(all.last() == second.last());
        assert(loadable(all) =~= loadable(first) + loadable(second));
    }
    assert(loadable(seq![segment]) =~= if segment.p_type == 1 {
        seq![segment]
    } else {
        Seq::empty()
    });
}

/// A file is analysed exactly if its header parses and it has a `.text` section
/// and program headers. The analysis then holds the file, the header of `.text`
/// and the segments mapped into memory. Otherwise the first thing that is wrong
/// is reported.
pub proof fn analysis_holds_the_file(file: Seq<u8>)
    ensures
        match analysis_of(file) {
            Ok(analysis) => {
                &&& elf_header(file) is Ok
                &&& elf_section_by_name(file, ".text"@) == Ok::<_, elf::ParseError>(
                    Some(analysis.text_section),
                )
                &&& elf_segments(file) matches Ok(Some(listed)) && analysis.loadable_segments
                    == loadable(listed)
                &&& analysis.file == file
            },
            Err(ErrorModel::ElfParseError(e)) => {
                ||| elf_header(file) == Err::<(), _>(e)
                ||| elf_header(file) is Ok && elf_section_by_name(file, ".text"@) == Err::<
                    Option<Section>,
                    _,
                >(e)
                ||| elf_header(file) is Ok && (elf_section_by_name(file, ".text"@) matches Ok(Some(_)))
                    && elf_segments(file) == Err::<Option<Seq<Segment>>, _>(e)
            },
            Err(e) => {
                &&& e is ExecSegmentNotFound
                &&& elf_header(file) is Ok
                &&& {
                    ||| elf_section_by_name(file, ".text"@) matches Ok(None)
                    ||| (elf_section_by_name(file, ".text"@) matches Ok(Some(_))) && (elf_segments(
                        file,
                    ) matches Ok(None))
                }
            },
        },
{
}

/// A name is searched in the data of `.rodata`, at the address of that section:
/// the address found is where the name's bytes stand with a NUL byte after them,
/// for the first time. The name is reported missing exactly if they stand
/// nowhere, and `.rodata` exactly if it is missing.
pub proof fn name_is_found_in_rodata(analysis: AnalysisModel, func_name: Seq<char>)
    ensures
        match elf_section_by_name(analysis.file, ".rodata"@) {
            Err(e) => analysis.string_vaddr(func_name) == Some(
                Err::<u64, _>(ErrorModel::ElfParseError(e)),
            ),
            Ok(None) => analysis.string_vaddr(func_name) == Some(
                Err::<u64, _>(ErrorModel::SectionNotFound { name: ".rodata"@ }),
            ),
            Ok(Some(rodata)) => match elf_section_data(analysis.file, rodata) {
                Err(e) => analysis.string_vaddr(func_name) == Some(
                    Err::<u64, _>(ErrorModel::ElfParseError(e)),
                ),
                Ok(data) => {
                    let name = encode_utf8(func_name) + seq![0u8];
                    let n = name.len();
                    match analysis.string_vaddr(func_name) {
                        Some(Ok(vaddr)) => {
                            let at: int = vaddr - rodata.sh_addr;
                            &&& 0 <= at <= data.len() - n
                            &&& data.subrange(at, at + n) == name
                            &&& forall|k: int|
                                0 <= k < at ==> #[trigger] data.subrange(k, k + n) != name
                        },
                        Some(Err(e)) => {
                            &&& e == ErrorModel::StringNotFound { name: func_name }
                            &&& forall|k: int|
                                0 <= k <= data.len() - n ==> #[trigger] data.subrange(k, k + n)
                                    != name
                        },
                        None => {
                            ||| encode_utf8(func_name).contains(0)
                            ||| exists|k: int|
                                {
                                    &&& 0 <= k <= data.len() - n
                                    &&& #[trigger] data.subrange(k, k + n) == name
                                    &&& rodata.sh_addr + k > u64::MAX
                                }
                        },
                    }
                },
            },
        },
{
    if let Ok(Some(rodata)) = elf_section_by_name(analysis.file, ".rodata"@) {
        if let Ok(data) = elf_section_data(analysis.file, rodata) {
            let name = encode_utf8(func_name) + seq![0u8];
            assert(name =~= encode_utf8(func_name).push(0));
            first_occurrence_holds_the_pattern(data, name);
        }
    }
}

/// The references of a binary to an address are those among the instructions of
/// its `.text` section, which begin at the address of that section. They are
/// reported missing exactly if there are none.
pub proof fn references_are_searched_in_text(analysis: AnalysisModel, string_vaddr: u64)
    ensures
        match elf_section_data(analysis.file, analysis.text_section) {
            Err(e) => analysis.string_refs(string_vaddr) == Err::<Seq<u64>, _>(
                ErrorModel::ElfParseError(e),
            ),
            Ok(code) => {
                let listing = instructions(code, analysis.text_section.sh_addr);
                match analysis.string_refs(string_vaddr) {
                    Ok(refs) => refs == references(listing, string_vaddr) && refs.len() > 0,
                    Err(e) => {
                        &&& e == ErrorModel::StringRefNotFound {
                            name: prefixed_hex(string_vaddr as nat),
                        }
                        &&& references(listing, string_vaddr).len() == 0
                    },
                }
            },
        },
{
}

/// Every valid instruction of `.text` with a memory operand relative to the
/// instruction pointer that has the given address is among the references, and
/// so is every one with an immediate or an absolute memory operand of that
/// value, wherever it lies.
pub proof fn every_reference_is_found(analysis: AnalysisModel, string_vaddr: u64, k: int)
    requires
        analysis.text_data() is Ok,
        0 <= k < instructions(
            analysis.text_data()->Ok_0,
            analysis.text_section.sh_addr,
        ).len(),
    ensures
        ({
            let i = instructions(analysis.text_data()->Ok_0, analysis.text_section.sh_addr)[k];
            let named = exists|j: int|
                0 <= j < i.operand_count && match #[trigger] i.operands@[j] {
                    Operand::Memory => !i.has_base && !i.has_index && i.displacement == string_vaddr,
                    Operand::Immediate64 => i.immediate64 == string_vaddr,
                    Operand::Immediate32 => i.immediate32 == string_vaddr,
                    Operand::Other => false,
                };
            !i.invalid && (i.ip_relative && i.ip_relative_address == string_vaddr || named) ==> (
            analysis.string_refs(string_vaddr) matches Ok(refs) && refs.contains(i.ip))
        }),
{
    let listing = instructions(analysis.text_data()->Ok_0, analysis.text_section.sh_addr);
    references_are_operands(listing, string_vaddr, listing[k].ip);
}

/// A line of a listing is the name, a colon and a space, the address, a space, the
/// bytes, filled up with spaces to 20 characters, a space, and the text.
pub proof fn a_line_shows_its_parts(
    func_name: Seq<char>,
    ip: u64,
    bytes: Seq<u8>,
    text: Seq<char>,
)
    ensures
        ({
            let pad: nat = if 3 * bytes.len() < 20 {
                (20 - 3 * bytes.len()) as nat
            } else {
                0
            };
            listing_line(func_name, ip, bytes, text) == func_name + seq![':', ' '] + address_hex(ip)
                + seq![' '] + spaced_hex(bytes) + Seq::new(pad, |k: int| ' ') + seq![' '] + text
        }),
{
    reveal_strlit(": ");
    reveal_strlit(" ");
    spaced_bytes_read_back(bytes);
    let pad: nat = if 3 * bytes.len() < 20 {
        (20 - 3 * bytes.len()) as nat
    } else {
        0
    };
    assert(": "@ =~= seq![':', ' ']);
    assert(" "@ =~= seq![' ']);
    assert(listing_line(func_name, ip, bytes, text) =~= func_name + seq![':', ' '] + address_hex(ip)
        + seq![' '] + spaced_hex(bytes) + Seq::new(pad, |k: int| ' ') + seq![' '] + text);
}

/// A listing that is not empty begins with the line of the instruction that the
/// code begins with, and goes on with the listing of the code after it, one line
/// shorter.
pub proof fn a_listing_goes_on_after_its_first_line(
    func_name: Seq<char>,
    code: Seq<u8>,
    ip: int,
    limit: nat,
)
    ensures
        listing_lines(func_name, code, ip, limit).len() == 0 <==> code.len() == 0 || limit == 0,
        code.len() > 0 && limit > 0 ==> {
            let lines = listing_lines(func_name, code, ip, limit);
            let n: int = decoded(code, ip as u64).len as int;
            &&& lines[0] == listing_line(
                func_name,
                ip as u64,
                code.take(n),
                intel_text(code, ip as u64),
            )
            &&& lines.skip(1) == listing_lines(
                func_name,
                code.skip(n),
                ip + n,
                (limit - 1) as nat,
            )
        },
{
    if code.len() > 0 && limit > 0 {
        let n: int = decoded(code, ip as u64).len as int;
        assert(listing_lines(func_name, code, ip, limit).skip(1) =~= listing_lines(
            func_name,
            code.skip(n),
            ip + n,
            (limit - 1) as nat,
        ));
    }
}

/// The listing of a function shows its first 20 instructions, from its address in
/// the `.text` section on.
pub proof fn a_function_is_listed_from_its_address(
    analysis: AnalysisModel,
    func_name: Seq<char>,
    vaddr: u64,
)
    ensures
        match elf_section_data(analysis.file, analysis.text_section) {
            Err(e) => analysis.listing(func_name, vaddr) == Some(
                Err::<Seq<Seq<char>>, _>(ErrorModel::ElfParseError(e)),
            ),
            Ok(code) => {
                let at: int = vaddr - analysis.text_section.sh_addr;
                match analysis.listing(func_name, vaddr) {
                    Some(Ok(lines)) => {
                        &&& 0 <= at <= code.len()
                        &&& lines == listing_lines(func_name, code.skip(at), vaddr as int, 20)
                        &&& lines.len() <= 20
                    },
                    Some(Err(_)) => false,
                    None => !(0 <= at <= code.len()) || !listing_fits(
                        code.skip(at),
                        vaddr as int,
                        20,
                    ),
                }
            },
        },
{
    if let Ok(code) = analysis.text_data() {
        let at: int = vaddr - analysis.text_section.sh_addr;
        listing_is_limited(func_name, code.skip(at), vaddr as int, 20);
    }
}

/// A binary is well placed as soon as none of its sections and loadable segments
/// reaches beyond the last address.
pub proof fn binaries_in_range_are_well_placed(analysis: AnalysisModel)
    requires
        elf_section_by_name(analysis.file, ".rodata"@) matches Ok(Some(rodata)) ==> (
        elf_section_data(analysis.file, rodata) matches Ok(data) ==> rodata.sh_addr + data.len()
            <= 0x1_0000_0000_0000_0000),
        elf_section_data(analysis.file, analysis.text_section) matches Ok(code)
            ==> analysis.text_section.sh_addr + code.len() <= 0x1_0000_0000_0000_0000,
        forall|k: int|
            0 <= k < analysis.loadable_segments.len() ==> {
                let s = #[trigger] analysis.loadable_segments[k];
                s.p_vaddr + s.p_memsz < 0x1_0000_0000_0000_0000 && s.p_offset + s.p_memsz
                    < 0x1_0000_0000_0000_0000
            },
    ensures
        analysis.well_placed(),
{
}

/// The value of an analysis has each of its parts.
pub proof fn analysis_shows_its_parts(analysis: ShfsAnalysis)
    ensures
        analysis@.file == analysis.file@,
        analysis@.text_section == analysis.text_section,
        analysis@.loadable_segments == analysis.loadable_segments@,
        analysis.deep_view() == analysis@,
{
}

/// The segments of a list that are mapped into memory.
pub fn select_loadable(listed: &[Segment]) -> (selected: Vec<Segment>)
    ensures
        selected@ == loadable(listed@),
{
    let mut selected: Vec<Segment> = Vec::new();
    let mut k: usize = 0;
    proof {
        reveal(Seq::filter);
        assert(listed@.take(0) =~= Seq::empty());
    }
    while k < listed.len()
        invariant
            k <= listed.len(),
            selected@ == loadable(listed@.take(k as int)),
        decreases listed.len() - k,
    {
        proof {
            reveal(Seq::filter);
            assert(listed@.take(k + 1).drop_last() =~= listed@.take(k as int));
        }
        let segment: Segment = listed[k];
        if segment.p_type == PT_LOAD {
            selected.push(segment);
        }
        k += 1;
    }
    proof {
        assert(listed@.take(k as int) =~= listed@);
    }
    selected
}

/// The bytes of a name, with a NUL byte after them; `None` if the name has a NUL
/// byte of its own.
fn nul_terminated(name: &str) -> (bytes: Option<Vec<u8>>)
    ensures
        match bytes {
            Some(bytes) => !encode_utf8(name@).contains(0) && bytes@ == encode_utf8(name@).push(0),
            None => encode_utf8(name@).contains(0),
        },
{
    let name_bytes: &[u8] = name.as_bytes();
    let mut bytes: Vec<u8> = Vec::new();
    let mut k: usize = 0;
    while k < name_bytes.len()
        invariant
            k <= name_bytes.len(),
            name_bytes@ == encode_utf8(name@),
            bytes@ == name_bytes@.take(k as int),
            forall|j: int| 0 <= j < k ==> name_bytes@[j] != 0,
        decreases name_bytes.len() - k,
    {
        if name_bytes[k] == 0 {
            assert(name_bytes@.contains(name_bytes@[k as int]));
            return None;
        }
        bytes.push(name_bytes[k]);
        proof {
            assert(bytes@ =~= name_bytes@.take(k + 1));
        }
        k += 1;
    }
    bytes.push(0);
    proof {
        assert(bytes@ =~= name_bytes@.push(0));
    }
    Some(bytes)
}

/// The address of the first place in `data`, which lies at the address `addr`,
/// that holds a name with a NUL byte after it.
pub fn find_string_in(addr: u64, data: &[u8], func_name: &str) -> (found: Result<u64, ShfsError>)
    requires
        string_vaddr_in(addr, data@, func_name@) is Some,
    ensures
        Some(modelled(found)) == string_vaddr_in(addr, data@, func_name@),
{
    let pattern: Vec<u8> = nul_terminated(func_name).unwrap();
    match find_bytes(data, pattern.as_slice()) {
        Some(at) => Ok(addr + at as u64),
        None => Err(ShfsError::StringNotFound { name: func_name.to_string() }),
    }
}

/// Tells whether [`find_string_in`] may be called.
pub fn string_in_range(addr: u64, data: &[u8], func_name: &str) -> (yes: bool)
    ensures
        yes == (string_vaddr_in(addr, data@, func_name@) is Some),
{
    match nul_terminated(func_name) {
        Some(pattern) => match find_bytes(data, pattern.as_slice()) {
            Some(at) => at as u64 <= u64::MAX - addr,
            None => true,
        },
        None => false,
    }
}

/// The address of the last function start before a reference in `code`, which
/// lies at the address `addr`.
pub fn find_prologue_in(addr: u64, code: &[u8], ref_vaddr: u64) -> (found: Result<u64, ShfsError>)
    requires
        prologue_vaddr_in(addr, code@, ref_vaddr) is Some,
    ensures
        Some(modelled(found)) == prologue_vaddr_in(addr, code@, ref_vaddr),
{
    assert(ref_vaddr - addr <= code.len());
    let end: usize = (ref_vaddr - addr) as usize;
    let start: usize = end.saturating_sub(SEARCH_LIMIT);
    let window: &[u8] = slice_subrange(code, start, end);
    proof {
        last_function_start_is_last(window@, window@.len() as int);
    }
    match find_last_function_start(window) {
        Some(at) => Ok(addr + start as u64 + at as u64),
        None => Err(ShfsError::PrologueNotFound { name: format_hex(ref_vaddr) }),
    }
}

/// Tells whether an address lies in code of `len` bytes at the address `addr`,
/// or right after it.
pub fn lies_in_code(addr: u64, len: usize, vaddr: u64) -> (yes: bool)
    ensures
        yes == (0 <= vaddr - addr <= len),
{
    vaddr >= addr && vaddr - addr <= len as u64
}

/// Writes one line of the listing of a function.
pub fn format_listing_line(func_name: &str, ip: u64, bytes: &[u8], text: &str) -> (line: String)
    ensures
        line@ == listing_line(func_name@, ip, bytes@, text@),
{
    let mut line: String = func_name.to_string();
    line.append(": ");
    line.append(format_address(ip).as_str());
    line.append(" ");
    line.append(align_left(format_bytes(bytes), 20).as_str());
    line.append(" ");
    line.append(text);
    line
}

/// Tells whether [`list_instructions`] may be called.
pub fn listing_in_range(code: &[u8], ip: u64, limit: usize) -> (yes: bool)
    ensures
        yes == listing_fits(code@, ip as int, limit as nat),
        ip + code@.len() <= u64::MAX + 1 ==> yes,
{
    let mut at: usize = 0;
    let mut n: usize = 0;
    proof {
        assert(code@.skip(0) =~= code@);
    }
    while n < limit && at < code.len()
        invariant
            at <= code.len(),
            n <= limit,
            listing_fits(code@, ip as int, limit as nat) == listing_fits(
                code@.skip(at as int),
                ip + at,
                (limit - n) as nat,
            ),
        decreases limit - n,
    {
        if at as u64 > u64::MAX - ip {
            return false;
        }
        let rest: &[u8] = slice_subrange(code, at, code.len());
        let instruction: Instruction = decode(rest, ip + at as u64);
        proof {
            assert(rest@ =~= code@.skip(at as int));
            assert(rest@.skip(instruction.len as int) =~= code@.skip(at + instruction.len));
        }
        at += instruction.len;
        n += 1;
    }
    true
}

/// Lists the first `limit` instructions of `code`, which lies at the address
/// `ip`.
pub fn list_instructions(func_name: &str, code: &[u8], ip: u64, limit: usize) -> (lines: Vec<
    String,
>)
    requires
        listing_fits(code@, ip as int, limit as nat),
    ensures
        lines.deep_view() == listing_lines(func_name@, code@, ip as int, limit as nat),
{
    let mut lines: Vec<String> = Vec::new();
    let mut at: usize = 0;
    let mut n: usize = 0;
    proof {
        assert(code@.skip(0) =~= code@);
        assert(lines.deep_view() + listing_lines(func_name@, code@, ip as int, limit as nat)
            =~= listing_lines(func_name@, code@, ip as int, limit as nat));
    }
    while n < limit && at < code.len()
        invariant
            at <= code.len(),
            n <= limit,
            listing_fits(code@.skip(at as int), ip + at, (limit - n) as nat),
            lines.deep_view() + listing_lines(
                func_name@,
                code@.skip(at as int),
                ip + at,
                (limit - n) as nat,
            ) == listing_lines(func_name@, code@, ip as int, limit as nat),
        decreases limit - n,
    {
        let rest: &[u8] = slice_subrange(code, at, code.len());
        let address: u64 = ip + at as u64;
        let instruction: Instruction = decode(rest, address);
        let bytes: &[u8] = slice_subrange(rest, 0, instruction.len);
        let text: String = intel_syntax(rest, address);
        let line: String = format_listing_line(func_name, address, bytes, text.as_str());
        let ghost before = lines.deep_view();
        let ghost tail = listing_lines(
            func_name@,
            code@.skip(at + instruction.len),
            ip + at + instruction.len,
            (limit - n - 1) as nat,
        );
        lines.push(line);
        proof {
            assert(rest@ =~= code@.skip(at as int));
            assert(rest@.skip(instruction.len as int) =~= code@.skip(at + instruction.len));
            assert(bytes@ =~= rest@.take(instruction.len as int));
            assert(lines.deep_view() =~= before.push(line@));
            assert(before + (seq![line@] + tail) =~= lines.deep_view() + tail);
        }
        at += instruction.len;
        n += 1;
    }
    proof {
        assert(lines.deep_view() + Seq::<Seq<char>>::empty() =~= lines.deep_view());
    }
    lines
}

impl<'a> ShfsAnalysis<'a> {
    /// Begins the analysis of a file.
    pub fn new(file: &'a [u8]) -> (analysis: Result<Self, ShfsError>)
        ensures
            modelled(analysis) == analysis_of(file@),
    {
        if let Err(e) = check_header(file) {
            return Err(ShfsError::ElfParseError(e));
        }
        let text_section: Section = match section_by_name(file, ".text") {
            Err(e) => return Err(ShfsError::ElfParseError(e)),
            Ok(None) => return Err(ShfsError::ExecSegmentNotFound),
            Ok(Some(section)) => section,
        };
        match segments(file) {
            Err(e) => Err(ShfsError::ElfParseError(e)),
            Ok(None) => Err(ShfsError::ExecSegmentNotFound),
            Ok(Some(listed)) => Ok(
                ShfsAnalysis {
                    file,
                    text_section,
                    loadable_segments: select_loadable(listed.as_slice()),
                },
            ),
        }
    }

    /// The first loadable segment that holds a virtual address.
    fn covering_segment(&self, vaddr: u64) -> (found: Option<Segment>)
        ensures
            found == first_covering(self@.loadable_segments, vaddr),
            found matches Some(segment) ==> covers(segment, vaddr),
    {
        let listed: &Vec<Segment> = &self.loadable_segments;
        let mut k: usize = 0;
        proof {
            assert(listed@.skip(0) =~= listed@);
        }
        while k < listed.len()
            invariant
                k <= listed.len(),
                listed@ == self@.loadable_segments,
                first_covering(listed@, vaddr) == first_covering(listed@.skip(k as int), vaddr),
            decreases listed.len() - k,
        {
            let segment: Segment = listed[k];
            proof {
                assert(listed@.skip(k as int)[0] == segment);
                assert(listed@.skip(k as int).skip(1) =~= listed@.skip(k + 1));
            }
            if vaddr >= segment.p_vaddr && vaddr - segment.p_vaddr < segment.p_memsz {
                return Some(segment);
            }
            k += 1;
        }
        None
    }

    /// Tells whether [`ShfsAnalysis::vaddr_to_offset`] may be called.
    pub fn offset_in_range(&self, vaddr: u64) -> (yes: bool)
        ensures
            yes == (self@.offset_of(vaddr) is Some),
    {
        match self.covering_segment(vaddr) {
            Some(segment) => segment.p_memsz <= u64::MAX - segment.p_vaddr && vaddr
                - segment.p_vaddr <= u64::MAX - segment.p_offset,
            None => true,
        }
    }

    /// Converts a virtual address to a file offset.
    pub fn vaddr_to_offset(&self, vaddr: u64) -> (offset: Result<u64, ShfsError>)
        requires
            self@.offset_of(vaddr) is Some,
        ensures
            Some(modelled(offset)) == self@.offset_of(vaddr),
    {
        match self.covering_segment(vaddr) {
            Some(segment) => Ok(segment.p_offset + (vaddr - segment.p_vaddr)),
            None => Err(ShfsError::AddressNotLoadable { addr: vaddr }),
        }
    }

    /// Tells whether [`ShfsAnalysis::find_string_vaddr`] may be called.
    pub fn string_vaddr_in_range(&self, func_name: &str) -> (yes: bool)
        ensures
            yes == (self@.string_vaddr(func_name@) is Some),
    {
        match section_by_name(self.file, ".rodata") {
            Ok(Some(rodata)) => match section_data(self.file, &rodata) {
                Ok(data) => string_in_range(rodata.sh_addr, data, func_name),
                Err(_) => true,
            },
            _ => true,
        }
    }

    /// Finds the virtual address of a function's name in `.rodata`.
    pub fn find_string_vaddr(&self, func_name: &str) -> (found: Result<u64, ShfsError>)
        requires
            self@.string_vaddr(func_name@) is Some,
        ensures
            Some(modelled(found)) == self@.string_vaddr(func_name@),
    {
        match section_by_name(self.file, ".rodata") {
            Err(e) => Err(ShfsError::ElfParseError(e)),
            Ok(None) => Err(ShfsError::SectionNotFound { name: ".rodata".to_string() }),
            Ok(Some(rodata)) => match section_data(self.file, &rodata) {
                Err(e) => Err(ShfsError::ElfParseError(e)),
                Ok(data) => find_string_in(rodata.sh_addr, data, func_name),
            },
        }
    }

    /// Finds the instructions of `.text` that refer to a virtual address.
    pub fn find_string_refs_vaddr(&self, string_vaddr: u64) -> (found: Result<Vec<u64>, ShfsError>)
        ensures
            modelled(found) == self@.string_refs(string_vaddr),
            found matches Ok(refs) ==> refs_lie_in_text(self@, refs@),
    {
        let code: &[u8] = match section_data(self.file, &self.text_section) {
            Err(e) => return Err(ShfsError::ElfParseError(e)),
            Ok(data) => data,
        };
        let listing: Vec<Instruction> = disassemble(code, self.text_section.sh_addr);
        let refs: Vec<u64> = find_references(listing.as_slice(), string_vaddr);
        if refs.len() == 0 {
            Err(ShfsError::StringRefNotFound { name: format_hex(string_vaddr) })
        } else {
            proof {
                assert(refs.deep_view() =~= refs@);
                references_are_mentions(listing@, string_vaddr);
            }
            Ok(refs)
        }
    }

    /// Tells whether [`ShfsAnalysis::find_function_prologue_vaddr`] may be called.
    pub fn prologue_in_range(&self, ref_vaddr: u64) -> (yes: bool)
        ensures
            yes == (self@.prologue_vaddr(ref_vaddr) is Some),
    {
        match section_data(self.file, &self.text_section) {
            Ok(code) => lies_in_code(self.text_section.sh_addr, code.len(), ref_vaddr),
            Err(_) => true,
        }
    }

    /// Searches backwards from a reference for the start of its function.
    pub fn find_function_prologue_vaddr(&self, ref_vaddr: u64) -> (found: Result<u64, ShfsError>)
        requires
            self@.prologue_vaddr(ref_vaddr) is Some,
        ensures
            Some(modelled(found)) == self@.prologue_vaddr(ref_vaddr),
    {
        match section_data(self.file, &self.text_section) {
            Err(e) => Err(ShfsError::ElfParseError(e)),
            Ok(code) => find_prologue_in(self.text_section.sh_addr, code, ref_vaddr),
        }
    }

    /// Tells whether [`ShfsAnalysis::verify_function`] may be called.
    pub fn function_in_range(&self, func_name: &str, vaddr: u64) -> (yes: bool)
        ensures
            yes == (self@.listing(func_name@, vaddr) is Some),
            self@.well_placed() && (self@.text_data() matches Ok(code) ==> 0 <= vaddr
                - self@.text_section.sh_addr <= code.len()) ==> yes,
            (elf_section_data(self@.file, self@.text_section) matches Ok(code) ==> {
                &&& self@.text_section.sh_addr + code.len() <= u64::MAX + 1
                &&& 0 <= vaddr - self@.text_section.sh_addr <= code.len()
            }) ==> yes,
    {
        let addr: u64 = self.text_section.sh_addr;
        match section_data(self.file, &self.text_section) {
            Ok(code) => if lies_in_code(addr, code.len(), vaddr) {
                let rest: &[u8] = slice_subrange(code, (vaddr - addr) as usize, code.len());
                assert(rest@ =~= code@.skip(vaddr - addr));
                listing_in_range(rest, vaddr, LISTING_LIMIT)
            } else {
                false
            },
            Err(_) => true,
        }
    }

    /// Lists the first instructions of a function, for a reader to verify.
    pub fn verify_function(&self, func_name: &str, vaddr: u64) -> (lines: Result<
        Vec<String>,
        ShfsError,
    >)
        requires
            self@.listing(func_name@, vaddr) is Some,
        ensures
            Some(modelled(lines)) == self@.listing(func_name@, vaddr),
    {
        let addr: u64 = self.text_section.sh_addr;
        match section_data(self.file, &self.text_section) {
            Err(e) => Err(ShfsError::ElfParseError(e)),
            Ok(code) => {
                assert(vaddr - addr <= code.len());
                let rest: &[u8] = slice_subrange(code, (vaddr - addr) as usize, code.len());
                assert(rest@ =~= code@.skip(vaddr - addr));
                Ok(list_instructions(func_name, rest, vaddr, LISTING_LIMIT))
            },
        }
    }
}

} // verus!
