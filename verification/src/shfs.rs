//! Finding the file offsets of the functions of the `shfs` binary.
//!
//! A function's name is usually referred to from the function itself, so the
//! start of the function is taken to be the closest function start before one
//! of the references, leaving out those that another function was already found
//! at.

use crate::analysis::{
    analysis_of, prologue_is_closest, well_placed_binaries_can_be_searched, AnalysisModel, ShfsAnalysis,
};
use crate::error::{modelled, ErrorModel, ShfsError};
use crate::offsets::{
    names_distinct, offset_map, offset_taken, offsets_distinct, recorded, recording_a_new_name_appends,
    recording_inserts, recording_replaces_or_appends, EntryModel, FunctionEntry, FunctionOffsets,
};
use vstd::prelude::*;
use vstd::utf8::encode_utf8;

verus! {

/// Where the binary is installed.
pub const SHFS_BINARY_PATH: &'static str = "/usr/libexec/unraid/shfs";

/// What came of reading the binary.
pub enum BinaryFile<'a> {
    /// There is no file at its path.
    Missing,
    /// The file could not be read.
    Unreadable(std::io::Error),
    /// The bytes of the file.
    Contents(&'a [u8]),
}

/// The mathematical value of a [`BinaryFile`].
pub enum BinaryModel {
    Missing,
    Unreadable(std::io::Error),
    Contents(Seq<u8>),
}

impl<'a> View for BinaryFile<'a> {
    type V = BinaryModel;

    open spec fn view(&self) -> BinaryModel {
        match *self {
            BinaryFile::Missing => BinaryModel::Missing,
            BinaryFile::Unreadable(source) => BinaryModel::Unreadable(source),
            BinaryFile::Contents(file) => BinaryModel::Contents(file@),
        }
    }
}

/// A function start before a reference.
#[derive(Clone, Copy, Debug, PartialEq, Eq)]
pub struct Candidate {
    /// The address of the function start.
    pub vaddr: u64,
    /// How many bytes before the reference it lies.
    pub distance: u64,
}

impl AnalysisModel {
    /// The function starts before the references that have one, in the order of
    /// the references.
    pub open spec fn candidates(self, refs: Seq<u64>) -> Option<Seq<Candidate>>
        decreases refs.len(),
    {
        if refs.len() == 0 {
            Some(Seq::empty())
        } else {
            match (self.candidates(refs.drop_last()), self.prologue_vaddr(refs.last())) {
                (Some(before), Some(Ok(vaddr))) => Some(
                    before.push(Candidate { vaddr, distance: (refs.last() - vaddr) as u64 }),
                ),
                (Some(before), Some(Err(_))) => Some(before),
                _ => None,
            }
        }
    }

    /// The candidates of some of the references are defined where those of all
    /// of them are.
    proof fn lemma_candidates_prefix(self, refs: Seq<u64>, k: int)
        requires
            0 <= k <= refs.len(),
        ensures
            self.candidates(refs) is Some ==> self.candidates(refs.take(k)) is Some,
        decreases refs.len(),
    {
        if k == refs.len() {
            assert(refs.take(k) =~= refs);
        } else {
            self.lemma_candidates_prefix(refs.drop_last(), k);
            assert(refs.drop_last().take(k) =~= refs.take(k));
        }
    }

    /// The file offset of a candidate; zero if it is not loaded from the file.
    pub open spec fn candidate_offset(self, candidate: Candidate) -> Option<u64> {
        match self.offset_of(candidate.vaddr) {
            Some(Ok(offset)) => Some(offset),
            Some(Err(_)) => Some(0),
            None => None,
        }
    }

    /// No function was found at the candidate's offset yet.
    pub open spec fn is_free(self, candidate: Candidate, table: Seq<EntryModel>) -> bool {
        self.candidate_offset(candidate) matches Some(offset) ==> !offset_taken(table, offset)
    }

    /// The free candidate that is closest to its reference, the first of them
    /// where several are equally close.
    pub open spec fn closest_free(
        self,
        candidates: Seq<Candidate>,
        table: Seq<EntryModel>,
    ) -> Option<Candidate>
        decreases candidates.len(),
    {
        if candidates.len() == 0 {
            None
        } else {
            let last = candidates.last();
            match self.closest_free(candidates.drop_last(), table) {
                Some(best) => if self.is_free(last, table) && last.distance < best.distance {
                    Some(last)
                } else {
                    Some(best)
                },
                None => if self.is_free(last, table) {
                    Some(last)
                } else {
                    None
                },
            }
        }
    }

    /// The entry of the function that begins at a candidate.
    pub open spec fn entry_at(self, func_name: Seq<char>, candidate: Candidate) -> Option<
        Result<EntryModel, ErrorModel>,
    > {
        match (self.listing(func_name, candidate.vaddr), self.offset_of(candidate.vaddr)) {
            (Some(Err(e)), Some(_)) => Some(Err(e)),
            (Some(Ok(listing)), Some(Ok(offset))) => Some(
                Ok(EntryModel { name: func_name, offset, listing }),
            ),
            (Some(Ok(_)), Some(Err(e))) => Some(Err(e)),
            _ => None,
        }
    }

    /// The entry of a function, given those found before.
    pub open spec fn located(self, func_name: Seq<char>, table: Seq<EntryModel>) -> Option<
        Result<EntryModel, ErrorModel>,
    > {
        match self.string_vaddr(func_name) {
            None => None,
            Some(Err(e)) => Some(Err(e)),
            Some(Ok(string_vaddr)) => match self.string_refs(string_vaddr) {
                Err(e) => Some(Err(e)),
                Ok(refs) => match self.candidates(refs) {
                    None => None,
                    Some(candidates) => match self.closest_free(candidates, table) {
                        None => Some(Err(ErrorModel::PrologueNotFound { name: func_name })),
                        Some(candidate) => self.entry_at(func_name, candidate),
                    },
                },
            },
        }
    }

    /// The table of the functions with the given names, found one after the
    /// other.
    pub open spec fn located_all(self, functions: Seq<Seq<char>>) -> Option<
        Result<Seq<EntryModel>, ErrorModel>,
    >
        decreases functions.len(),
    {
        if functions.len() == 0 {
            Some(Ok(Seq::empty()))
        } else {
            match self.located_all(functions.drop_last()) {
                Some(Ok(table)) => match self.located(functions.last(), table) {
                    Some(Ok(entry)) => Some(Ok(recorded(table, entry))),
                    Some(Err(e)) => Some(Err(e)),
                    None => None,
                },
                other => other,
            }
        }
    }

    /// Once the search among the first names has not succeeded, the search among
    /// all of them ends in the same way.
    proof fn lemma_located_all_stops(self, functions: Seq<Seq<char>>, k: int)
        requires
            0 <= k <= functions.len(),
        ensures
            !(self.located_all(functions.take(k)) matches Some(Ok(_))) ==> self.located_all(functions)
                == self.located_all(functions.take(k)),
        decreases functions.len(),
    {
        if k == functions.len() {
            assert(functions.take(k) =~= functions);
        } else {
            self.lemma_located_all_stops(functions.drop_last(), k);
            assert(functions.drop_last().take(k) =~= functions.take(k));
        }
    }
}

/// The candidate chosen is a free one. It is closer to its reference than every
/// free candidate before it, and no farther than any after it. None is chosen
/// only if no candidate is free.
pub proof fn closest_free_is_closest(
    analysis: AnalysisModel,
    candidates: Seq<Candidate>,
    table: Seq<EntryModel>,
)
    ensures
        match analysis.closest_free(candidates, table) {
            Some(chosen) => exists|k: int|
                {
                    &&& 0 <= k < candidates.len()
                    &&& #[trigger] candidates[k] == chosen
                    &&& analysis.is_free(chosen, table)
                    &&& forall|j: int|
                        0 <= j < candidates.len() && analysis.is_free(
                            #[trigger] candidates[j],
                            table,
                        ) ==> chosen.distance <= candidates[j].distance && (j < k
                            ==> chosen.distance < candidates[j].distance)
                },
            None => forall|j: int|
                0 <= j < candidates.len() ==> !analysis.is_free(#[trigger] candidates[j], table),
        },
    decreases candidates.len(),
{
    if candidates.len() > 0 {
        let before = candidates.drop_last();
        let n = candidates.len() - 1;
        closest_free_is_closest(analysis, before, table);
        assert forall|j: int| 0 <= j < n implies before[j] == #[trigger] candidates[j] by {}
        if let Some(chosen) = analysis.closest_free(candidates, table) {
            if let Some(best) = analysis.closest_free(before, table) {
                let k = choose|k: int|
                    {
                        &&& 0 <= k < before.len()
                        &&& #[trigger] before[k] == best
                        &&& forall|j: int|
                            0 <= j < before.len() && analysis.is_free(#[trigger] before[j], table)
                                ==> best.distance <= before[j].distance && (j < k ==> best.distance
                                < before[j].distance)
                    };
                if analysis.is_free(candidates[n], table) && candidates[n].distance < best.distance {
                    assert(candidates[n] == chosen);
                } else {
                    assert(candidates[k] == chosen);
                }
            } else {
                assert(candidates[n] == chosen);
            }
        }
    }
}

/// Every candidate is the function start before one of the references.
pub proof fn candidates_precede_references(analysis: AnalysisModel, refs: Seq<u64>)
    ensures
        analysis.candidates(refs) matches Some(candidates) ==> forall|k: int|
            0 <= k < candidates.len() ==> exists|r: u64|
                {
                    &&& #[trigger] refs.contains(r)
                    &&& analysis.prologue_vaddr(r) == Some(
                        Ok::<_, ErrorModel>((#[trigger] candidates[k]).vaddr),
                    )
                    &&& candidates[k].vaddr + candidates[k].distance == r
                },
    decreases refs.len(),
{
    if refs.len() > 0 {
        let before = refs.drop_last();
        candidates_precede_references(analysis, before);
        assert forall|r: u64| #[trigger] before.contains(r) implies refs.contains(r) by {
            let j = choose|j: int| 0 <= j < before.len() && before[j] == r;
            assert(refs[j] == r);
        }
        assert(refs.contains(refs[refs.len() - 1]));
        if let Ok(code) = analysis.text_data() {
            prologue_is_closest(analysis.text_section.sh_addr, code, refs.last());
        }
        if let Some(candidates) = analysis.candidates(refs) {
            let earlier = analysis.candidates(before).unwrap();
            assert forall|k: int| 0 <= k < candidates.len() implies exists|r: u64|
                {
                    &&& #[trigger] refs.contains(r)
                    &&& analysis.prologue_vaddr(r) == Some(
                        Ok::<_, ErrorModel>((#[trigger] candidates[k]).vaddr),
                    )
                    &&& candidates[k].vaddr + candidates[k].distance == r
                } by {
                if k < earlier.len() {
                    assert(candidates[k] == earlier[k]);
                    let r = choose|r: u64|
                        {
                            &&& #[trigger] before.contains(r)
                            &&& analysis.prologue_vaddr(r) == Some(
                                Ok::<_, ErrorModel>(earlier[k].vaddr),
                            )
                            &&& earlier[k].vaddr + earlier[k].distance == r
                        };
                    assert(refs.contains(r));
                } else {
                    assert(refs.contains(refs.last()));
                }
            }
        }
    }
}

/// A function found begins at a function start before a reference to its name in
/// `.rodata`, and its offset is where that function start lies in the file.
pub proof fn located_function_refers_to_its_name(
    analysis: AnalysisModel,
    func_name: Seq<char>,
    table: Seq<EntryModel>,
)
    ensures
        analysis.located(func_name, table) matches Some(Ok(entry)) ==> {
            &&& entry.name == func_name
            &&& exists|string_vaddr: u64, refs: Seq<u64>, r: u64, vaddr: u64|
                {
                    &&& analysis.string_vaddr(func_name) == Some(Ok::<_, ErrorModel>(string_vaddr))
                    &&& #[trigger] analysis.string_refs(string_vaddr) == Ok::<_, ErrorModel>(refs)
                    &&& #[trigger] refs.contains(r)
                    &&& analysis.prologue_vaddr(r) == Some(Ok::<_, ErrorModel>(vaddr))
                    &&& #[trigger] analysis.offset_of(vaddr) == Some(
                        Ok::<_, ErrorModel>(entry.offset),
                    )
                }
        },
{
    if let Some(Ok(entry)) = analysis.located(func_name, table) {
        let string_vaddr = analysis.string_vaddr(func_name).unwrap()->Ok_0;
        let refs = analysis.string_refs(string_vaddr)->Ok_0;
        let candidates = analysis.candidates(refs).unwrap();
        let chosen = analysis.closest_free(candidates, table).unwrap();
        closest_free_is_closest(analysis, candidates, table);
        candidates_precede_references(analysis, refs);
        let k = choose|k: int| 0 <= k < candidates.len() && #[trigger] candidates[k] == chosen;
        let r = choose|r: u64|
            {
                &&& #[trigger] refs.contains(r)
                &&& analysis.prologue_vaddr(r) == Some(
                    Ok::<_, ErrorModel>(candidates[k].vaddr),
                )
            };
        assert(analysis.string_refs(string_vaddr) == Ok::<_, ErrorModel>(refs));
        assert(refs.contains(r));
        assert(analysis.offset_of(chosen.vaddr) == Some(Ok::<_, ErrorModel>(entry.offset)));
    }
}

/// A function is never found at an offset that another one was found at.
pub proof fn located_offset_is_new(
    analysis: AnalysisModel,
    func_name: Seq<char>,
    table: Seq<EntryModel>,
)
    ensures
        analysis.located(func_name, table) matches Some(Ok(entry)) ==> !offset_taken(
            table,
            entry.offset,
        ),
{
    if let Some(Ok(entry)) = analysis.located(func_name, table) {
        let string_vaddr = analysis.string_vaddr(func_name).unwrap()->Ok_0;
        let refs = analysis.string_refs(string_vaddr)->Ok_0;
        closest_free_is_closest(analysis, analysis.candidates(refs).unwrap(), table);
    }
}

/// The table of the functions found has exactly the names asked for, each once,
/// and no two functions share an offset.
pub proof fn located_functions_are_distinct(analysis: AnalysisModel, functions: Seq<Seq<char>>)
    ensures
        analysis.located_all(functions) matches Some(Ok(table)) ==> {
            &&& names_distinct(table)
            &&& offsets_distinct(table)
            &&& offset_map(table).dom() == functions.to_set()
        },
    decreases functions.len(),
{
    if functions.len() == 0 {
        let table = Seq::<EntryModel>::empty();
        assert(offset_map(table).dom() =~= functions.to_set());
    } else if let Some(Ok(table)) = analysis.located_all(functions) {
        let before = functions.drop_last();
        located_functions_are_distinct(analysis, before);
        let earlier = analysis.located_all(before).unwrap()->Ok_0;
        let entry = analysis.located(functions.last(), earlier).unwrap()->Ok_0;
        located_offset_is_new(analysis, functions.last(), earlier);
        located_function_refers_to_its_name(analysis, functions.last(), earlier);
        recording_inserts(earlier, entry);
        assert(functions =~= before.push(functions.last()));
        assert forall|name: Seq<char>| #[trigger] functions.to_set().contains(name) <==> before.to_set().insert(
            functions.last(),
        ).contains(name) by {
            if functions.contains(name) {
                let j = choose|j: int| 0 <= j < functions.len() && functions[j] == name;
                if j < before.len() {
                    assert(before[j] == name);
                }
            }
            if before.contains(name) {
                let j = choose|j: int| 0 <= j < before.len() && before[j] == name;
                assert(functions[j] == name);
            }
            if name == functions.last() {
                assert(functions[functions.len() - 1] == name);
            }
        }
        assert(functions.to_set() =~= before.to_set().insert(functions.last()));
        assert(offset_map(table).dom() =~= functions.to_set());
    }
}

/// Looking for one function more leaves the offsets of all others as they were.
pub proof fn located_functions_stay(
    analysis: AnalysisModel,
    functions: Seq<Seq<char>>,
    func_name: Seq<char>,
)
    ensures
        analysis.located_all(functions.push(func_name)) matches Some(Ok(after)) ==> (
        analysis.located_all(functions) matches Some(Ok(before)) && forall|name: Seq<char>|
            #![trigger offset_map(after)[name]]
            #![trigger offset_map(before)[name]]
            name != func_name && functions.contains(name) ==> offset_map(after)[name]
                == offset_map(before)[name]),
{
    let all = functions.push(func_name);
    assert(all.drop_last() =~= functions);
    if let Some(Ok(after)) = analysis.located_all(all) {
        let before = analysis.located_all(functions).unwrap()->Ok_0;
        let entry = analysis.located(func_name, before).unwrap()->Ok_0;
        located_functions_are_distinct(analysis, functions);
        located_function_refers_to_its_name(analysis, func_name, before);
        recording_inserts(before, entry);
        assert forall|name: Seq<char>|
            #![trigger offset_map(after)[name]]
            #![trigger offset_map(before)[name]]
            name != func_name && functions.contains(name) implies offset_map(after)[name]
            == offset_map(before)[name] by {
            assert(functions.to_set().contains(name));
            assert(offset_map(before).dom().contains(name));
        }
    }
}

/// Whether a candidate is free is a matter of its offset in the file, or of offset
/// zero if it is not loaded: no function may have been found there before.
pub proof fn free_candidates_lie_at_new_offsets(
    analysis: AnalysisModel,
    candidate: Candidate,
    table: Seq<EntryModel>,
)
    ensures
        analysis.is_free(candidate, table) <==> match analysis.offset_of(candidate.vaddr) {
            Some(Ok(offset)) => forall|n: int|
                0 <= n < table.len() ==> (#[trigger] table[n]).offset != offset,
            Some(Err(_)) => forall|n: int|
                0 <= n < table.len() ==> (#[trigger] table[n]).offset != 0,
            None => true,
        },
{
}

/// References have candidates exactly if a function start can be searched before
/// every one of them.
pub proof fn candidates_are_searched_before_every_reference(
    analysis: AnalysisModel,
    refs: Seq<u64>,
)
    ensures
        analysis.candidates(refs) is Some <==> forall|k: int|
            0 <= k < refs.len() ==> analysis.prologue_vaddr(#[trigger] refs[k]) is Some,
    decreases refs.len(),
{
    if refs.len() > 0 {
        let before = refs.drop_last();
        candidates_are_searched_before_every_reference(analysis, before);
        if analysis.candidates(refs) is Some {
            assert forall|k: int| 0 <= k < refs.len() implies analysis.prologue_vaddr(
                #[trigger] refs[k],
            ) is Some by {
                if k < before.len() {
                    assert(before[k] == refs[k]);
                }
            }
        }
        if forall|k: int| 0 <= k < refs.len() ==> analysis.prologue_vaddr(#[trigger] refs[k]) is Some {
            assert forall|k: int| 0 <= k < before.len() implies analysis.prologue_vaddr(
                #[trigger] before[k],
            ) is Some by {
                assert(before[k] == refs[k]);
            }
            assert(analysis.prologue_vaddr(refs[refs.len() - 1]) is Some);
        }
    }
}

/// The references that the candidates come from: each candidate from a later one
/// than those before it, and a candidate from every reference that has a function
/// start before it.
pub proof fn candidates_come_from_references(analysis: AnalysisModel, refs: Seq<u64>) -> (sources: Seq<int>)
    requires
        analysis.candidates(refs) is Some,
    ensures
        sources.len() == analysis.candidates(refs).unwrap().len(),
        forall|k: int|
            0 <= k < sources.len() ==> {
                let candidate = analysis.candidates(refs).unwrap()[k];
                &&& 0 <= #[trigger] sources[k] < refs.len()
                &&& analysis.prologue_vaddr(refs[sources[k]]) == Some(
                    Ok::<_, ErrorModel>(candidate.vaddr),
                )
                &&& candidate.vaddr + candidate.distance == refs[sources[k]]
            },
        forall|a: int, b: int|
            0 <= a < b < sources.len() ==> #[trigger] sources[a] < #[trigger] sources[b],
        forall|i: int|
            0 <= i < refs.len() && (analysis.prologue_vaddr(#[trigger] refs[i]) matches Some(Ok(_)))
                ==> sources.contains(i),
    decreases refs.len(),
{
    if refs.len() == 0 {
        Seq::empty()
    } else {
        let before = refs.drop_last();
        let n = refs.len() - 1;
        let earlier = candidates_come_from_references(analysis, before);
        if let Ok(code) = analysis.text_data() {
            prologue_is_closest(analysis.text_section.sh_addr, code, refs.last());
        }
        let candidates = analysis.candidates(refs).unwrap();
        let earlier_candidates = analysis.candidates(before).unwrap();
        let sources = if analysis.prologue_vaddr(refs.last()) matches Some(Ok(_)) {
            earlier.push(n)
        } else {
            earlier
        };
        assert forall|k: int| 0 <= k < sources.len() implies {
            let candidate = candidates[k];
            &&& 0 <= #[trigger] sources[k] < refs.len()
            &&& analysis.prologue_vaddr(refs[sources[k]]) == Some(
                Ok::<_, ErrorModel>(candidate.vaddr),
            )
            &&& candidate.vaddr + candidate.distance == refs[sources[k]]
        } by {
            if k < earlier.len() {
                assert(candidates[k] == earlier_candidates[k]);
                assert(sources[k] == earlier[k]);
                assert(before[earlier[k]] == refs[earlier[k]]);
            }
        }
        assert forall|i: int|
            0 <= i < refs.len() && (analysis.prologue_vaddr(#[trigger] refs[i]) matches Some(
                Ok(_),
            )) implies sources.contains(i) by {
            if i < n {
                assert(before[i] == refs[i]);
                assert(earlier.contains(i));
                let k = choose|k: int| 0 <= k < earlier.len() && earlier[k] == i;
                assert(sources[k] == i);
            } else {
                assert(sources[sources.len() - 1] == n);
            }
        }
        sources
    }
}

/// The reference that the chosen candidate comes from: of all references whose
/// function start is free, it is the closest to its function start, and the first
/// of those equally close.
proof fn lemma_chosen_reference(
    analysis: AnalysisModel,
    refs: Seq<u64>,
    table: Seq<EntryModel>,
) -> (i: int)
    requires
        analysis.candidates(refs) is Some,
        analysis.closest_free(analysis.candidates(refs).unwrap(), table) is Some,
    ensures
        0 <= i < refs.len(),
        ({
            let vaddr = analysis.closest_free(
                analysis.candidates(refs).unwrap(),
                table,
            ).unwrap().vaddr;
            &&& analysis.prologue_vaddr(refs[i]) == Some(Ok::<_, ErrorModel>(vaddr))
            &&& forall|j: int|
                {
                    let other = analysis.prologue_vaddr(#[trigger] refs[j]).unwrap()->Ok_0;
                    let offset: u64 = match analysis.offset_of(other) {
                        Some(Ok(offset)) => offset,
                        _ => 0,
                    };
                    &&& 0 <= j < refs.len()
                    &&& analysis.prologue_vaddr(refs[j]) matches Some(Ok(_))
                    &&& forall|n: int| 0 <= n < table.len() ==> (#[trigger] table[n]).offset != offset
                } ==> {
                    let other = analysis.prologue_vaddr(refs[j]).unwrap()->Ok_0;
                    &&& refs[i] - vaddr <= refs[j] - other
                    &&& j < i ==> refs[i] - vaddr < refs[j] - other
                }
        }),
{
    let candidates = analysis.candidates(refs).unwrap();
    let chosen = analysis.closest_free(candidates, table).unwrap();
    closest_free_is_closest(analysis, candidates, table);
    let sources = candidates_come_from_references(analysis, refs);
    let k = choose|k: int|
        {
            &&& 0 <= k < candidates.len()
            &&& #[trigger] candidates[k] == chosen
            &&& analysis.is_free(chosen, table)
            &&& forall|j: int|
                0 <= j < candidates.len() && analysis.is_free(#[trigger] candidates[j], table)
                    ==> chosen.distance <= candidates[j].distance && (j < k ==> chosen.distance
                    < candidates[j].distance)
        };
    let i = sources[k];
    let vaddr = chosen.vaddr;
    assert(analysis.prologue_vaddr(refs[i]) == Some(Ok::<_, ErrorModel>(vaddr)));
    assert forall|j: int|
        {
            let other = analysis.prologue_vaddr(#[trigger] refs[j]).unwrap()->Ok_0;
            let offset: u64 = match analysis.offset_of(other) {
                Some(Ok(offset)) => offset,
                _ => 0,
            };
            &&& 0 <= j < refs.len()
            &&& analysis.prologue_vaddr(refs[j]) matches Some(Ok(_))
            &&& forall|n: int| 0 <= n < table.len() ==> (#[trigger] table[n]).offset != offset
        } implies {
        let other = analysis.prologue_vaddr(refs[j]).unwrap()->Ok_0;
        &&& refs[i] - vaddr <= refs[j] - other
        &&& j < i ==> refs[i] - vaddr < refs[j] - other
    } by {
        assert(sources.contains(j));
        let m = choose|m: int| 0 <= m < sources.len() && sources[m] == j;
        assert(analysis.prologue_vaddr(refs[sources[m]]) == Some(
            Ok::<_, ErrorModel>(candidates[m].vaddr),
        ));
        assert(analysis.is_free(candidates[m], table));
        if j < i && m > k {
            assert(sources[k] < sources[m]);
        }
    }
    i
}

/// A function found begins at the function start before one of the references to
/// its name, which lies at an offset of the file that no function was found at
/// before. Of all references whose function start lies at such an offset, it is
/// the one closest to its function start, and the first of those equally close.
/// A function start that is not loaded counts as lying at offset zero.
pub proof fn located_function_is_closest_to_its_reference(
    analysis: AnalysisModel,
    func_name: Seq<char>,
    table: Seq<EntryModel>,
)
    ensures
        analysis.located(func_name, table) matches Some(Ok(entry)) ==> {
            let string_vaddr = analysis.string_vaddr(func_name).unwrap()->Ok_0;
            let refs = analysis.string_refs(string_vaddr)->Ok_0;
            &&& analysis.string_vaddr(func_name) matches Some(Ok(_))
            &&& analysis.string_refs(string_vaddr) is Ok
            &&& entry.name == func_name
            &&& forall|n: int| 0 <= n < table.len() ==> (#[trigger] table[n]).offset != entry.offset
            &&& exists|i: int|
                {
                    let vaddr = analysis.prologue_vaddr(#[trigger] refs[i]).unwrap()->Ok_0;
                    &&& 0 <= i < refs.len()
                    &&& analysis.prologue_vaddr(refs[i]) matches Some(Ok(_))
                    &&& analysis.offset_of(vaddr) == Some(Ok::<_, ErrorModel>(entry.offset))
                    &&& analysis.listing(func_name, vaddr) == Some(
                        Ok::<_, ErrorModel>(entry.listing),
                    )
                    &&& forall|j: int|
                        {
                            let other = analysis.prologue_vaddr(#[trigger] refs[j]).unwrap()->Ok_0;
                            let offset: u64 = match analysis.offset_of(other) {
                                Some(Ok(offset)) => offset,
                                _ => 0,
                            };
                            &&& 0 <= j < refs.len()
                            &&& analysis.prologue_vaddr(refs[j]) matches Some(Ok(_))
                            &&& forall|n: int|
                                0 <= n < table.len() ==> (#[trigger] table[n]).offset != offset
                        } ==> {
                            let other = analysis.prologue_vaddr(refs[j]).unwrap()->Ok_0;
                            &&& refs[i] - vaddr <= refs[j] - other
                            &&& j < i ==> refs[i] - vaddr < refs[j] - other
                        }
                }
        },
{
    if let Some(Ok(entry)) = analysis.located(func_name, table) {
        let string_vaddr = analysis.string_vaddr(func_name).unwrap()->Ok_0;
        let refs = analysis.string_refs(string_vaddr)->Ok_0;
        located_offset_is_new(analysis, func_name, table);
        assert forall|n: int| 0 <= n < table.len() implies (#[trigger] table[n]).offset
            != entry.offset by {}
        let i = lemma_chosen_reference(analysis, refs, table);
        assert(analysis.prologue_vaddr(refs[i]) matches Some(Ok(_)));
    }
}

/// A function is not found only for a reason: its name is not found, nothing
/// refers to it, every function start before a reference lies at an offset that a
/// function was found at before, or the closest function start at any other
/// offset cannot be listed or is not loaded.
pub proof fn a_function_is_missed_for_a_reason(
    analysis: AnalysisModel,
    func_name: Seq<char>,
    table: Seq<EntryModel>,
)
    ensures
        analysis.string_vaddr(func_name) matches Some(Err(e)) ==> analysis.located(func_name, table)
            == Some(Err::<EntryModel, _>(e)),
        analysis.string_vaddr(func_name) matches Some(Ok(string_vaddr)) ==> (analysis.string_refs(
            string_vaddr,
        ) matches Err(e) ==> analysis.located(func_name, table) == Some(Err::<EntryModel, _>(e))),
        analysis.located(func_name, table) matches Some(Err(e)) ==> {
            let string_vaddr = analysis.string_vaddr(func_name).unwrap()->Ok_0;
            let refs = analysis.string_refs(string_vaddr)->Ok_0;
            ||| analysis.string_vaddr(func_name) == Some(Err::<u64, _>(e))
            ||| analysis.string_refs(string_vaddr) == Err::<Seq<u64>, _>(e)
            ||| {
                &&& e == (ErrorModel::PrologueNotFound { name: func_name })
                &&& forall|j: int|
                    {
                        &&& 0 <= j < refs.len()
                        &&& analysis.prologue_vaddr(#[trigger] refs[j]) matches Some(Ok(_))
                    } ==> {
                        let other = analysis.prologue_vaddr(refs[j]).unwrap()->Ok_0;
                        let offset: u64 = match analysis.offset_of(other) {
                            Some(Ok(offset)) => offset,
                            _ => 0,
                        };
                        exists|n: int| 0 <= n < table.len() && (#[trigger] table[n]).offset == offset
                    }
            }
            ||| exists|i: int|
                {
                    let vaddr = analysis.prologue_vaddr(#[trigger] refs[i]).unwrap()->Ok_0;
                    &&& 0 <= i < refs.len()
                    &&& analysis.prologue_vaddr(refs[i]) matches Some(Ok(_))
                    &&& {
                        ||| analysis.listing(func_name, vaddr) == Some(Err::<Seq<Seq<char>>, _>(e))
                        ||| analysis.offset_of(vaddr) == Some(Err::<u64, _>(e))
                    }
                    &&& forall|j: int|
                        {
                            let other = analysis.prologue_vaddr(#[trigger] refs[j]).unwrap()->Ok_0;
                            let offset: u64 = match analysis.offset_of(other) {
                                Some(Ok(offset)) => offset,
                                _ => 0,
                            };
                            &&& 0 <= j < refs.len()
                            &&& analysis.prologue_vaddr(refs[j]) matches Some(Ok(_))
                            &&& forall|n: int|
                                0 <= n < table.len() ==> (#[trigger] table[n]).offset != offset
                        } ==> {
                            let other = analysis.prologue_vaddr(refs[j]).unwrap()->Ok_0;
                            &&& refs[i] - vaddr <= refs[j] - other
                            &&& j < i ==> refs[i] - vaddr < refs[j] - other
                        }
                }
        },
{
    if let Some(Err(e)) = analysis.located(func_name, table) {
        let string_vaddr = analysis.string_vaddr(func_name).unwrap()->Ok_0;
        let refs = analysis.string_refs(string_vaddr)->Ok_0;
        if (analysis.string_vaddr(func_name) matches Some(Ok(_))) && analysis.string_refs(
            string_vaddr,
        ) is Ok {
            let candidates = analysis.candidates(refs).unwrap();
            closest_free_is_closest(analysis, candidates, table);
            let sources = candidates_come_from_references(analysis, refs);
            if analysis.closest_free(candidates, table) is Some {
                let i = lemma_chosen_reference(analysis, refs, table);
                assert(analysis.prologue_vaddr(refs[i]) matches Some(Ok(_)));
            } else {
                assert forall|j: int|
                    {
                        &&& 0 <= j < refs.len()
                        &&& analysis.prologue_vaddr(#[trigger] refs[j]) matches Some(Ok(_))
                    } implies {
                    let other = analysis.prologue_vaddr(refs[j]).unwrap()->Ok_0;
                    let offset: u64 = match analysis.offset_of(other) {
                        Some(Ok(offset)) => offset,
                        _ => 0,
                    };
                    exists|n: int| 0 <= n < table.len() && (#[trigger] table[n]).offset == offset
                } by {
                    assert(sources.contains(j));
                    let m = choose|m: int| 0 <= m < sources.len() && sources[m] == j;
                    assert(analysis.prologue_vaddr(refs[sources[m]]) == Some(
                        Ok::<_, ErrorModel>(candidates[m].vaddr),
                    ));
                    assert(!analysis.is_free(candidates[m], table));
                    let offset = analysis.candidate_offset(candidates[m]).unwrap();
                    assert(offset_taken(table, offset));
                    let n = choose|n: int|
                        0 <= n < table.len() && (#[trigger] table[n]).offset == offset;
                    assert(table[n].offset == offset);
                }
            }
        }
    }
}

/// Functions are found one after the other: the next one is looked for with the
/// table of those before it, and recorded in it. The first one that is not found
/// ends the search.
pub proof fn functions_are_located_in_turn(
    analysis: AnalysisModel,
    functions: Seq<Seq<char>>,
    func_name: Seq<char>,
)
    ensures
        analysis.located_all(Seq::empty()) == Some(Ok::<_, ErrorModel>(Seq::<EntryModel>::empty())),
        match analysis.located_all(functions) {
            None => analysis.located_all(functions.push(func_name)) is None,
            Some(Err(e)) => analysis.located_all(functions.push(func_name)) == Some(
                Err::<Seq<EntryModel>, _>(e),
            ),
            Some(Ok(table)) => match analysis.located(func_name, table) {
                None => analysis.located_all(functions.push(func_name)) is None,
                Some(Err(e)) => analysis.located_all(functions.push(func_name)) == Some(
                    Err::<Seq<EntryModel>, _>(e),
                ),
                Some(Ok(entry)) => analysis.located_all(functions.push(func_name)) == Some(
                    Ok::<_, ErrorModel>(recorded(table, entry)),
                ),
            },
        },
{
    assert(functions.push(func_name).drop_last() =~= functions);
}

/// Of a table of functions found, no two entries have the same name or the same
/// offset.
pub proof fn located_entries_differ(
    analysis: AnalysisModel,
    functions: Seq<Seq<char>>,
    i: int,
    j: int,
)
    ensures
        analysis.located_all(functions) matches Some(Ok(table)) ==> (0 <= i < j < table.len()
            ==> table[i].name != table[j].name && table[i].offset != table[j].offset),
{
    located_functions_are_distinct(analysis, functions);
}

/// An entry recorded is in the table, and so is every entry with another name.
proof fn lemma_recorded_contains(table: Seq<EntryModel>, added: EntryModel, entry: EntryModel)
    requires
        names_distinct(table),
        entry == added || table.contains(entry) && entry.name != added.name,
    ensures
        recorded(table, added).contains(entry),
{
    if entry == added {
        if exists|n: int| 0 <= n < table.len() && (#[trigger] table[n]).name == added.name {
            let n = choose|n: int| 0 <= n < table.len() && (#[trigger] table[n]).name == added.name;
            recording_replaces_or_appends(table, added, n);
            assert(recorded(table, added)[n] == added);
        } else {
            recording_a_new_name_appends(table, added);
            assert(recorded(table, added)[table.len() as int] == added);
        }
    } else {
        let n = choose|n: int| 0 <= n < table.len() && table[n] == entry;
        recording_replaces_or_appends(table, added, n);
        assert(recorded(table, added)[n] == entry);
    }
}

/// The name of a function found is the one that was looked for.
proof fn lemma_located_name(analysis: AnalysisModel, func_name: Seq<char>, table: Seq<EntryModel>)
    ensures
        analysis.located(func_name, table) matches Some(Ok(entry)) ==> entry.name == func_name,
{
    located_function_refers_to_its_name(analysis, func_name, table);
}

/// Every function asked for is in the table as it was found given the functions
/// before it, if its name is not asked for again.
pub proof fn every_function_is_in_the_table(
    analysis: AnalysisModel,
    functions: Seq<Seq<char>>,
    k: int,
)
    requires
        0 <= k < functions.len(),
        forall|j: int| k < j < functions.len() ==> #[trigger] functions[j] != functions[k],
    ensures
        analysis.located_all(functions) matches Some(Ok(table)) ==> {
            &&& analysis.located_all(functions.take(k)) matches Some(Ok(before))
            &&& analysis.located(functions[k], before) matches Some(Ok(entry))
            &&& table.contains(entry)
        },
    decreases functions.len(),
{
    let before = functions.drop_last();
    let last = functions.last();
    if let Some(Ok(table)) = analysis.located_all(functions) {
        let earlier = analysis.located_all(before).unwrap()->Ok_0;
        let added = analysis.located(last, earlier).unwrap()->Ok_0;
        assert(table == recorded(earlier, added));
        assert(names_distinct(earlier)) by {
            located_functions_are_distinct(analysis, before);
        }
        lemma_located_name(analysis, last, earlier);
        if k == functions.len() - 1 {
            assert(functions.take(k) =~= before);
            lemma_recorded_contains(earlier, added, added);
        } else {
            assert forall|j: int| k < j < before.len() implies #[trigger] before[j] != before[k] by {
                assert(functions[j] != functions[k]);
            }
            every_function_is_in_the_table(analysis, before, k);
            assert(before.take(k) =~= functions.take(k));
            let first = analysis.located_all(functions.take(k)).unwrap()->Ok_0;
            let entry = analysis.located(functions[k], first).unwrap()->Ok_0;
            lemma_located_name(analysis, functions[k], first);
            assert(functions[functions.len() - 1] != functions[k]);
            lemma_recorded_contains(earlier, added, entry);
        }
    }
}

/// Names are plain exactly if none of them has a NUL byte in it, and a binary is
/// well placed exactly if it cannot be analysed or its analysis is well placed.
pub proof fn plain_names_and_placed_binaries(functions: Seq<Seq<char>>, binary: BinaryModel)
    ensures
        names_plain(functions) <==> forall|k: int|
            0 <= k < functions.len() ==> !encode_utf8(#[trigger] functions[k]).contains(0),
        binary_well_placed(binary) <==> (binary matches BinaryModel::Contents(file) ==> (analysis_of(
            file,
        ) matches Ok(analysis) ==> analysis.well_placed())),
{
}

/// None of the names has a NUL byte in it.
pub open spec fn names_plain(functions: Seq<Seq<char>>) -> bool {
    forall|k: int| 0 <= k < functions.len() ==> !encode_utf8(#[trigger] functions[k]).contains(0)
}

/// The addresses of the binary, if it can be analysed, stay in range.
pub open spec fn binary_well_placed(binary: BinaryModel) -> bool {
    binary matches BinaryModel::Contents(file) ==> (analysis_of(file) matches Ok(analysis)
        ==> analysis.well_placed())
}

/// The table of the functions of a binary.
pub open spec fn function_offsets(functions: Seq<Seq<char>>, binary: BinaryModel) -> Option<
    Result<Seq<EntryModel>, ErrorModel>,
> {
    match binary {
        BinaryModel::Missing => Some(
            Err(ErrorModel::BinaryNotFound { path: SHFS_BINARY_PATH@ }),
        ),
        BinaryModel::Unreadable(source) => Some(
            Err(ErrorModel::ReadError { path: SHFS_BINARY_PATH@, source }),
        ),
        BinaryModel::Contents(file) => match analysis_of(file) {
            Err(e) => Some(Err(e)),
            Ok(analysis) => analysis.located_all(functions),
        },
    }
}

/// A binary that is missing or cannot be read is reported with its path; one that
/// can be is analysed, and the functions are looked for in it.
pub proof fn functions_are_located_in_the_binary(functions: Seq<Seq<char>>, binary: BinaryModel)
    ensures
        match binary {
            BinaryModel::Missing => function_offsets(functions, binary) == Some(
                Err::<Seq<EntryModel>, _>(
                    (ErrorModel::BinaryNotFound { path: "/usr/libexec/unraid/shfs"@ }),
                ),
            ),
            BinaryModel::Unreadable(source) => function_offsets(functions, binary) == Some(
                Err::<Seq<EntryModel>, _>(
                    (ErrorModel::ReadError { path: "/usr/libexec/unraid/shfs"@, source }),
                ),
            ),
            BinaryModel::Contents(file) => match analysis_of(file) {
                Err(e) => function_offsets(functions, binary) == Some(
                    Err::<Seq<EntryModel>, _>(e),
                ),
                Ok(analysis) => function_offsets(functions, binary) == analysis.located_all(
                    functions,
                ),
            },
        },
{
}

/// The value of what came of reading the binary is of the same kind and has the
/// same parts.
pub proof fn binaries_show_their_parts(binary: BinaryFile)
    ensures
        match binary {
            BinaryFile::Missing => binary@ == BinaryModel::Missing,
            BinaryFile::Unreadable(source) => binary@ == BinaryModel::Unreadable(source),
            BinaryFile::Contents(file) => binary@ == BinaryModel::Contents(file@),
        },
{
}

impl<'a> ShfsAnalysis<'a> {
    /// Tells whether [`ShfsAnalysis::find_candidates`] may be called.
    pub fn refs_in_range(&self, refs: &[u64]) -> (yes: bool)
        ensures
            yes == (self@.candidates(refs@) is Some),
            (forall|r: u64| #[trigger] refs@.contains(r) ==> self@.prologue_vaddr(r) is Some) ==> yes,
    {
        let mut k: usize = 0;
        while k < refs.len()
            invariant
                k <= refs.len(),
                self@.candidates(refs@.take(k as int)) is Some,
            decreases refs.len() - k,
        {
            proof {
                assert(refs@.take(k + 1).drop_last() =~= refs@.take(k as int));
            }
            if !self.prologue_in_range(refs[k]) {
                proof {
                    assert(refs@.contains(refs@[k as int]));
                    self@.lemma_candidates_prefix(refs@, k + 1);
                }
                return false;
            }
            k += 1;
        }
        proof {
            assert(refs@.take(k as int) =~= refs@);
        }
        true
    }

    /// Finds the function starts before references.
    pub fn find_candidates(&self, refs: &[u64]) -> (found: Vec<Candidate>)
        requires
            self@.candidates(refs@) is Some,
        ensures
            Some(found@) == self@.candidates(refs@),
    {
        let mut found: Vec<Candidate> = Vec::new();
        let mut k: usize = 0;
        while k < refs.len()
            invariant
                k <= refs.len(),
                self@.candidates(refs@) is Some,
                Some(found@) == self@.candidates(refs@.take(k as int)),
            decreases refs.len() - k,
        {
            proof {
                assert(refs@.take(k + 1).drop_last() =~= refs@.take(k as int));
                self@.lemma_candidates_prefix(refs@, k + 1);
                if let Ok(code) = self@.text_data() {
                    prologue_is_closest(self@.text_section.sh_addr, code, refs@[k as int]);
                }
            }
            if let Ok(vaddr) = self.find_function_prologue_vaddr(refs[k]) {
                found.push(Candidate { vaddr, distance: refs[k] - vaddr });
            }
            k += 1;
        }
        proof {
            assert(refs@.take(k as int) =~= refs@);
        }
        found
    }

    /// Tells whether no function was found at a candidate's offset yet.
    fn candidate_is_free(&self, candidate: &Candidate, table: &FunctionOffsets) -> (yes: bool)
        ensures
            yes == self@.is_free(*candidate, table.deep_view()),
    {
        if self.offset_in_range(candidate.vaddr) {
            let offset: u64 = match self.vaddr_to_offset(candidate.vaddr) {
                Ok(offset) => offset,
                Err(_) => 0,
            };
            !table.contains_offset(offset)
        } else {
            true
        }
    }

    /// Finds the free candidate that is closest to its reference.
    pub fn find_closest_free(&self, candidates: &[Candidate], table: &FunctionOffsets) -> (found:
        Option<Candidate>)
        ensures
            found == self@.closest_free(candidates@, table.deep_view()),
    {
        let mut best: Option<Candidate> = None;
        let mut k: usize = 0;
        while k < candidates.len()
            invariant
                k <= candidates.len(),
                best == self@.closest_free(candidates@.take(k as int), table.deep_view()),
            decreases candidates.len() - k,
        {
            proof {
                assert(candidates@.take(k + 1).drop_last() =~= candidates@.take(k as int));
            }
            let candidate: Candidate = candidates[k];
            if self.candidate_is_free(&candidate, table) {
                best = match best {
                    Some(other) if other.distance <= candidate.distance => Some(other),
                    _ => Some(candidate),
                };
            }
            k += 1;
        }
        proof {
            assert(candidates@.take(k as int) =~= candidates@);
        }
        best
    }

    /// Tells whether [`ShfsAnalysis::locate`] may be called.
    pub fn function_locatable(&self, func_name: &str, table: &FunctionOffsets) -> (yes: bool)
        ensures
            yes == (self@.located(func_name@, table.deep_view()) is Some),
            self@.well_placed() && !encode_utf8(func_name@).contains(0) ==> yes,
    {
        proof {
            if self@.well_placed() {
                well_placed_binaries_can_be_searched(self@, func_name@, 0);
            }
        }
        if !self.string_vaddr_in_range(func_name) {
            return false;
        }
        let string_vaddr: u64 = match self.find_string_vaddr(func_name) {
            Err(_) => return true,
            Ok(string_vaddr) => string_vaddr,
        };
        let refs: Vec<u64> = match self.find_string_refs_vaddr(string_vaddr) {
            Err(_) => return true,
            Ok(refs) => refs,
        };
        assert(refs.deep_view() =~= refs@);
        if !self.refs_in_range(refs.as_slice()) {
            return false;
        }
        let candidates: Vec<Candidate> = self.find_candidates(refs.as_slice());
        proof {
            candidates_precede_references(self@, refs@);
            closest_free_is_closest(self@, candidates@, table.deep_view());
            if let Some(candidate) = self@.closest_free(candidates@, table.deep_view()) {
                if self@.well_placed() {
                    well_placed_binaries_can_be_searched(self@, func_name@, candidate.vaddr);
                }
                if let Ok(code) = self@.text_data() {
                    prologue_is_closest(
                        self@.text_section.sh_addr,
                        code,
                        (candidate.vaddr + candidate.distance) as u64,
                    );
                }
            }
        }
        match self.find_closest_free(candidates.as_slice(), table) {
            None => true,
            Some(candidate) => self.offset_in_range(candidate.vaddr) && self.function_in_range(
                func_name,
                candidate.vaddr,
            ),
        }
    }

    /// Finds a function, given those found before.
    pub fn locate(&self, func_name: &str, table: &FunctionOffsets) -> (entry: Result<
        FunctionEntry,
        ShfsError,
    >)
        requires
            self@.located(func_name@, table.deep_view()) is Some,
        ensures
            Some(modelled(entry)) == self@.located(func_name@, table.deep_view()),
    {
        let string_vaddr: u64 = match self.find_string_vaddr(func_name) {
            Err(e) => return Err(e),
            Ok(string_vaddr) => string_vaddr,
        };
        let refs: Vec<u64> = match self.find_string_refs_vaddr(string_vaddr) {
            Err(e) => return Err(e),
            Ok(refs) => refs,
        };
        assert(refs.deep_view() =~= refs@);
        let candidates: Vec<Candidate> = self.find_candidates(refs.as_slice());
        let vaddr: u64 = match self.find_closest_free(candidates.as_slice(), table) {
            None => return Err(ShfsError::PrologueNotFound { name: func_name.to_string() }),
            Some(candidate) => candidate.vaddr,
        };
        let listing: Vec<String> = match self.verify_function(func_name, vaddr) {
            Err(e) => return Err(e),
            Ok(listing) => listing,
        };
        match self.vaddr_to_offset(vaddr) {
            Err(e) => Err(e),
            Ok(offset) => Ok(FunctionEntry { name: func_name.to_string(), offset, listing }),
        }
    }

    /// Tells whether [`ShfsAnalysis::locate_all`] may be called.
    pub fn all_locatable(&self, functions: &[&str]) -> (yes: bool)
        ensures
            yes == (self@.located_all(functions.deep_view()) is Some),
            self@.well_placed() && names_plain(functions.deep_view()) ==> yes,
    {
        let ghost names = functions.deep_view();
        let mut table: FunctionOffsets = FunctionOffsets::new();
        let mut k: usize = 0;
        while k < functions.len()
            invariant
                k <= functions.len(),
                names == functions.deep_view(),
                self@.located_all(names.take(k as int)) == Some(
                    Ok::<_, ErrorModel>(table.deep_view()),
                ),
            decreases functions.len() - k,
        {
            proof {
                assert(names.take(k + 1).drop_last() =~= names.take(k as int));
                assert(names.take(k + 1).last() == functions@[k as int]@);
                self@.lemma_located_all_stops(names, k + 1);
            }
            if !self.function_locatable(functions[k], &table) {
                return false;
            }
            match self.locate(functions[k], &table) {
                Ok(entry) => {
                    table.record(entry);
                },
                Err(_) => return true,
            }
            k += 1;
        }
        proof {
            assert(names.take(k as int) =~= names);
        }
        true
    }

    /// Finds functions, one after the other.
    pub fn locate_all(&self, functions: &[&str]) -> (table: Result<FunctionOffsets, ShfsError>)
        requires
            self@.located_all(functions.deep_view()) is Some,
        ensures
            Some(modelled(table)) == self@.located_all(functions.deep_view()),
            table matches Ok(table) ==> table.wf(),
    {
        let ghost names = functions.deep_view();
        let mut table: FunctionOffsets = FunctionOffsets::new();
        let mut k: usize = 0;
        while k < functions.len()
            invariant
                k <= functions.len(),
                names == functions.deep_view(),
                table.wf(),
                self@.located_all(names) is Some,
                self@.located_all(names.take(k as int)) == Some(
                    Ok::<_, ErrorModel>(table.deep_view()),
                ),
            decreases functions.len() - k,
        {
            proof {
                assert(names.take(k + 1).drop_last() =~= names.take(k as int));
                assert(names.take(k + 1).last() == functions@[k as int]@);
                self@.lemma_located_all_stops(names, k + 1);
            }
            match self.locate(functions[k], &table) {
                Ok(entry) => {
                    table.record(entry);
                },
                Err(e) => return Err(e),
            }
            k += 1;
        }
        proof {
            assert(names.take(k as int) =~= names);
        }
        Ok(table)
    }
}

/// Finds the file offsets of the functions with the given names in the binary.
pub fn get_function_offsets(functions: &[&str], binary: BinaryFile) -> (offsets: Result<
    FunctionOffsets,
    ShfsError,
>)
    requires
        function_offsets(functions.deep_view(), binary@) is Some,
    ensures
        Some(modelled(offsets)) == function_offsets(functions.deep_view(), binary@),
        offsets matches Ok(table) ==> table.wf(),
{
    match binary {
        BinaryFile::Missing => Err(
            ShfsError::BinaryNotFound { path: SHFS_BINARY_PATH.to_string() },
        ),
        BinaryFile::Unreadable(source) => Err(
            ShfsError::ReadError { path: SHFS_BINARY_PATH.to_string(), source },
        ),
        BinaryFile::Contents(file) => match ShfsAnalysis::new(file) {
            Err(e) => Err(e),
            Ok(analysis) => analysis.locate_all(functions),
        },
    }
}

/// Finds the file offsets of functions like [`get_function_offsets`], in any
/// binary: `None` if an address leaves the range that it has to lie in, which
/// the addresses of a well-placed binary never do.
pub fn checked_get_function_offsets(functions: &[&str], binary: BinaryFile) -> (offsets: Option<
    Result<FunctionOffsets, ShfsError>,
>)
    ensures
        match offsets {
            Some(offsets) => Some(modelled(offsets)) == function_offsets(
                functions.deep_view(),
                binary@,
            ),
            None => function_offsets(functions.deep_view(), binary@) is None,
        },
        binary_well_placed(binary@) && names_plain(functions.deep_view()) ==> offsets is Some,
        offsets matches Some(Ok(table)) ==> table.wf(),
{
    if let BinaryFile::Contents(file) = &binary {
        if let Ok(analysis) = ShfsAnalysis::new(file) {
            if !analysis.all_locatable(functions) {
                return None;
            }
        }
    }
    Some(get_function_offsets(functions, binary))
}

} // verus!
