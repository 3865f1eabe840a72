//! The table of the functions found: a map from names to file offsets.

use vstd::prelude::*;

verus! {

/// A function that was found.
#[derive(Debug)]
pub struct FunctionEntry {
    /// The name of the function.
    pub name: String,
    /// Where its code begins in the file.
    pub offset: u64,
    /// Its first instructions, one line each.
    pub listing: Vec<String>,
}

/// The mathematical value of a [`FunctionEntry`].
pub struct EntryModel {
    pub name: Seq<char>,
    pub offset: u64,
    pub listing: Seq<Seq<char>>,
}

impl DeepView for FunctionEntry {
    type V = EntryModel;

    open spec fn deep_view(&self) -> EntryModel {
        EntryModel {
            name: self.name@,
            offset: self.offset,
            listing: self.listing.deep_view(),
        }
    }
}

/// The functions found, in the order in which their names were first recorded.
#[derive(Debug)]
pub struct FunctionOffsets {
    pub entries: Vec<FunctionEntry>,
}

impl DeepView for FunctionOffsets {
    type V = Seq<EntryModel>;

    open spec fn deep_view(&self) -> Seq<EntryModel> {
        self.entries.deep_view()
    }
}

/// No two entries have the same name.
pub open spec fn names_distinct(table: Seq<EntryModel>) -> bool {
    forall|i: int, j: int|
        0 <= i < j < table.len() ==> (#[trigger] table[i]).name != (#[trigger] table[j]).name
}

/// No two entries have the same offset.
pub open spec fn offsets_distinct(table: Seq<EntryModel>) -> bool {
    forall|i: int, j: int|
        0 <= i < j < table.len() ==> (#[trigger] table[i]).offset != (#[trigger] table[j]).offset
}

/// The position of the first entry with the name, or the number of entries.
pub open spec fn position_of(table: Seq<EntryModel>, name: Seq<char>) -> int
    decreases table.len(),
{
    if table.len() == 0 || table[0].name == name {
        0
    } else {
        1 + position_of(table.skip(1), name)
    }
}

/// Some entry has the offset.
pub open spec fn offset_taken(table: Seq<EntryModel>, offset: u64) -> bool {
    exists|k: int| 0 <= k < table.len() && (#[trigger] table[k]).offset == offset
}

/// The table with an entry recorded: in the place of the entry with the same
/// name, or after all others.
pub open spec fn recorded(table: Seq<EntryModel>, entry: EntryModel) -> Seq<EntryModel> {
    let at: int = position_of(table, entry.name);
    if at < table.len() {
        table.update(at, entry)
    } else {
        table.push(entry)
    }
}

/// The map from names to offsets that a table stands for.
pub open spec fn offset_map(table: Seq<EntryModel>) -> Map<Seq<char>, u64> {
    Map::new(
        |name: Seq<char>| position_of(table, name) < table.len(),
        |name: Seq<char>| table[position_of(table, name)].offset,
    )
}

/// The position of a name is that of the first entry with it, if there is one.
pub proof fn position_of_is_first(table: Seq<EntryModel>, name: Seq<char>)
    ensures
        0 <= position_of(table, name) <= table.len(),
        position_of(table, name) < table.len() ==> table[position_of(table, name)].name == name,
        forall|k: int|
            0 <= k < position_of(table, name) ==> (#[trigger] table[k]).name != name,
    decreases table.len(),
{
    if table.len() > 0 && table[0].name != name {
        let rest = table.skip(1);
        position_of_is_first(rest, name);
        assert forall|k: int| 0 < k < table.len() implies rest[k - 1] == #[trigger] table[k] by {}
    }
}

/// Recording an entry is inserting its offset under its name, and keeps the
/// names distinct. It keeps the offsets distinct if the offset is a new one.
pub proof fn recording_inserts(table: Seq<EntryModel>, entry: EntryModel)
    requires
        names_distinct(table),
    ensures
        names_distinct(recorded(table, entry)),
        offset_map(recorded(table, entry)) == offset_map(table).insert(entry.name, entry.offset),
        offsets_distinct(table) && !offset_taken(table, entry.offset) ==> offsets_distinct(
            recorded(table, entry),
        ),
{
    let after = recorded(table, entry);
    position_of_is_first(table, entry.name);
    assert forall|name: Seq<char>| #[trigger] offset_map(after).dom().contains(name) <==> offset_map(
        table,
    ).insert(entry.name, entry.offset).dom().contains(name) by {
        position_of_is_first(table, name);
        position_of_is_first(after, name);
        if name == entry.name {
            let at = position_of(table, name);
            assert(after[at].name == name);
        } else if position_of(table, name) < table.len() {
            assert(after[position_of(table, name)].name == name);
        } else if position_of(after, name) < after.len() {
            assert(after[position_of(after, name)].name == name);
        }
    }
    assert forall|name: Seq<char>| #[trigger] offset_map(after).dom().contains(name) implies offset_map(
        after,
    )[name] == offset_map(table).insert(entry.name, entry.offset)[name] by {
        position_of_is_first(table, name);
        position_of_is_first(after, name);
        let p = position_of(after, name);
        if name == entry.name {
            let at = position_of(table, name);
            assert(after[at].name == name);
        } else {
            assert(after[p].name == name);
            assert(p < table.len() && table[p] == after[p]);
        }
    }
    assert(offset_map(after) =~= offset_map(table).insert(entry.name, entry.offset));
}

/// Where no two entries have the same name, recording an entry puts it in the
/// place of the one with its name, or after all others if there is none. Every
/// entry with another name stays in its place as it is.
pub proof fn recording_replaces_or_appends(table: Seq<EntryModel>, entry: EntryModel, k: int)
    requires
        forall|i: int, j: int|
            0 <= i < j < table.len() ==> (#[trigger] table[i]).name != (#[trigger] table[j]).name,
        0 <= k < table.len(),
    ensures
        table.len() <= recorded(table, entry).len(),
        table[k].name != entry.name ==> recorded(table, entry)[k] == table[k],
        table[k].name == entry.name ==> recorded(table, entry)[k] == entry && recorded(
            table,
            entry,
        ).len() == table.len(),
{
    position_of_is_first(table, entry.name);
    let at = position_of(table, entry.name);
    if table[k].name == entry.name {
        assert(at <= k) by {
            if k < at {
                assert(table[k].name != entry.name);
            }
        }
        if at < k {
            assert(table[at].name != table[k].name);
        }
    }
}

/// An entry with a new name is recorded after all others.
pub proof fn recording_a_new_name_appends(table: Seq<EntryModel>, entry: EntryModel)
    requires
        forall|k: int| 0 <= k < table.len() ==> (#[trigger] table[k]).name != entry.name,
    ensures
        recorded(table, entry) == table.push(entry),
{
    position_of_is_first(table, entry.name);
}

/// A table stands for the offset of an entry under its name, and for nothing else:
/// where several entries have the name, for that of the first.
pub proof fn offsets_are_looked_up_by_name(table: Seq<EntryModel>, name: Seq<char>)
    ensures
        match offset_map(table).contains_key(name) {
            true => exists|k: int|
                {
                    &&& 0 <= k < table.len()
                    &&& (#[trigger] table[k]).name == name
                    &&& table[k].offset == offset_map(table)[name]
                    &&& forall|j: int| 0 <= j < k ==> (#[trigger] table[j]).name != name
                },
            false => forall|k: int| 0 <= k < table.len() ==> (#[trigger] table[k]).name != name,
        },
        forall|offset: u64|
            #[trigger] offset_taken(table, offset) <==> exists|k: int|
                0 <= k < table.len() && (#[trigger] table[k]).offset == offset,
{
    position_of_is_first(table, name);
    if offset_map(table).contains_key(name) {
        let at = position_of(table, name);
        assert(table[at].name == name);
    }
}

/// The value of a table has the name, the offset and the listing of each of its
/// entries, in order.
pub proof fn tables_show_their_entries(table: FunctionOffsets, k: int)
    requires
        0 <= k < table.entries@.len(),
    ensures
        table.deep_view().len() == table.entries@.len(),
        table.deep_view()[k].name == table.entries@[k].name@,
        table.deep_view()[k].offset == table.entries@[k].offset,
        table.deep_view()[k].listing.len() == table.entries@[k].listing@.len(),
        forall|n: int|
            0 <= n < table.entries@[k].listing@.len() ==> #[trigger] table.deep_view()[k].listing[n]
                == table.entries@[k].listing@[n]@,
{
}

impl FunctionOffsets {
    /// The table stands for a map: no name is recorded twice.
    pub open spec fn wf(self) -> bool {
        names_distinct(self.deep_view())
    }

    /// A table without entries.
    pub fn new() -> (table: Self)
        ensures
            table.wf(),
            table.deep_view() == Seq::<EntryModel>::empty(),
    {
        let table = FunctionOffsets { entries: Vec::new() };
        assert(table.deep_view() =~= Seq::empty());
        table
    }

    /// The position of the first entry with the name, or the number of entries.
    fn position(&self, name: &String) -> (at: usize)
        ensures
            at == position_of(self.deep_view(), name@),
    {
        let ghost table = self.deep_view();
        let mut at: usize = 0;
        proof {
            assert(table.skip(0) =~= table);
        }
        while at < self.entries.len()
            invariant
                at <= self.entries.len(),
                table == self.deep_view(),
                position_of(table, name@) == at + position_of(table.skip(at as int), name@),
            decreases self.entries.len() - at,
        {
            proof {
                assert(table.skip(at as int)[0] == table[at as int]);
                assert(table.skip(at as int).skip(1) =~= table.skip(at + 1));
            }
            if self.entries[at].name == *name {
                return at;
            }
            at += 1;
        }
        at
    }

    /// The offset recorded under a name.
    pub fn get(&self, name: &str) -> (offset: Option<u64>)
        ensures
            match offset {
                Some(offset) => offset_map(self.deep_view()).contains_pair(name@, offset),
                None => !offset_map(self.deep_view()).contains_key(name@),
            },
    {
        let name: String = name.to_string();
        let at: usize = self.position(&name);
        proof {
            position_of_is_first(self.deep_view(), name@);
        }
        if at < self.entries.len() {
            Some(self.entries[at].offset)
        } else {
            None
        }
    }

    /// Tells whether an entry has the offset.
    pub fn contains_offset(&self, offset: u64) -> (yes: bool)
        ensures
            yes == offset_taken(self.deep_view(), offset),
    {
        let mut k: usize = 0;
        while k < self.entries.len()
            invariant
                k <= self.entries.len(),
                forall|j: int| 0 <= j < k ==> (#[trigger] self.deep_view()[j]).offset != offset,
            decreases self.entries.len() - k,
        {
            if self.entries[k].offset == offset {
                assert(self.deep_view()[k as int].offset == offset);
                return true;
            }
            k += 1;
        }
        false
    }

    /// Records an entry, in the place of the one with the same name if there is
    /// one.
    pub fn record(&mut self, entry: FunctionEntry)
        ensures
            final(self).deep_view() == recorded(old(self).deep_view(), entry.deep_view()),
            old(self).wf() ==> final(self).wf(),
    {
        let at: usize = self.position(&entry.name);
        proof {
            position_of_is_first(self.deep_view(), entry.name@);
        }
        if at < self.entries.len() {
            self.entries.set(at, entry);
        } else {
            self.entries.push(entry);
        }
        proof {
            assert(self.deep_view() =~= recorded(old(self).deep_view(), entry.deep_view()));
            if old(self).wf() {
                recording_inserts(old(self).deep_view(), entry.deep_view());
            }
        }
    }
}

} // verus!
