use crate::attributes::DirectoryEntryAttributes;
use crate::attributes::ALL_FLAGS;
use crate::attributes::DIRECTORY;
use crate::bytes::read_bytes;
use crate::bytes::readable;
use crate::bytes::u16_le;
use crate::bytes::SECTOR_SIZE;
use crate::error::ImageError;
use crate::record::name_bytes;
use crate::record::next_record_position;
use crate::record::read_record;
use crate::record::record_at;
use crate::record::record_end;
use crate::record::RawRecord;
use crate::record::RecordSlot;
use crate::record::RECORD_HEADER_SIZE;
use crate::record::SENTINEL;
use crate::text::ascii_lower;
use crate::text::decode_lossy;
use crate::text::eq_ignoring_ascii_case;
use crate::text::same_name;
use crate::text::utf8_lossy;
use crate::volume_descriptor::VolumeDescriptor;
use vstd::prelude::*;

verus! {

/// A limit on nested directories that is generous for any real disc.
pub const DEFAULT_MAX_DEPTH: u32 = 256;

/// One directory table: its location and its entries in on-disk scan order.
pub struct DirectoryTable {
    pub sector: u32,
    pub size: u32,
    pub entries: Vec<DirectoryEntry>,
}

/// One entry of a directory table.
pub struct DirectoryEntry {
    pub attributes: DirectoryEntryAttributes,
    pub name: String,
    pub name_length: u8,
    pub sector: u32,
    pub size: u32,
    pub subtree_left: u16,
    pub subtree_right: u16,
    pub subdirectory: Option<DirectoryTable>,
}

/// Mathematical model of a directory table.
pub ghost struct TableModel {
    pub sector: u32,
    pub size: u32,
    pub entries: Seq<EntryModel>,
}

/// Mathematical model of a directory entry; `attributes` holds the flag bits.
pub ghost struct EntryModel {
    pub attributes: u8,
    pub name: Seq<char>,
    pub name_length: u8,
    pub sector: u32,
    pub size: u32,
    pub subtree_left: u16,
    pub subtree_right: u16,
    pub subdirectory: Option<TableModel>,
}

/// The model of a table: the models of its entries, in order.
pub open spec fn table_model(table: DirectoryTable) -> TableModel
    decreases table, 1nat,
{
    TableModel {
        sector: table.sector,
        size: table.size,
        entries: Seq::new(
            table.entries@.len(),
            |i: int|
                if 0 <= i < table.entries@.len() {
                    entry_model(table.entries@[i])
                } else {
                    arbitrary()
                },
        ),
    }
}

/// The model of an entry: its fields, and the model of its child table.
pub open spec fn entry_model(entry: DirectoryEntry) -> EntryModel
    decreases entry, 0nat,
{
    EntryModel {
        attributes: entry.attributes.spec_bits(),
        name: entry.name@,
        name_length: entry.name_length,
        sector: entry.sector,
        size: entry.size,
        subtree_left: entry.subtree_left,
        subtree_right: entry.subtree_right,
        subdirectory: match entry.subdirectory {
            Some(table) => Some(table_model(table)),
            None => None,
        },
    }
}

impl View for DirectoryTable {
    type V = TableModel;

    open spec fn view(&self) -> TableModel {
        table_model(*self)
    }
}

impl View for DirectoryEntry {
    type V = EntryModel;

    open spec fn view(&self) -> EntryModel {
        entry_model(*self)
    }
}

/// Whether the directory flag is among `bits`.
pub open spec fn is_directory_bits(bits: u8) -> bool {
    bits & DIRECTORY == DIRECTORY
}

/// The entry that a record stands for, given its decoded name and child table.
pub open spec fn entry_of(record: RawRecord, name: Seq<char>, subdirectory: Option<TableModel>)
    -> EntryModel {
    EntryModel {
        attributes: record.attributes & ALL_FLAGS,
        name,
        name_length: record.name_length,
        sector: record.sector,
        size: record.size,
        subtree_left: record.subtree_left,
        subtree_right: record.subtree_right,
        subdirectory,
    }
}

/// Number of sectors that a table of `size` bytes spans.
pub open spec fn sector_count(size: u32) -> int {
    (size + SECTOR_SIZE - 1) / (SECTOR_SIZE as int)
}

/// Absolute position of sector `sector + index` in an image with the bias `root_offset`.
pub open spec fn sector_position(root_offset: u64, sector: u32, index: int) -> int {
    (sector + index) * SECTOR_SIZE + root_offset
}

/// Entries of one scan followed by those of the next; the first failure wins.
pub open spec fn chain(
    first: Result<Seq<EntryModel>, ImageError>,
    rest: Result<Seq<EntryModel>, ImageError>,
) -> Result<Seq<EntryModel>, ImageError> {
    match first {
        Err(e) => Err(e),
        Ok(head) => match rest {
            Err(e) => Err(e),
            Ok(tail) => Ok(head + tail),
        },
    }
}

/// The table of `size` bytes at `sector`, with at most `depth` levels of
/// directories below it.
pub open spec fn table_at(image: Seq<u8>, root_offset: u64, sector: u32, size: u32, depth: nat)
    -> Result<TableModel, ImageError>
    decreases depth, 3nat, 0nat,
{
    match sectors_from(image, root_offset, sector, 0, sector_count(size), depth) {
        Ok(entries) => Ok(TableModel { sector, size, entries }),
        Err(e) => Err(e),
    }
}

/// The entries of sectors `index .. count` of the table at `sector`.
pub open spec fn sectors_from(
    image: Seq<u8>,
    root_offset: u64,
    sector: u32,
    index: int,
    count: int,
    depth: nat,
) -> Result<Seq<EntryModel>, ImageError>
    decreases depth, 2nat, count - index,
{
    if index >= count {
        Ok(Seq::empty())
    } else {
        chain(
            records_from(image, root_offset, sector_position(root_offset, sector, index), depth),
            sectors_from(image, root_offset, sector, index + 1, count, depth),
        )
    }
}

/// The entries of the records from `pos` up to the first slot that holds none.
pub open spec fn records_from(image: Seq<u8>, root_offset: u64, pos: int, depth: nat) -> Result<
    Seq<EntryModel>,
    ImageError,
>
    decreases depth, 1nat, image.len() + 4 - pos,
{
    match record_at(image, pos) {
        RecordSlot::Truncated => Err(ImageError::Io),
        RecordSlot::EndOfSector => Ok(Seq::empty()),
        RecordSlot::Empty => Ok(Seq::empty()),
        RecordSlot::Entry(record) => match entry_for(image, root_offset, pos, record, depth) {
            Err(e) => Err(e),
            Ok(entry) => chain(
                Ok(seq![entry]),
                records_from(image, root_offset, record_end(pos, record.name_length), depth),
            ),
        },
    }
}

/// The entry of the record at `pos`, with its child table where it is a directory.
pub open spec fn entry_for(
    image: Seq<u8>,
    root_offset: u64,
    pos: int,
    record: RawRecord,
    depth: nat,
) -> Result<EntryModel, ImageError>
    decreases depth, 0nat, 0nat,
{
    let name = utf8_lossy(name_bytes(image, pos, record.name_length));
    if !is_directory_bits(record.attributes) {
        Ok(entry_of(record, name, None))
    } else if depth == 0 {
        Err(ImageError::TooDeep)
    } else {
        match table_at(image, root_offset, record.sector, record.size, (depth - 1) as nat) {
            Ok(table) => Ok(entry_of(record, name, Some(table))),
            Err(e) => Err(e),
        }
    }
}

/// What reading one record at `pos` gives: a failure, nothing where the slot
/// ends the scan of its sector, or the entry with the position of the record
/// that follows it.
pub open spec fn entry_at(image: Seq<u8>, root_offset: u64, pos: int, depth: nat) -> Result<
    Option<(EntryModel, int)>,
    ImageError,
> {
    match record_at(image, pos) {
        RecordSlot::Truncated => Err(ImageError::Io),
        RecordSlot::EndOfSector => Ok(None),
        RecordSlot::Empty => Ok(None),
        RecordSlot::Entry(record) => match entry_for(image, root_offset, pos, record, depth) {
            Err(e) => Err(e),
            Ok(entry) => Ok(Some((entry, record_end(pos, record.name_length)))),
        },
    }
}

/// The models of a run of entries, in order.
pub open spec fn entry_models(entries: Seq<DirectoryEntry>) -> Seq<EntryModel> {
    Seq::new(entries.len(), |i: int| entry_model(entries[i]))
}

/// Entries that were gathered one by one chain with what is left to scan.
proof fn lemma_chain_step(
    done: Seq<EntryModel>,
    entry: EntryModel,
    here: Result<Seq<EntryModel>, ImageError>,
    later: Result<Seq<EntryModel>, ImageError>,
)
    ensures
        chain(Ok(done), chain(chain(Ok(seq![entry]), here), later)) == chain(
            Ok(done.push(entry)),
            chain(here, later),
        ),
{
    match (here, later) {
        (Ok(a), Ok(b)) => {
            assert(done + ((seq![entry] + a) + b) =~= done.push(entry) + (a + b));
        },
        _ => {},
    }
}

/// A scan that adds nothing leaves what follows it unchanged.
proof fn lemma_chain_empty(later: Result<Seq<EntryModel>, ImageError>)
    ensures
        chain(Ok(Seq::empty()), later) == later,
{
    match later {
        Ok(b) => {
            assert(Seq::<EntryModel>::empty() + b =~= b);
        },
        _ => {},
    }
}

impl DirectoryTable {
    /// Reads the root directory table that `volume` names, with every table
    /// below it, allowing at most `max_depth` levels of directories under the root.
    pub fn read_root(image: &[u8], volume: &VolumeDescriptor, max_depth: u32) -> (out: Result<
        DirectoryTable,
        ImageError,
    >)
        ensures
            match out {
                Ok(table) => table_at(
                    image@,
                    volume.root_offset,
                    volume.root_directory_sector,
                    volume.root_directory_size,
                    max_depth as nat,
                ) == Ok::<TableModel, ImageError>(table@) && table.sector
                    == volume.root_directory_sector && table.size == volume.root_directory_size
                    && table_well_formed(table@),
                Err(e) => table_at(
                    image@,
                    volume.root_offset,
                    volume.root_directory_sector,
                    volume.root_directory_size,
                    max_depth as nat,
                ) == Err::<TableModel, ImageError>(e),
            },
    {
        Self::read(
            image,
            volume.root_offset,
            volume.root_directory_sector,
            volume.root_directory_size,
            max_depth,
        )
    }

    /// Reads the table of `size` bytes that starts at `sector`: every sector
    /// of it is scanned from its start up to the first slot without an entry.
    pub fn read(image: &[u8], root_offset: u64, sector: u32, size: u32, depth: u32) -> (out:
        Result<DirectoryTable, ImageError>)
        ensures
            match out {
                Ok(table) => table_at(image@, root_offset, sector, size, depth as nat) == Ok::<
                    TableModel,
                    ImageError,
                >(table@) && table.sector == sector && table.size == size && table_well_formed(
                    table@,
                ),
                Err(e) => table_at(image@, root_offset, sector, size, depth as nat) == Err::<
                    TableModel,
                    ImageError,
                >(e),
            },
        decreases depth, 1nat,
    {
        let mut entries: Vec<DirectoryEntry> = Vec::new();
        let per_sector: u32 = SECTOR_SIZE as u32;
        let count: u32 = size / per_sector + (if size % per_sector != 0 { 1u32 } else { 0u32 });
        let ghost whole = sectors_from(image@, root_offset, sector, 0, count as int, depth as nat);
        proof {
            lemma_chain_empty(whole);
        }
        let mut index: u32 = 0;
        while index < count
            invariant
                index <= count,
                count as int == sector_count(size),
                whole == sectors_from(image@, root_offset, sector, 0, count as int, depth as nat),
                whole == chain(
                    Ok(entry_models(entries@)),
                    sectors_from(image@, root_offset, sector, index as int, count as int, depth as nat),
                ),
            decreases count - index,
        {
            let start: u128 = (sector as u128 + index as u128) * (SECTOR_SIZE as u128)
                + root_offset as u128;
            let ghost later = sectors_from(
                image@,
                root_offset,
                sector,
                index + 1,
                count as int,
                depth as nat,
            );
            let mut pos: u128 = start;
            let mut scanning: bool = true;
            while scanning
                invariant
                    count as int == sector_count(size),
                    whole == sectors_from(
                        image@,
                        root_offset,
                        sector,
                        0,
                        count as int,
                        depth as nat,
                    ),
                    whole == chain(
                        Ok(entry_models(entries@)),
                        if scanning {
                            chain(records_from(image@, root_offset, pos as int, depth as nat), later)
                        } else {
                            later
                        },
                    ),
                decreases
                        (if scanning {
                            1int
                        } else {
                            0int
                        }),
                        (if pos as int <= image@.len() + 3 {
                            image@.len() + 4 - pos
                        } else {
                            0
                        }),
            {
                match DirectoryEntry::read(image, root_offset, pos, depth) {
                    Err(e) => {
                        return Err(e);
                    },
                    Ok(None) => {
                        proof {
                            lemma_chain_empty(later);
                        }
                        scanning = false;
                    },
                    Ok(Some((entry, next))) => {
                        proof {
                            lemma_chain_step(
                                entry_models(entries@),
                                entry@,
                                records_from(image@, root_offset, next as int, depth as nat),
                                later,
                            );
                            assert(entry_models(entries@.push(entry)) =~= entry_models(
                                entries@,
                            ).push(entry@));
                        }
                        entries.push(entry);
                        pos = next;
                    },
                }
            }
            index += 1;
        }
        let table = DirectoryTable { sector, size, entries };
        proof {
            lemma_table_at_well_formed(image@, root_offset, sector, size, depth as nat);
            assert(table@.entries =~= entry_models(entries@));
            assert(entry_models(entries@) + Seq::<EntryModel>::empty() =~= entry_models(entries@));
        }
        Ok(table)
    }
}

impl DirectoryTable {
    /// Finds the first entry whose name equals `name` when ASCII letters are
    /// compared without case. The entries are tried in their stored order.
    pub fn get_entry(&self, name: &str) -> (found: Option<&DirectoryEntry>)
        ensures
            match found {
                Some(entry) => exists|i: int|
                    first_match(self@.entries, name@, i) && *entry == self.entries@[i],
                None => forall|i: int|
                    0 <= i < self@.entries.len() ==> !eq_ignoring_ascii_case(
                        #[trigger] self@.entries[i].name,
                        name@,
                    ),
            },
    {
        let mut index: usize = 0;
        while index < self.entries.len()
            invariant
                index <= self.entries.len(),
                forall|j: int|
                    0 <= j < index ==> !eq_ignoring_ascii_case(
                        #[trigger] self@.entries[j].name,
                        name@,
                    ),
            decreases self.entries.len() - index,
        {
            let entry = &self.entries[index];
            if same_name(entry.name.as_str(), name) {
                assert(first_match(self@.entries, name@, index as int));
                return Some(entry);
            }
            index += 1;
        }
        None
    }
}

impl DirectoryEntry {
    /// Builds the entry that `record` stands for from its decoded name and
    /// its child table.
    pub fn new(record: RawRecord, name: String, subdirectory: Option<DirectoryTable>) -> (entry:
        DirectoryEntry)
        ensures
            entry@ == entry_of(
                record,
                name@,
                match subdirectory {
                    Some(table) => Some(table@),
                    None => None,
                },
            ),
            entry.name == name,
            entry.subdirectory == subdirectory,
    {
        DirectoryEntry {
            attributes: DirectoryEntryAttributes::from_bits_truncate(record.attributes),
            name,
            name_length: record.name_length,
            sector: record.sector,
            size: record.size,
            subtree_left: record.subtree_left,
            subtree_right: record.subtree_right,
            subdirectory,
        }
    }

    /// Reads the record at `pos`. Gives the entry together with the position
    /// of the record after it, or nothing where the slot ends the scan of its
    /// sector. A directory's child table is read before the entry is returned.
    pub fn read(image: &[u8], root_offset: u64, pos: u128, depth: u32) -> (out: Result<
        Option<(DirectoryEntry, u128)>,
        ImageError,
    >)
        ensures
            match out {
                Ok(Some((entry, next))) => entry_at(
                    image@,
                    root_offset,
                    pos as int,
                    depth as nat,
                ) == Ok::<Option<(EntryModel, int)>, ImageError>(Some((entry@, next as int))),
                Ok(None) => entry_at(image@, root_offset, pos as int, depth as nat) == Ok::<
                    Option<(EntryModel, int)>,
                    ImageError,
                >(None),
                Err(e) => entry_at(image@, root_offset, pos as int, depth as nat) == Err::<
                    Option<(EntryModel, int)>,
                    ImageError,
                >(e),
            },
        decreases depth, 0nat,
    {
        match read_record(image, pos) {
            RecordSlot::Truncated => Err(ImageError::Io),
            RecordSlot::EndOfSector => Ok(None),
            RecordSlot::Empty => Ok(None),
            RecordSlot::Entry(record) => {
                proof {
                    vstd::slice::axiom_spec_len(image);
                }
                let stored = match read_bytes(
                    image,
                    pos + RECORD_HEADER_SIZE,
                    record.name_length as usize,
                ) {
                    Some(bytes) => bytes,
                    None => { return Err(ImageError::Io); },
                };
                let name = decode_lossy(stored);
                let next = next_record_position(pos, record.name_length);
                let attributes = DirectoryEntryAttributes::from_bits_truncate(record.attributes);
                let subdirectory = if attributes.contains(DirectoryEntryAttributes::directory()) {
                    if depth == 0 {
                        return Err(ImageError::TooDeep);
                    }
                    match DirectoryTable::read(
                        image,
                        root_offset,
                        record.sector,
                        record.size,
                        depth - 1,
                    ) {
                        Ok(table) => Some(table),
                        Err(e) => { return Err(e); },
                    }
                } else {
                    None
                };
                Ok(Some((DirectoryEntry::new(record, name, subdirectory), next)))
            },
        }
    }

    /// Whether the entry is a directory.
    pub fn is_directory(&self) -> (found: bool)
        ensures
            found == is_directory_bits(self@.attributes),
    {
        self.attributes.contains(DirectoryEntryAttributes::directory())
    }
}

/// Whether `i` is the first index at which `entries` holds the name `name`,
/// ASCII letters compared without case.
pub open spec fn first_match(entries: Seq<EntryModel>, name: Seq<char>, i: int) -> bool {
    &&& 0 <= i < entries.len()
    &&& eq_ignoring_ascii_case(entries[i].name, name)
    &&& forall|j: int| 0 <= j < i ==> !eq_ignoring_ascii_case(#[trigger] entries[j].name, name)
}

/// Two names that are equal without case are equal without case to the same texts.
proof fn lemma_same_matches(text: Seq<char>, a: Seq<char>, b: Seq<char>)
    requires
        eq_ignoring_ascii_case(a, b),
    ensures
        eq_ignoring_ascii_case(text, a) == eq_ignoring_ascii_case(text, b),
{
    if eq_ignoring_ascii_case(text, a) {
        assert(eq_ignoring_ascii_case(text, b));
    }
    if eq_ignoring_ascii_case(text, b) {
        assert forall|i: int| 0 <= i < text.len() implies ascii_lower(#[trigger] text[i])
            == ascii_lower(a[i]) by {
            assert(ascii_lower(a[i]) == ascii_lower(b[i]));
        }
    }
}

/// Lookup does not see the case of ASCII letters: two names that differ
/// only in it find the same entry, or both find none.
pub proof fn lemma_lookup_ignores_case(entries: Seq<EntryModel>, a: Seq<char>, b: Seq<char>)
    requires
        eq_ignoring_ascii_case(a, b),
    ensures
        forall|i: int| first_match(entries, a, i) == first_match(entries, b, i),
{
    assert forall|j: int| 0 <= j < entries.len() implies eq_ignoring_ascii_case(
        #[trigger] entries[j].name,
        a,
    ) == eq_ignoring_ascii_case(entries[j].name, b) by {
        lemma_same_matches(entries[j].name, a, b);
    }
}

/// A name matches itself in any spelling of its ASCII letters' case, and
/// matching does not depend on which side is which.
pub proof fn lemma_match_symmetric(a: Seq<char>, b: Seq<char>)
    ensures
        eq_ignoring_ascii_case(a, a),
        eq_ignoring_ascii_case(a, b) == eq_ignoring_ascii_case(b, a),
{
    if eq_ignoring_ascii_case(a, b) {
        assert forall|i: int| 0 <= i < b.len() implies ascii_lower(#[trigger] b[i])
            == ascii_lower(a[i]) by {
            assert(ascii_lower(a[i]) == ascii_lower(b[i]));
        }
    }
    if eq_ignoring_ascii_case(b, a) {
        assert forall|i: int| 0 <= i < a.len() implies ascii_lower(#[trigger] a[i])
            == ascii_lower(b[i]) by {
            assert(ascii_lower(b[i]) == ascii_lower(a[i]));
        }
    }
}

/// Every entry of the table, and of the tables below it, is well formed.
pub open spec fn table_well_formed(table: TableModel) -> bool
    decreases table, 1nat,
{
    forall|i: int| 0 <= i < table.entries.len() ==> entry_well_formed(#[trigger] table.entries[i])
}

/// An entry holds defined flags only, is neither a sentinel nor an empty
/// slot, and owns a child table exactly when it is a directory; the child
/// lies where the entry says and is well formed itself.
pub open spec fn entry_well_formed(entry: EntryModel) -> bool
    decreases entry, 0nat,
{
    &&& entry.attributes & ALL_FLAGS == entry.attributes
    &&& entry.size != 0
    &&& entry.subtree_left != SENTINEL
    &&& entry.subtree_right != SENTINEL
    &&& match entry.subdirectory {
        Some(table) => {
            &&& is_directory_bits(entry.attributes)
            &&& table.sector == entry.sector
            &&& table.size == entry.size
            &&& table_well_formed(table)
        },
        None => !is_directory_bits(entry.attributes),
    }
}

/// Whether each of `entries` is well formed.
pub open spec fn all_well_formed(entries: Seq<EntryModel>) -> bool {
    forall|i: int| 0 <= i < entries.len() ==> entry_well_formed(#[trigger] entries[i])
}

/// A table that was read lies where it was asked for, and each directory in
/// it, at any depth, owns the child table that its own sector and size name.
pub proof fn lemma_table_at_well_formed(
    image: Seq<u8>,
    root_offset: u64,
    sector: u32,
    size: u32,
    depth: nat,
)
    ensures
        table_at(image, root_offset, sector, size, depth) matches Ok(table) ==> {
            &&& table.sector == sector
            &&& table.size == size
            &&& table_well_formed(table)
        },
    decreases depth, 3nat, 0nat,
{
    lemma_sectors_well_formed(image, root_offset, sector, 0, sector_count(size), depth);
}

proof fn lemma_sectors_well_formed(
    image: Seq<u8>,
    root_offset: u64,
    sector: u32,
    index: int,
    count: int,
    depth: nat,
)
    ensures
        sectors_from(image, root_offset, sector, index, count, depth) matches Ok(entries)
            ==> all_well_formed(entries),
    decreases depth, 2nat, count - index,
{
    if index < count {
        lemma_records_well_formed(
            image,
            root_offset,
            sector_position(root_offset, sector, index),
            depth,
        );
        lemma_sectors_well_formed(image, root_offset, sector, index + 1, count, depth);
    }
}

proof fn lemma_records_well_formed(image: Seq<u8>, root_offset: u64, pos: int, depth: nat)
    ensures
        records_from(image, root_offset, pos, depth) matches Ok(entries) ==> all_well_formed(
            entries,
        ),
    decreases depth, 1nat, image.len() + 4 - pos,
{
    match record_at(image, pos) {
        RecordSlot::Entry(record) => {
            lemma_entry_well_formed(image, root_offset, pos, record, depth);
            lemma_records_well_formed(
                image,
                root_offset,
                record_end(pos, record.name_length),
                depth,
            );
        },
        _ => {},
    }
}

proof fn lemma_entry_well_formed(
    image: Seq<u8>,
    root_offset: u64,
    pos: int,
    record: RawRecord,
    depth: nat,
)
    requires
        record_at(image, pos) == RecordSlot::Entry(record),
    ensures
        entry_for(image, root_offset, pos, record, depth) matches Ok(entry) ==> entry_well_formed(
            entry,
        ),
    decreases depth, 0nat, 0nat,
{
    let bits = record.attributes;
    assert((bits & 0xb7u8) & 0xb7u8 == bits & 0xb7u8) by (bit_vector);
    assert(((bits & 0xb7u8) & 0x10u8 == 0x10u8) == (bits & 0x10u8 == 0x10u8)) by (bit_vector);
    if is_directory_bits(bits) && depth > 0 {
        lemma_table_at_well_formed(
            image,
            root_offset,
            record.sector,
            record.size,
            (depth - 1) as nat,
        );
    }
}

/// A sector that starts with the sentinel in its left search-tree index adds
/// no entry to its table, and the scan goes on with the sector after it.
pub proof fn lemma_sentinel_skips_sector(
    image: Seq<u8>,
    root_offset: u64,
    sector: u32,
    index: int,
    count: int,
    depth: nat,
)
    requires
        0 <= index < count,
        readable(image, sector_position(root_offset, sector, index), 4),
        u16_le(image, sector_position(root_offset, sector, index)) == SENTINEL,
    ensures
        records_from(image, root_offset, sector_position(root_offset, sector, index), depth)
            == Ok::<Seq<EntryModel>, ImageError>(Seq::empty()),
        sectors_from(image, root_offset, sector, index, count, depth) == sectors_from(
            image,
            root_offset,
            sector,
            index + 1,
            count,
            depth,
        ),
{
    lemma_chain_empty(sectors_from(image, root_offset, sector, index + 1, count, depth));
}

/// The limit on nesting only ever refuses: an outcome other than `TooDeep`
/// stays the same under every larger limit.
pub proof fn lemma_larger_limit_keeps_outcome(
    image: Seq<u8>,
    root_offset: u64,
    sector: u32,
    size: u32,
    depth: nat,
    more: nat,
)
    requires
        depth <= more,
        table_at(image, root_offset, sector, size, depth) != Err::<TableModel, ImageError>(
            ImageError::TooDeep,
        ),
    ensures
        table_at(image, root_offset, sector, size, more) == table_at(
            image,
            root_offset,
            sector,
            size,
            depth,
        ),
    decreases depth, 3nat, 0nat,
{
    lemma_sectors_keep_outcome(image, root_offset, sector, 0, sector_count(size), depth, more);
}

proof fn lemma_sectors_keep_outcome(
    image: Seq<u8>,
    root_offset: u64,
    sector: u32,
    index: int,
    count: int,
    depth: nat,
    more: nat,
)
    requires
        depth <= more,
        sectors_from(image, root_offset, sector, index, count, depth) != Err::<
            Seq<EntryModel>,
            ImageError,
        >(ImageError::TooDeep),
    ensures
        sectors_from(image, root_offset, sector, index, count, more) == sectors_from(
            image,
            root_offset,
            sector,
            index,
            count,
            depth,
        ),
    decreases depth, 2nat, count - index,
{
    if index < count {
        let pos = sector_position(root_offset, sector, index);
        lemma_records_keep_outcome(image, root_offset, pos, depth, more);
        if records_from(image, root_offset, pos, depth) is Ok {
            lemma_sectors_keep_outcome(image, root_offset, sector, index + 1, count, depth, more);
        }
    }
}

proof fn lemma_records_keep_outcome(
    image: Seq<u8>,
    root_offset: u64,
    pos: int,
    depth: nat,
    more: nat,
)
    requires
        depth <= more,
        records_from(image, root_offset, pos, depth) != Err::<Seq<EntryModel>, ImageError>(
            ImageError::TooDeep,
        ),
    ensures
        records_from(image, root_offset, pos, more) == records_from(
            image,
            root_offset,
            pos,
            depth,
        ),
    decreases depth, 1nat, image.len() + 4 - pos,
{
    match record_at(image, pos) {
        RecordSlot::Entry(record) => {
            lemma_entry_keeps_outcome(image, root_offset, pos, record, depth, more);
            if entry_for(image, root_offset, pos, record, depth) is Ok {
                lemma_records_keep_outcome(
                    image,
                    root_offset,
                    record_end(pos, record.name_length),
                    depth,
                    more,
                );
            }
        },
        _ => {},
    }
}

proof fn lemma_entry_keeps_outcome(
    image: Seq<u8>,
    root_offset: u64,
    pos: int,
    record: RawRecord,
    depth: nat,
    more: nat,
)
    requires
        depth <= more,
        record_at(image, pos) == RecordSlot::Entry(record),
        entry_for(image, root_offset, pos, record, depth) != Err::<EntryModel, ImageError>(
            ImageError::TooDeep,
        ),
    ensures
        entry_for(image, root_offset, pos, record, more) == entry_for(
            image,
            root_offset,
            pos,
            record,
            depth,
        ),
    decreases depth, 0nat, 0nat,
{
    if is_directory_bits(record.attributes) && depth > 0 {
        lemma_larger_limit_keeps_outcome(
            image,
            root_offset,
            record.sector,
            record.size,
            (depth - 1) as nat,
            (more - 1) as nat,
        );
    }
}

} // verus!
