use xdvdfs::attributes::ARCHIVE;
use xdvdfs::attributes::DIRECTORY;
use xdvdfs::directory_table::DEFAULT_MAX_DEPTH;
use xdvdfs::record::next_record_position;
use xdvdfs::record::read_record;
use xdvdfs::record::RawRecord;
use xdvdfs::record::RecordSlot;
use xdvdfs::DirectoryEntry;
use xdvdfs::DirectoryEntryAttributes;
use xdvdfs::DirectoryTable;
use xdvdfs::ImageError;
use xdvdfs::VolumeDescriptor;

const SECTOR: usize = 2048;

fn blank_image(sectors: usize) -> Vec<u8> {
    vec![0xff_u8; sectors * SECTOR]
}

fn record(left: u16, right: u16, sector: u32, size: u32, attributes: u8, name: &[u8]) -> Vec<u8> {
    let mut out = Vec::new();
    out.extend_from_slice(&left.to_le_bytes());
    out.extend_from_slice(&right.to_le_bytes());
    out.extend_from_slice(&sector.to_le_bytes());
    out.extend_from_slice(&size.to_le_bytes());
    out.push(attributes);
    out.push(name.len() as u8);
    out.extend_from_slice(name);
    out
}

fn put(image: &mut [u8], at: usize, bytes: &[u8]) {
    image[at..at + bytes.len()].copy_from_slice(bytes);
}

fn volume(root_offset: u64, sector: u32, size: u32, image: &[u8]) -> VolumeDescriptor {
    let volume_size = image.len() as u64 - root_offset;
    VolumeDescriptor {
        root_offset,
        sector_size: 2048,
        identifier: *b"MICROSOFT*XBOX*MEDIA",
        root_directory_sector: sector,
        root_directory_size: size,
        image_creation_time: [0; 8],
        volume_size,
        volume_sectors: volume_size / 2048,
    }
}

#[test]
fn single_file_in_root() {
    let mut image = blank_image(33);
    put(&mut image, 32 * SECTOR, &record(0, 0, 100, 1234, 0x20, b"HELLO.TXT"));
    let header = volume(0, 32, 2048, &image);
    let root = DirectoryTable::read_root(&image, &header, 8).unwrap();
    assert_eq!(root.sector, 32);
    assert_eq!(root.size, 2048);
    assert_eq!(root.entries.len(), 1);
    let entry = &root.entries[0];
    assert!(!entry.is_directory());
    assert_eq!(entry.name, "HELLO.TXT");
    assert_eq!(entry.name_length, 9);
    assert_eq!(entry.sector, 100);
    assert_eq!(entry.size, 1234);
    assert_eq!(entry.subtree_left, 0);
    assert_eq!(entry.subtree_right, 0);
    assert_eq!(entry.attributes.bits(), ARCHIVE);
    assert!(entry.subdirectory.is_none());
}

#[test]
fn directory_spans_two_sectors() {
    let mut image = blank_image(42);
    put(&mut image, 32 * SECTOR, &record(1, 2, 40, 4096, 0x10, b"DATA"));
    put(&mut image, 40 * SECTOR, &record(0, 0, 50, 10, 0x20, b"A.TXT"));
    put(&mut image, 41 * SECTOR, &record(0, 0, 51, 20, 0x20, b"B.TXT"));
    let header = volume(0, 32, 2048, &image);
    let root = DirectoryTable::read_root(&image, &header, 8).unwrap();
    assert_eq!(root.entries.len(), 1);
    let entry = &root.entries[0];
    assert!(entry.is_directory());
    assert_eq!(entry.subtree_left, 1);
    assert_eq!(entry.subtree_right, 2);
    let child = entry.subdirectory.as_ref().unwrap();
    assert_eq!(child.sector, 40);
    assert_eq!(child.size, 4096);
    assert_eq!(child.entries.len(), 2);
    assert_eq!(child.entries[0].name, "A.TXT");
    assert_eq!(child.entries[0].sector, 50);
    assert_eq!(child.entries[1].name, "B.TXT");
    assert_eq!(child.entries[1].size, 20);
}

#[test]
fn partial_last_sector_is_scanned() {
    let mut image = blank_image(35);
    put(&mut image, 33 * SECTOR, &record(0, 0, 1, 1, 0x20, b"ONE"));
    put(&mut image, 34 * SECTOR, &record(0, 0, 2, 2, 0x20, b"TWO"));
    let whole = DirectoryTable::read(&image, 0, 33, 2048, 0).unwrap();
    assert_eq!(whole.entries.len(), 1);
    let more = DirectoryTable::read(&image, 0, 33, 2049, 0).unwrap();
    assert_eq!(more.entries.len(), 2);
    assert_eq!(more.entries[1].name, "TWO");
    let none = DirectoryTable::read(&image, 0, 33, 0, 0).unwrap();
    assert_eq!(none.entries.len(), 0);
    assert_eq!(none.sector, 33);
    assert_eq!(none.size, 0);
}

#[test]
fn sibling_scan_resumes_after_subdirectory() {
    let mut image = blank_image(41);
    let first = record(0, 0, 40, 2048, 0x10, b"DIR");
    put(&mut image, 32 * SECTOR, &first);
    put(&mut image, 32 * SECTOR + 20, &record(0, 0, 7, 7, 0x20, b"AFTER.BIN"));
    put(&mut image, 40 * SECTOR, &record(0, 0, 8, 8, 0x20, b"INNER"));
    let root = DirectoryTable::read(&image, 0, 32, 2048, 1).unwrap();
    assert_eq!(root.entries.len(), 2);
    assert_eq!(root.entries[0].name, "DIR");
    assert_eq!(root.entries[0].subdirectory.as_ref().unwrap().entries[0].name, "INNER");
    assert_eq!(root.entries[1].name, "AFTER.BIN");
    assert!(root.entries[1].subdirectory.is_none());
}

#[test]
fn sentinel_ends_sector_and_next_sector_is_read() {
    let mut image = blank_image(35);
    put(&mut image, 33 * SECTOR, &[0xff, 0xff, 0x00, 0x00]);
    put(&mut image, 33 * SECTOR + 4, &record(0, 0, 9, 9, 0x20, b"GHOST"));
    put(&mut image, 34 * SECTOR, &record(0, 0, 3, 3, 0x20, b"REAL"));
    let table = DirectoryTable::read(&image, 0, 33, 4096, 0).unwrap();
    assert_eq!(table.entries.len(), 1);
    assert_eq!(table.entries[0].name, "REAL");
}

#[test]
fn right_sentinel_ends_sector() {
    let mut image = blank_image(34);
    put(&mut image, 33 * SECTOR, &[0x00, 0x00, 0xff, 0xff]);
    put(&mut image, 33 * SECTOR + 4, &[0x01; 40]);
    let table = DirectoryTable::read(&image, 0, 33, 2048, 0).unwrap();
    assert_eq!(table.entries.len(), 0);
    assert_eq!(read_record(&image, (33 * SECTOR) as u128), RecordSlot::EndOfSector);
}

#[test]
fn empty_slot_ends_sector() {
    let mut image = blank_image(34);
    put(&mut image, 33 * SECTOR, &record(0, 0, 5, 5, 0x20, b"KEPT"));
    put(&mut image, 33 * SECTOR + 20, &record(0, 0, 5, 0, 0x20, b"GONE"));
    put(&mut image, 33 * SECTOR + 40, &record(0, 0, 6, 6, 0x20, b"LATE"));
    let table = DirectoryTable::read(&image, 0, 33, 2048, 0).unwrap();
    assert_eq!(table.entries.len(), 1);
    assert_eq!(table.entries[0].name, "KEPT");
    assert_eq!(read_record(&image, (33 * SECTOR + 20) as u128), RecordSlot::Empty);
}

#[test]
fn records_follow_each_other_on_four_byte_boundaries() {
    let mut image = blank_image(34);
    let base = 33 * SECTOR;
    put(&mut image, base, &record(0, 0, 1, 1, 0x01, b"A"));
    put(&mut image, base + 16, &record(0, 0, 2, 2, 0x02, b"BB"));
    put(&mut image, base + 32, &record(0, 0, 3, 3, 0x04, b"CCC"));
    put(&mut image, base + 52, &record(0, 0, 4, 4, 0x80, b"DDDD"));
    let table = DirectoryTable::read(&image, 0, 33, 2048, 0).unwrap();
    assert_eq!(table.entries.len(), 4);
    assert_eq!(table.entries[0].name, "A");
    assert_eq!(table.entries[1].name, "BB");
    assert_eq!(table.entries[2].name, "CCC");
    assert_eq!(table.entries[3].name, "DDDD");
    assert_eq!(table.entries[3].attributes.bits(), 0x80);
}

#[test]
fn next_record_position_is_aligned() {
    assert_eq!(next_record_position(0, 0), 16);
    assert_eq!(next_record_position(0, 1), 16);
    assert_eq!(next_record_position(0, 2), 16);
    assert_eq!(next_record_position(0, 3), 20);
    assert_eq!(next_record_position(16, 3), 36);
    assert_eq!(next_record_position(65536, 9), 65560);
    assert_eq!(next_record_position(65538, 9), 65564);
    assert_eq!(next_record_position(1, 255), 272);
    for length in 0..=255u8 {
        for start in 0..8u128 {
            assert_eq!(next_record_position(start, length) % 4, 0);
        }
    }
}

#[test]
fn alignment_is_taken_on_the_absolute_position() {
    let mut image = blank_image(35);
    let base = 33 * SECTOR + 2;
    put(&mut image, base, &record(0, 0, 1, 1, 0x20, b"HELLO.TXT"));
    put(&mut image, base + 26, &record(0, 0, 2, 2, 0x20, b"NEXT"));
    let table = DirectoryTable::read(&image, 2, 33, 2048, 0).unwrap();
    assert_eq!(table.entries.len(), 2);
    assert_eq!(table.entries[1].name, "NEXT");
    assert_eq!(table.entries[1].sector, 2);
}

#[test]
fn truncated_record_is_an_io_error() {
    let mut image = blank_image(33);
    put(&mut image, 32 * SECTOR, &record(0, 0, 100, 1234, 0x20, b"HELLO.TXT"));
    image.truncate(32 * SECTOR + 20);
    assert_eq!(read_record(&image, (32 * SECTOR) as u128), RecordSlot::Truncated);
    let header = volume(0, 32, 2048, &image);
    let out = DirectoryTable::read_root(&image, &header, 8);
    assert!(matches!(out, Err(ImageError::Io)));
}

#[test]
fn table_past_the_end_is_an_io_error() {
    let image = blank_image(33);
    let out = DirectoryTable::read(&image, 0, 33, 2048, 0);
    assert!(matches!(out, Err(ImageError::Io)));
    let far = DirectoryTable::read(&image, u64::MAX, u32::MAX, u32::MAX, 0);
    assert!(matches!(far, Err(ImageError::Io)));
    let short = DirectoryTable::read(&image[..32 * SECTOR + 3], 0, 32, 2048, 0);
    assert!(matches!(short, Err(ImageError::Io)));
}

#[test]
fn record_running_to_the_last_byte_needs_a_successor() {
    let mut image = blank_image(33);
    put(&mut image, 32 * SECTOR, &record(0, 0, 100, 1234, 0x20, b"HELLO.TXT"));
    image.truncate(32 * SECTOR + 23);
    let slot = read_record(&image, (32 * SECTOR) as u128);
    assert_eq!(
        slot,
        RecordSlot::Entry(RawRecord {
            subtree_left: 0,
            subtree_right: 0,
            sector: 100,
            size: 1234,
            attributes: 0x20,
            name_length: 9,
        })
    );
    let one = DirectoryEntry::read(&image, 0, (32 * SECTOR) as u128, 0).unwrap().unwrap();
    assert_eq!(one.0.name, "HELLO.TXT");
    assert_eq!(one.1, (32 * SECTOR + 24) as u128);
    let out = DirectoryTable::read(&image, 0, 32, 2048, 0);
    assert!(matches!(out, Err(ImageError::Io)));
}

#[test]
fn nesting_beyond_the_limit_is_refused() {
    let mut image = blank_image(36);
    put(&mut image, 32 * SECTOR, &record(0, 0, 33, 2048, 0x10, b"ONE"));
    put(&mut image, 33 * SECTOR, &record(0, 0, 34, 2048, 0x10, b"TWO"));
    put(&mut image, 34 * SECTOR, &record(0, 0, 35, 2048, 0x20, b"LEAF"));
    assert!(matches!(DirectoryTable::read(&image, 0, 32, 2048, 0), Err(ImageError::TooDeep)));
    assert!(matches!(DirectoryTable::read(&image, 0, 32, 2048, 1), Err(ImageError::TooDeep)));
    let root = DirectoryTable::read(&image, 0, 32, 2048, 2).unwrap();
    let one = root.entries[0].subdirectory.as_ref().unwrap();
    let two = one.entries[0].subdirectory.as_ref().unwrap();
    assert_eq!(two.entries[0].name, "LEAF");
    assert_eq!(two.sector, 34);
}

#[test]
fn larger_limit_gives_the_same_tree() {
    let mut image = blank_image(36);
    put(&mut image, 32 * SECTOR, &record(0, 0, 33, 2048, 0x10, b"ONE"));
    put(&mut image, 32 * SECTOR + 20, &record(0, 0, 90, 1, 0x20, b"FILE"));
    put(&mut image, 33 * SECTOR, &record(0, 0, 34, 2048, 0x20, b"LEAF"));
    let tight = DirectoryTable::read(&image, 0, 32, 2048, 1).unwrap();
    let loose = DirectoryTable::read(&image, 0, 32, 2048, DEFAULT_MAX_DEPTH).unwrap();
    assert_eq!(tight.entries.len(), 2);
    assert_eq!(loose.entries.len(), 2);
    for (a, b) in tight.entries.iter().zip(loose.entries.iter()) {
        assert_eq!(a.name, b.name);
        assert_eq!(a.sector, b.sector);
        assert_eq!(a.size, b.size);
        assert_eq!(a.subdirectory.is_some(), b.subdirectory.is_some());
    }
    let a = tight.entries[0].subdirectory.as_ref().unwrap();
    let b = loose.entries[0].subdirectory.as_ref().unwrap();
    assert_eq!(a.entries.len(), 1);
    assert_eq!(b.entries.len(), 1);
    assert_eq!(a.entries[0].name, b.entries[0].name);
}

#[test]
fn directory_that_contains_itself_is_refused() {
    let mut image = blank_image(33);
    put(&mut image, 32 * SECTOR, &record(0, 0, 32, 2048, 0x10, b"LOOP"));
    let header = volume(0, 32, 2048, &image);
    let out = DirectoryTable::read_root(&image, &header, 16);
    assert!(matches!(out, Err(ImageError::TooDeep)));
}

#[test]
fn first_failure_in_scan_order_wins() {
    let mut image = blank_image(34);
    put(&mut image, 32 * SECTOR, &record(0, 0, 90, 2048, 0x10, b"FAR"));
    put(&mut image, 32 * SECTOR + 20, &record(0, 0, 32, 2048, 0x10, b"DEEP"));
    assert!(matches!(DirectoryTable::read(&image, 0, 32, 2048, 1), Err(ImageError::Io)));
    assert!(matches!(DirectoryTable::read(&image, 0, 32, 2048, 0), Err(ImageError::TooDeep)));
}

#[test]
fn every_directory_owns_the_table_it_names() {
    let mut image = blank_image(44);
    put(&mut image, 32 * SECTOR, &record(0, 0, 40, 2048, 0x10, b"D1"));
    put(&mut image, 32 * SECTOR + 16, &record(0, 0, 41, 100, 0x30, b"D2"));
    put(&mut image, 32 * SECTOR + 32, &record(0, 0, 42, 5, 0x21, b"F"));
    put(&mut image, 40 * SECTOR, &record(0, 0, 43, 1, 0x12, b"D3"));
    let root = DirectoryTable::read(&image, 0, 32, 2048, 4).unwrap();
    let mut pending = vec![&root];
    let mut seen = 0;
    while let Some(table) = pending.pop() {
        for entry in &table.entries {
            seen += 1;
            assert_eq!(entry.is_directory(), entry.subdirectory.is_some());
            assert_eq!(entry.is_directory(), entry.attributes.bits() & DIRECTORY != 0);
            if let Some(child) = &entry.subdirectory {
                assert_eq!(child.sector, entry.sector);
                assert_eq!(child.size, entry.size);
                pending.push(child);
            }
        }
    }
    assert_eq!(seen, 4);
}

#[test]
fn lookup_ignores_ascii_case() {
    let mut image = blank_image(34);
    put(&mut image, 33 * SECTOR, &record(0, 0, 1, 1, 0x20, b"FOO"));
    put(&mut image, 33 * SECTOR + 20, &record(0, 0, 2, 2, 0x20, b"default.xbe"));
    put(&mut image, 33 * SECTOR + 48, &record(0, 0, 3, 3, 0x20, b"foo"));
    let table = DirectoryTable::read(&image, 0, 33, 2048, 0).unwrap();
    assert_eq!(table.entries.len(), 3);
    let lower = table.get_entry("foo").unwrap();
    let upper = table.get_entry("FOO").unwrap();
    let mixed = table.get_entry("fOo").unwrap();
    assert!(std::ptr::eq(lower, upper));
    assert!(std::ptr::eq(lower, mixed));
    assert!(std::ptr::eq(lower, &table.entries[0]));
    assert_eq!(lower.sector, 1);
    assert_eq!(table.get_entry("DEFAULT.XBE").unwrap().sector, 2);
    assert!(table.get_entry("FOOD").is_none());
    assert!(table.get_entry("FO").is_none());
    assert!(table.get_entry("").is_none());
    assert!(table.get_entry("f\u{00f6}o").is_none());
}

#[test]
fn lookup_compares_only_ascii_letters_without_case() {
    let mut image = blank_image(34);
    put(&mut image, 33 * SECTOR, &record(0, 0, 1, 1, 0x20, "\u{00e9}t\u{00e9}".as_bytes()));
    put(&mut image, 33 * SECTOR + 20, &record(0, 0, 2, 2, 0x20, b"A@Z"));
    let table = DirectoryTable::read(&image, 0, 33, 2048, 0).unwrap();
    assert_eq!(table.entries[0].name_length, 5);
    assert!(table.get_entry("\u{00e9}T\u{00e9}").is_some());
    assert!(table.get_entry("\u{00c9}t\u{00c9}").is_none());
    assert!(table.get_entry("a@z").is_some());
    assert!(table.get_entry("a`z").is_none());
}

#[test]
fn invalid_name_bytes_are_replaced() {
    let mut image = blank_image(34);
    put(&mut image, 33 * SECTOR, &record(0, 0, 1, 1, 0x20, &[0x41, 0xff, 0x42]));
    let table = DirectoryTable::read(&image, 0, 33, 2048, 0).unwrap();
    assert_eq!(table.entries.len(), 1);
    assert_eq!(table.entries[0].name, "A\u{fffd}B");
    assert_eq!(table.entries[0].name_length, 3);
}

#[test]
fn empty_name_is_accepted() {
    let mut image = blank_image(34);
    put(&mut image, 33 * SECTOR, &record(0, 0, 1, 1, 0x20, b""));
    put(&mut image, 33 * SECTOR + 16, &record(0, 0, 2, 2, 0x20, b"X"));
    let table = DirectoryTable::read(&image, 0, 33, 2048, 0).unwrap();
    assert_eq!(table.entries.len(), 2);
    assert_eq!(table.entries[0].name, "");
    assert!(table.get_entry("").is_some());
}

#[test]
fn undefined_attribute_bits_are_dropped() {
    let flags = DirectoryEntryAttributes::from_bits_truncate(0xff);
    assert_eq!(flags.bits(), 0xb7);
    assert!(flags.contains(DirectoryEntryAttributes::directory()));
    let plain = DirectoryEntryAttributes::from_bits_truncate(0x48);
    assert_eq!(plain.bits(), 0);
    assert!(!plain.contains(DirectoryEntryAttributes::directory()));
    let several = DirectoryEntryAttributes::from_bits_truncate(0x33);
    assert_eq!(several.bits(), 0x33);
    assert!(several.contains(DirectoryEntryAttributes::from_bits_truncate(0x21)));
    assert!(!several.contains(DirectoryEntryAttributes::from_bits_truncate(0x04)));
    let entry = DirectoryEntry::new(
        RawRecord {
            subtree_left: 3,
            subtree_right: 4,
            sector: 5,
            size: 6,
            attributes: 0x68,
            name_length: 1,
        },
        String::from("N"),
        None,
    );
    assert_eq!(entry.attributes.bits(), 0x20);
    assert_eq!(entry.subtree_left, 3);
    assert_eq!(entry.subtree_right, 4);
    assert_eq!(entry.sector, 5);
    assert_eq!(entry.size, 6);
    assert_eq!(entry.name, "N");
    assert!(!entry.is_directory());
}

#[test]
fn record_fields_are_little_endian() {
    let mut image = blank_image(1);
    put(
        &mut image,
        8,
        &[0x34, 0x12, 0x78, 0x56, 0x04, 0x03, 0x02, 0x01, 0xdd, 0xcc, 0xbb, 0xaa, 0xa1, 0x02, b'h', b'i'],
    );
    assert_eq!(
        read_record(&image, 8),
        RecordSlot::Entry(RawRecord {
            subtree_left: 0x1234,
            subtree_right: 0x5678,
            sector: 0x0102_0304,
            size: 0xaabb_ccdd,
            attributes: 0xa1,
            name_length: 2,
        })
    );
}
