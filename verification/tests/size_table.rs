use wildbits::bytes::Endian;
use wildbits::error::ErrorKind;
use wildbits::names::{hash_of, PathTable};
use wildbits::rstb::{calc_size_with_ext, check_parseable, parse_rstb, Rstb};
use wildbits::yaz0::{decompress, is_yaz0};

const PROBE: &str = "EventFlow/PictureMemory.bfevfl";

fn stock(big_endian: bool) -> Vec<u8> {
    let endian = if big_endian { rstb::Endian::Big } else { rstb::Endian::Little };
    rstb::ResourceSizeTable::new_from_stock(endian).to_binary(endian, false).unwrap()
}

fn word(value: u32, big_endian: bool) -> [u8; 4] {
    if big_endian {
        value.to_be_bytes()
    } else {
        value.to_le_bytes()
    }
}

/// A table file with a header, the given hash entries and the given name
/// entries.
fn table(big_endian: bool, hashes: &[(u32, u32)], names: &[(&str, u32)]) -> Vec<u8> {
    let mut bytes = b"RSTB".to_vec();
    bytes.extend_from_slice(&word(hashes.len() as u32, big_endian));
    bytes.extend_from_slice(&word(names.len() as u32, big_endian));
    for (hash, size) in hashes {
        bytes.extend_from_slice(&word(*hash, big_endian));
        bytes.extend_from_slice(&word(*size, big_endian));
    }
    for (name, size) in names {
        let mut block = [0u8; 128];
        block[..name.len()].copy_from_slice(name.as_bytes());
        bytes.extend_from_slice(&block);
        bytes.extend_from_slice(&word(*size, big_endian));
    }
    bytes
}

fn open(bytes: &[u8]) -> Rstb {
    match parse_rstb(bytes) {
        Ok(t) => t,
        Err(e) => panic!("no table: {:?}", e),
    }
}

fn value_of(view: &Vec<(String, u32)>, key: &str) -> Option<u32> {
    view.iter().rev().find(|(k, _)| k == key).map(|(_, v)| *v)
}

#[test]
fn stock_table_opens_big_endian() {
    let table = open(&stock(true));
    assert!(table.is_big_endian());
    assert_eq!(table.endian(), Endian::Big);
    assert!(table.contains(PROBE));
    assert!(table.contains("Camera/Demo648_0/C04-0.bcamanim"));
    assert!(!table.contains("My/New/Thing.bfres"));
}

#[test]
fn stock_table_opens_little_endian() {
    let table = open(&stock(false));
    assert!(!table.is_big_endian());
    assert!(table.contains(PROBE));
}

#[test]
fn set_size_shows_the_entry_under_its_path() {
    let mut table = open(&stock(true));
    let mut names = PathTable::new();
    assert_eq!(table.set_size(&mut names, "My/New/Thing.bfres", 1024), Ok(()));
    assert!(table.contains("My/New/Thing.bfres"));
    let view = table.view(&names);
    assert_eq!(value_of(&view, "My/New/Thing.bfres"), Some(1024));
    let hash = hash_of("My/New/Thing.bfres");
    assert_eq!(value_of(&view, &hash.to_string()), None);
    assert_eq!(names.lookup(hash), Some("My/New/Thing.bfres".to_string()));
    // stock entries are shown under their stock paths
    assert!(value_of(&view, PROBE).is_some());
    // setting again replaces the size
    assert_eq!(table.set_size(&mut names, "My/New/Thing.bfres", 2048), Ok(()));
    assert_eq!(value_of(&table.view(&names), "My/New/Thing.bfres"), Some(2048));
}

#[test]
fn unknown_hashes_are_shown_as_numbers_and_names_as_names() {
    let bytes = table(
        true,
        &[(hash_of(PROBE), 100), (12345, 200)],
        &[("Some/Named/Entry.bin", 300)],
    );
    let table = open(&bytes);
    let names = PathTable::new();
    let view = table.view(&names);
    assert_eq!(
        view,
        vec![
            (PROBE.to_string(), 100),
            ("12345".to_string(), 200),
            ("Some/Named/Entry.bin".to_string(), 300),
        ]
    );
    assert!(table.contains("Some/Named/Entry.bin"));
    let mut names = PathTable::new();
    names.record(12345, "A/Name/For/It.bin".to_string());
    assert_eq!(table.view(&names)[1], ("A/Name/For/It.bin".to_string(), 200));
}

#[test]
fn delete_removes_by_hash_and_by_name() {
    let bytes = table(
        true,
        &[(hash_of(PROBE), 100), (hash_of("a/b.bin"), 1), (hash_of("c/d.bin"), 2)],
        &[("Named.bin", 300)],
    );
    let mut table = open(&bytes);
    let names = PathTable::new();
    assert_eq!(table.delete_entry("a/b.bin"), Ok(()));
    assert!(!table.contains("a/b.bin"));
    assert!(table.contains("c/d.bin"));
    assert_eq!(table.delete_entry("Named.bin"), Ok(()));
    assert!(!table.contains("Named.bin"));
    assert_eq!(table.delete_entry("never/there.bin"), Ok(()));
    let view = table.view(&names);
    assert_eq!(view.len(), 2);
    assert_eq!(view[0], (PROBE.to_string(), 100));
    assert_eq!(view[1], (hash_of("c/d.bin").to_string(), 2));
}

#[test]
fn removed_entry_gives_its_place_to_the_last() {
    let bytes = table(
        true,
        &[(hash_of(PROBE), 100), (11, 1), (22, 2), (33, 3), (44, 4)],
        &[("A.bin", 5), ("B.bin", 6), ("C.bin", 7)],
    );
    let mut table = open(&bytes);
    let mut names = PathTable::new();
    names.record(22, "two".to_string());
    assert_eq!(table.delete_entry("two"), Ok(()));
    // no entry is called "two": the hash of the path decides, not the name shown
    assert_eq!(table.view(&names).len(), 8);
    names.record(hash_of("gone/soon.bin"), "unused".to_string());
    let mut with_path = PathTable::new();
    assert_eq!(table.set_size(&mut with_path, "gone/soon.bin", 9), Ok(()));
    assert_eq!(table.delete_entry("A.bin"), Ok(()));
    let keys: Vec<String> = table.view(&with_path).into_iter().map(|(k, _)| k).collect();
    assert_eq!(
        keys,
        vec![PROBE, "11", "22", "33", "44", "gone/soon.bin", "C.bin", "B.bin"]
    );
    // a new size for a known path keeps the entry's place
    assert_eq!(table.set_size(&mut with_path, PROBE, 101), Ok(()));
    let view = table.view(&with_path);
    assert_eq!(view[0], (PROBE.to_string(), 101));
    assert_eq!(view.len(), 8);
}

#[test]
fn added_name_is_the_key_of_its_entry() {
    let bytes = table(true, &[(hash_of(PROBE), 100), (hash_of("Some/Mod/File.bin"), 7)], &[]);
    let table = open(&bytes);
    let mut names = PathTable::new();
    let number = hash_of("Some/Mod/File.bin").to_string();
    assert_eq!(table.view(&names)[1], (number, 7));
    names.add_name("Some/Mod/File.bin");
    assert_eq!(table.view(&names)[1], ("Some/Mod/File.bin".to_string(), 7));
}

#[test]
fn header_count_is_never_pushed_below_zero() {
    // the header announces fewer hash entries than are added later
    let bytes = table(true, &[(hash_of(PROBE), 100)], &[]);
    let mut table = open(&bytes);
    let mut names = PathTable::new();
    assert_eq!(table.set_size(&mut names, "x/y.bin", 5), Ok(()));
    assert_eq!(table.delete_entry("x/y.bin"), Ok(()));
    assert_eq!(table.delete_entry(PROBE), Err(ErrorKind::InvalidRstb));
    assert!(table.contains(PROBE));
    assert_eq!(table.delete_entry("not/there.bin"), Ok(()));
}

#[test]
fn random_bytes_are_no_table() {
    let mut random = Vec::new();
    let mut x: u32 = 987654321;
    for _ in 0..64 {
        x = x.wrapping_mul(1664525).wrapping_add(1013904223);
        random.push((x >> 24) as u8);
    }
    assert_eq!(parse_rstb(&random).err(), Some(ErrorKind::InvalidRstb));
    assert_eq!(parse_rstb(&[]).err(), Some(ErrorKind::InvalidRstb));
    assert_eq!(parse_rstb(b"RS").err(), Some(ErrorKind::InvalidRstb));
    assert_eq!(parse_rstb(b"Yaz0").err(), Some(ErrorKind::InvalidRstb));
    // a well-formed table without any of the probe paths
    assert_eq!(parse_rstb(&table(true, &[(1, 2)], &[])).err(), Some(ErrorKind::InvalidRstb));
}

#[test]
fn names_that_are_no_text_are_refused() {
    let mut bytes = table(true, &[(hash_of(PROBE), 100)], &[("Named.bin", 300)]);
    assert!(check_parseable(&bytes, Endian::Big));
    let at = 12 + 8;
    bytes[at] = 0xFF;
    assert!(!check_parseable(&bytes, Endian::Big));
    assert_eq!(parse_rstb(&bytes).err(), Some(ErrorKind::InvalidRstb));
    assert!(!check_parseable(b"Yaz0 and more", Endian::Big));
    assert!(!check_parseable(b"abc", Endian::Little));
}

#[test]
fn written_table_is_compressed_by_the_name() {
    let table = open(&stock(true));
    let plain = table.to_binary("ResourceSizeTable.product.rsizetable").unwrap();
    assert_eq!(&plain[0..4], b"RSTB");
    assert_eq!(plain, stock(true));
    let small = table.to_binary("ResourceSizeTable.product.srsizetable").unwrap();
    assert!(is_yaz0(&small));
    assert_eq!(decompress(&small).unwrap(), plain);
    assert!(open(&small).contains(PROBE));
    let text = table.to_text().unwrap();
    assert!(text.contains(PROBE));
}

#[test]
fn size_hints() {
    let data = vec![0u8; 100];
    // 100 rounds up to 128; Wii U adds 0xe4 and the format's own sizes
    assert_eq!(calc_size_with_ext(&data, "bfevfl", Endian::Big), Some(128 + 0xe4 + 0x24 + 0x58));
    assert_eq!(calc_size_with_ext(&data, "bfevfl", Endian::Little), Some(128 + 0x168 + 0x40));
    assert_eq!(
        calc_size_with_ext(&data, "bfevfl", Endian::Big),
        rstb::calc::calculate_size_with_ext(&data, "bfevfl", rstb::Endian::Big, true)
    );
    // content too short to carry a magic has no hint
    assert_eq!(calc_size_with_ext(b"abc", "bfevfl", Endian::Big), None);
    assert_eq!(calc_size_with_ext(b"Yaz0ab", "bfevfl", Endian::Big), None);
    // behind a Yaz0 header the announced size counts
    let mut packed = b"Yaz0".to_vec();
    packed.extend_from_slice(&100u32.to_be_bytes());
    packed.extend_from_slice(&[0u8; 8]);
    assert_eq!(calc_size_with_ext(&packed, "sbfevfl", Endian::Big), Some(128 + 0xe4 + 0x24 + 0x58));
}

#[test]
fn calc_size_is_zero_where_there_is_no_hint() {
    let table = open(&stock(true));
    let data = vec![0u8; 100];
    assert_eq!(table.calc_size("Event/Flow.bfevfl", &data), 128 + 0xe4 + 0x24 + 0x58);
    assert_eq!(table.calc_size("no_extension", &data), 0);
    assert_eq!(table.calc_size("Event/Flow.bfevfl", b"ab"), 0);
    let little = open(&stock(false));
    assert_eq!(little.calc_size("Event/Flow.bfevfl", &data), 128 + 0x168 + 0x40);
}
