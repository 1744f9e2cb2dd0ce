use wildbits::archive::{
    check_layout, check_packable, check_pow2, Archive, Writer, MAX_ALIGNMENT, MAX_NAME_BYTES,
};
use wildbits::error::ErrorKind;

fn pack(big_endian: bool, files: &[(&str, &[u8])]) -> Vec<u8> {
    let mut writer = Writer::new(big_endian, 4).unwrap();
    for (name, data) in files {
        writer.put(name.to_string(), data.to_vec()).unwrap();
    }
    writer.pack().ok().unwrap().as_bytes().clone()
}

fn listing(archive: &Archive) -> Vec<(String, Vec<u8>)> {
    let mut all: Vec<(String, Vec<u8>)> =
        archive.entries().iter().map(|e| (e.name.clone(), e.data.clone())).collect();
    all.sort();
    all
}

fn parse(bytes: Vec<u8>) -> Archive {
    match Archive::parse(bytes) {
        Ok(a) => a,
        Err(e) => panic!("not an archive: {:?}", e),
    }
}

#[test]
fn packed_files_are_read_back() {
    let bytes = pack(true, &[("Actor/Link.bactor", b"link"), ("Actor/Zelda.bactor", b"zelda!")]);
    assert_eq!(&bytes[0..4], b"SARC");
    assert!(check_layout(&bytes));
    let archive = parse(bytes);
    assert!(archive.big_endian());
    assert_eq!(
        listing(&archive),
        vec![
            ("Actor/Link.bactor".to_string(), b"link".to_vec()),
            ("Actor/Zelda.bactor".to_string(), b"zelda!".to_vec()),
        ]
    );
    assert_eq!(archive.get(&"Actor/Link.bactor".to_string()), Some(&b"link".to_vec()));
    assert_eq!(archive.get(&"Actor/Ganon.bactor".to_string()), None);
}

#[test]
fn little_endian_archive_is_recognised() {
    let archive = parse(pack(false, &[("a.txt", b"abc")]));
    assert!(!archive.big_endian());
    assert_eq!(listing(&archive), vec![("a.txt".to_string(), b"abc".to_vec())]);
}

#[test]
fn empty_archive_packs_and_parses() {
    let archive = parse(pack(true, &[]));
    assert_eq!(archive.entries().len(), 0);
}

#[test]
fn repacking_keeps_the_files() {
    let first = parse(pack(true, &[("a/b.bin", b"12345"), ("c.bin", b""), ("d/e/f.bin", b"xyz")]));
    let again = Writer::from_archive(&first).ok().unwrap().pack().ok().unwrap();
    assert_eq!(listing(&again), listing(&first));
    let third = Writer::from_archive(&again).ok().unwrap().pack().ok().unwrap();
    assert_eq!(listing(&third), listing(&first));
    assert_eq!(third.as_bytes(), again.as_bytes());
}

#[test]
fn of_two_files_with_one_name_the_later_counts() {
    let mut bytes = pack(true, &[("a.bin", b"first"), ("b.bin", b"second")]);
    // the second name in the name table is overwritten with the first
    let names: Vec<usize> = (0..bytes.len() - 5).filter(|&i| &bytes[i..i + 5] == b"b.bin").collect();
    assert_eq!(names.len(), 1);
    bytes[names[0]] = b'a';
    let archive = parse(bytes);
    let entries = archive.entries();
    assert_eq!(entries.len(), 2);
    assert_eq!(entries[0].name, "a.bin");
    assert_eq!(entries[1].name, "a.bin");
    let last = entries[1].data.clone();
    assert_eq!(archive.get(&"a.bin".to_string()), Some(&last));
    assert_eq!(archive.get(&"b.bin".to_string()), None);
    let again = Writer::from_archive(&archive).ok().unwrap().pack().ok().unwrap();
    assert_eq!(listing(&again), vec![("a.bin".to_string(), last)]);
}

#[test]
fn garbage_is_no_archive() {
    assert!(!check_layout(b""));
    assert!(!check_layout(b"SARC"));
    assert!(Archive::parse(b"SARC".to_vec()).is_err());
    assert_eq!(Archive::parse(vec![0u8; 64]).err(), Some(ErrorKind::ParseFormat));
    let mut random = Vec::new();
    let mut x: u32 = 12345;
    for _ in 0..200 {
        x = x.wrapping_mul(1664525).wrapping_add(1013904223);
        random.push((x >> 24) as u8);
    }
    assert_eq!(Archive::parse(random).err(), Some(ErrorKind::ParseFormat));
}

#[test]
fn entry_pointing_outside_the_buffer_is_refused() {
    let mut bytes = pack(true, &[("a.bin", b"0123456789")]);
    // the end of the first payload, at offset 0x20 + 12, is moved far out
    bytes[0x2C] = 0x7F;
    assert!(!check_layout(&bytes));
    assert_eq!(Archive::parse(bytes).err(), Some(ErrorKind::ParseFormat));
}

#[test]
fn name_pointing_outside_the_buffer_is_refused() {
    let mut bytes = pack(true, &[("a.bin", b"0123456789")]);
    // the name offset, at offset 0x20 + 4, keeps its flag byte and gets a huge offset
    bytes[0x25] = 0xFF;
    bytes[0x26] = 0xFF;
    bytes[0x27] = 0xFF;
    assert!(!check_layout(&bytes));
    assert_eq!(Archive::parse(bytes).err(), Some(ErrorKind::ParseFormat));
}

#[test]
fn truncated_archive_is_refused() {
    let mut bytes = pack(true, &[("a.bin", b"0123456789"), ("b.bin", b"abcdefghij")]);
    bytes.truncate(bytes.len() - 4);
    assert_eq!(Archive::parse(bytes).err(), Some(ErrorKind::ParseFormat));
}

#[test]
fn alignment_must_be_a_power_of_two() {
    assert!(check_pow2(1));
    assert!(check_pow2(4));
    assert!(check_pow2(0x2000));
    assert!(!check_pow2(0));
    assert!(!check_pow2(3));
    assert!(!check_pow2(12));
    assert!(Writer::new(true, 8).is_ok());
    assert_eq!(Writer::new(true, 0).err(), Some(ErrorKind::ParseFormat));
    assert_eq!(Writer::new(false, 24).err(), Some(ErrorKind::ParseFormat));
    assert!(Writer::new(false, MAX_ALIGNMENT).is_ok());
    assert_eq!(Writer::new(false, MAX_ALIGNMENT * 2).err(), Some(ErrorKind::ParseFormat));
}

#[test]
fn put_replaces_in_place_and_take_removes() {
    let mut writer = Writer::new(true, 4).unwrap();
    writer.put("a".to_string(), b"1".to_vec()).unwrap();
    writer.put("b".to_string(), b"2".to_vec()).unwrap();
    writer.put("a".to_string(), b"3".to_vec()).unwrap();
    assert_eq!(writer.take("b"), Some(b"2".to_vec()));
    assert_eq!(writer.take("b"), None);
    let archive = writer.pack().ok().unwrap();
    assert_eq!(listing(&archive), vec![("a".to_string(), b"3".to_vec())]);
}

#[test]
fn rename_moves_the_payload() {
    let mut writer = Writer::new(true, 4).unwrap();
    writer.put("Actor/Link.bactor".to_string(), b"link".to_vec()).unwrap();
    writer.put("Actor/Zelda.bactor".to_string(), b"zelda".to_vec()).unwrap();
    assert_eq!(writer.rename("Actor/Link.bactor", "Actor/Hero.bactor".to_string()), Ok(()));
    assert_eq!(
        writer.rename("Actor/Link.bactor", "Actor/Other.bactor".to_string()),
        Err(ErrorKind::UnknownResource)
    );
    let archive = writer.pack().ok().unwrap();
    assert_eq!(
        listing(&archive),
        vec![
            ("Actor/Hero.bactor".to_string(), b"link".to_vec()),
            ("Actor/Zelda.bactor".to_string(), b"zelda".to_vec()),
        ]
    );
}

#[test]
fn too_long_names_are_refused() {
    let mut writer = Writer::new(true, 4).unwrap();
    let long = "x".repeat(MAX_NAME_BYTES + 1);
    assert_eq!(writer.put(long.clone(), b"1".to_vec()), Err(ErrorKind::ParseFormat));
    writer.put("a".to_string(), b"1".to_vec()).unwrap();
    assert_eq!(writer.rename("a", long), Err(ErrorKind::ParseFormat));
    assert_eq!(writer.take("a"), Some(b"1".to_vec()));
}

#[test]
fn payloads_with_wild_alignment_hints_are_refused() {
    assert!(check_packable(b"short", true));
    let mut hinted = vec![0u8; 0x40];
    hinted[0x0C] = 0xFE;
    hinted[0x0D] = 0xFF;
    hinted[0x1C] = 0x40;
    hinted[0x0E] = 3;
    assert!(check_packable(&hinted, false));
    hinted[0x0E] = 200;
    assert!(!check_packable(&hinted, false));
    // without its own length at 0x1C the payload has no resource header
    hinted[0x1C] = 0x41;
    assert!(check_packable(&hinted, false));
    // the same header, big-endian
    let mut big = vec![0u8; 0x40];
    big[0x0C] = 0xFF;
    big[0x0D] = 0xFE;
    big[0x1F] = 0x40;
    big[0x0E] = 64;
    assert!(!check_packable(&big, true));
    big[0x0E] = 12;
    assert!(check_packable(&big, true));
    let mut writer = Writer::new(true, 4).unwrap();
    writer.put("res.bin".to_string(), big.clone()).unwrap();
    let archive = writer.pack().ok().unwrap();
    assert_eq!(archive.get(&"res.bin".to_string()), Some(&big));
    let mut image = vec![0u8; 0x40];
    let at = image.len() - 0x28;
    image[at..at + 4].copy_from_slice(b"FLIM");
    let end = image.len();
    image[end - 8] = 0x00;
    image[end - 7] = 0x80;
    assert!(check_packable(&image, true));
    image[end - 7] = 0x81;
    assert!(!check_packable(&image, true));
    assert!(check_packable(&image, false));
    let mut writer = Writer::new(true, 4).unwrap();
    assert_eq!(writer.put("bad.bflim".to_string(), image), Err(ErrorKind::ParseFormat));
}
