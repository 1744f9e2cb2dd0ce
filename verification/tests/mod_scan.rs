use wildbits::archive::{Archive, Writer};
use wildbits::error::ErrorKind;
use wildbits::names::{hash_of, PathTable};
use wildbits::scan::{get_nested_names, is_archive_path, is_closed_kind, scan_file};
use wildbits::stock::Catalogue;
use wildbits::yaz0::compress;

fn pack(files: &[(&str, Vec<u8>)]) -> Vec<u8> {
    let mut writer = Writer::new(true, 4).unwrap();
    for (name, data) in files {
        writer.put(name.to_string(), data.clone()).unwrap();
    }
    writer.pack().ok().unwrap().as_bytes().clone()
}

fn map_pack() -> Vec<u8> {
    let actors = pack(&[
        ("Actor/Link.sbxml", vec![1u8; 80]),
        ("Actor/Zelda.bxml", vec![2u8; 80]),
    ]);
    let sealed = pack(&[("Hidden/Secret.bin", vec![3u8; 80])]);
    pack(&[
        ("Map/Field.smubin", vec![4u8; 80]),
        ("Actor/Pack/Npc.sbactorpack", compress(&actors).unwrap()),
        ("Font/Sealed.bfarc", sealed),
    ])
}

#[test]
fn canonical_names() {
    let archive = Archive::parse(pack(&[
        ("Actor\\Pack\\Link.sbactorpack", vec![1u8; 8]),
        ("Event/EventInfo.product.sbyml", vec![2u8; 8]),
    ]))
    .ok()
    .unwrap();
    let mut names = get_nested_names(&archive, 1).unwrap();
    names.sort();
    assert_eq!(names, vec!["Actor/Pack/Link.bactorpack", "Event/EventInfo.product.byml"]);
    let mut table = PathTable::new();
    assert_eq!(scan_file(&mut table, "content\\Actor\\Pack\\Enemy_Lizal_Senior.sbactorpack", b""), Ok(()));
    assert_eq!(
        table.lookup(hash_of("content\\Actor\\Pack\\Enemy_Lizal_Senior.sbactorpack")),
        Some("Actor/Pack/Enemy_Lizal_Senior.bactorpack".to_string())
    );
    assert_eq!(scan_file(&mut table, "Hellow/Sweetie.tardis", b""), Ok(()));
    assert_eq!(table.lookup(hash_of("Hellow/Sweetie.tardis")), None);
}

#[test]
fn closed_kinds_and_archive_paths() {
    assert!(is_closed_kind("Font/Sealed.bfarc"));
    assert!(is_closed_kind("Layout/Common.sblarc"));
    assert!(is_closed_kind("x.sarc"));
    assert!(!is_closed_kind("Actor/Pack/Npc.sbactorpack"));
    assert!(is_archive_path("mod/content/Pack/Map.pack"));
    assert!(is_archive_path("Actor/Pack/Npc.sbactorpack"));
    assert!(!is_archive_path("Actor/Link.bxml"));
    assert!(!is_archive_path("Pack"));
}

#[test]
fn nested_names_are_found() {
    let archive = Archive::parse(map_pack()).ok().unwrap();
    let mut names = get_nested_names(&archive, 8).unwrap();
    names.sort();
    assert_eq!(
        names,
        vec![
            "Actor/Link.bxml",
            "Actor/Pack/Npc.bactorpack",
            "Actor/Zelda.bxml",
            "Font/Sealed.bfarc",
            "Map/Field.mubin",
        ]
    );
    // one level is enough for an archive in an archive
    assert_eq!(get_nested_names(&archive, 1).map(|n| n.len()), Ok(5));
    // without depth the archive to look into is refused
    assert_eq!(get_nested_names(&archive, 0), Err(ErrorKind::ParseFormat));
}

#[test]
fn scanning_adds_every_name_under_its_hash() {
    let mut table = PathTable::new();
    assert_eq!(scan_file(&mut table, "content/Pack/Map.pack", &map_pack()), Ok(()));
    for name in ["Actor/Link.bxml", "Actor/Zelda.bxml", "Actor/Pack/Npc.bactorpack", "Map/Field.mubin"] {
        assert_eq!(table.lookup(hash_of(name)), Some(name.to_string()));
    }
    assert_eq!(table.lookup(hash_of("Hidden/Secret.bin")), None);
    // the file's own canonical name stands under the hash of its path
    assert_eq!(table.lookup(hash_of("content/Pack/Map.pack")), Some("Pack/Map.pack".to_string()));
    let mut hashes: Vec<u32> = table.overlay().iter().map(|(h, _)| *h).collect();
    hashes.sort();
    let mut expected = vec![
        hash_of("Actor/Link.bxml"),
        hash_of("Actor/Zelda.bxml"),
        hash_of("Actor/Pack/Npc.bactorpack"),
        hash_of("Map/Field.mubin"),
        hash_of("Font/Sealed.bfarc"),
        hash_of("content/Pack/Map.pack"),
    ];
    expected.sort();
    assert_eq!(hashes, expected);
}

#[test]
fn files_that_are_no_archives_add_their_own_name_only() {
    let mut table = PathTable::new();
    assert_eq!(scan_file(&mut table, "content/Actor/Link.bxml", b""), Ok(()));
    assert_eq!(table.overlay().len(), 1);
    assert_eq!(scan_file(&mut table, "elsewhere/readme.txt", b"text"), Ok(()));
    assert_eq!(table.overlay().len(), 1);
    // an archive by name that cannot be opened
    assert_eq!(scan_file(&mut table, "content/Pack/Broken.pack", b"not an archive"), Ok(()));
    assert_eq!(table.overlay().len(), 2);
}

#[test]
fn catalogue_knows_stock_files() {
    let wiiu = Catalogue::for_byte_order(true);
    assert!(wiiu.is_wiiu());
    assert!(wiiu.is_modified("Actor/Physics/FldObj_MountainSheikerWall_A_06.sbphysics", b"Random data"));
    assert!(wiiu.is_modified("Not/A/Stock/File.bin", b"whatever"));
    assert!(wiiu.is_modified("Actor/Physics/FldObj_MountainSheikerWall_A_06.bphysics", b"ab"));
    assert!(wiiu.is_modified("Actor/Physics/FldObj_MountainSheikerWall_A_06.bphysics", b"Yaz0"));
    assert!(!Catalogue::for_byte_order(false).is_wiiu());
}

fn nest(levels: usize) -> Vec<u8> {
    let mut bytes = pack(&[("Actor/Core.bxml", vec![9u8; 80])]);
    for _ in 0..levels {
        bytes = pack(&[("Pack/Next.pack", bytes)]);
    }
    bytes
}

#[test]
fn archives_nested_too_deep_are_refused_by_the_scan() {
    // 32 archives below the scanned one are followed
    let mut table = PathTable::new();
    assert_eq!(scan_file(&mut table, "content/Pack/Deep.pack", &nest(32)), Ok(()));
    assert_eq!(table.lookup(hash_of("Actor/Core.bxml")), Some("Actor/Core.bxml".to_string()));
    // 33 are not: the file adds its own name and nothing else
    let mut table = PathTable::new();
    assert_eq!(
        scan_file(&mut table, "content/Pack/Deep.pack", &nest(33)),
        Err(ErrorKind::ParseFormat)
    );
    assert_eq!(table.overlay().len(), 1);
    assert_eq!(table.lookup(hash_of("content/Pack/Deep.pack")), Some("Pack/Deep.pack".to_string()));
    let archive = Archive::parse(nest(2)).ok().unwrap();
    assert_eq!(get_nested_names(&archive, 1), Err(ErrorKind::ParseFormat));
    assert_eq!(get_nested_names(&archive, 2).map(|n| n.len()), Ok(3));
}
