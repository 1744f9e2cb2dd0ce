use wildbits::archive::{Archive, Writer};
use wildbits::error::ErrorKind;
use wildbits::sarc::{open_nested_file, OpenSarc};
use wildbits::tree::Tree;
use wildbits::yaz0::{compress, decompress, is_yaz0};

fn pack(big_endian: bool, files: &[(&str, Vec<u8>)]) -> Vec<u8> {
    let mut writer = Writer::new(big_endian, 4).unwrap();
    for (name, data) in files {
        writer.put(name.to_string(), data.clone()).unwrap();
    }
    writer.pack().ok().unwrap().as_bytes().clone()
}

fn open(bytes: &[u8]) -> OpenSarc {
    match OpenSarc::open(bytes) {
        Ok(s) => s,
        Err(e) => panic!("cannot open: {:?}", e),
    }
}

fn names(archive: &Archive) -> Vec<String> {
    let mut all: Vec<String> = archive.entries().iter().map(|e| e.name.clone()).collect();
    all.sort();
    all
}

/// `root` holds `outer.pack`, which holds `inner.sbactorpack` under Yaz0,
/// which holds two actors.
fn nested() -> Vec<u8> {
    let inner = pack(
        true,
        &[
            ("Actor/Link.bactor", b"the hero of time".to_vec()),
            ("Actor/Zelda.bactor", b"the princess".to_vec()),
        ],
    );
    let outer = pack(
        true,
        &[
            ("inner.sbactorpack", compress(&inner).unwrap()),
            ("readme.txt", b"outer readme".to_vec()),
        ],
    );
    pack(true, &[("outer.pack", outer), ("top.txt", b"top".to_vec())])
}

fn has_path(tree: &Tree, path: &[&str]) -> bool {
    match path.split_first() {
        None => true,
        Some((first, rest)) => {
            tree.nodes.iter().any(|n| n.name == *first && has_path(&n.subtree, rest))
        }
    }
}

fn count_nodes(tree: &Tree) -> usize {
    tree.nodes.iter().map(|n| 1 + count_nodes(&n.subtree)).sum()
}

#[test]
fn nested_files_are_found_by_location() {
    let sarc = open(&nested());
    let archive = sarc.archive();
    assert_eq!(open_nested_file(archive, "top.txt"), Ok(b"top".to_vec()));
    assert_eq!(open_nested_file(archive, "outer.pack//readme.txt"), Ok(b"outer readme".to_vec()));
    assert_eq!(
        open_nested_file(archive, "outer.pack//inner.sbactorpack//Actor/Link.bactor"),
        Ok(b"the hero of time".to_vec())
    );
    assert_eq!(
        open_nested_file(archive, "outer.pack//inner.sbactorpack//Actor/Zelda.bactor/"),
        Ok(b"the princess".to_vec())
    );
    assert_eq!(sarc.extract_file("outer.pack//readme.txt"), Ok(b"outer readme".to_vec()));
}

#[test]
fn lookup_takes_the_location_as_it_stands() {
    let sarc = open(&nested());
    let archive = sarc.archive();
    // no prefix is dropped: there is no file called `SARC:outer.pack`
    assert_eq!(
        open_nested_file(archive, "SARC:outer.pack//inner.sbactorpack//Actor/Zelda.bactor/"),
        Err(ErrorKind::UnknownResource)
    );
    assert_eq!(sarc.extract_file("SARC:top.txt"), Err(ErrorKind::UnknownResource));
    assert_eq!(sarc.get_file_meta("SARC:top.txt").err(), Some(ErrorKind::UnknownResource));
    assert_eq!(sarc.extract_file("top.txt///"), Ok(b"top".to_vec()));
    // a file whose name begins with the prefix is found under its name
    let odd = open(&pack(false, &[("SARC:x", b"odd".to_vec()), ("x", b"plain".to_vec())]));
    assert_eq!(open_nested_file(odd.archive(), "SARC:x"), Ok(b"odd".to_vec()));
    assert_eq!(odd.extract_file("SARC:x/"), Ok(b"odd".to_vec()));
    assert_eq!(odd.extract_file("x"), Ok(b"plain".to_vec()));
    assert_eq!(odd.get_file_meta("SARC:x").map(|m| m.size).ok(), Some(3));
}

#[test]
fn editing_commands_drop_the_prefix() {
    let mut odd = open(&pack(false, &[("SARC:x", b"odd".to_vec()), ("x", b"plain".to_vec())]));
    // the command names the file `x`
    assert!(odd.add_file("SARC:x", b"new".to_vec()).is_ok());
    assert_eq!(odd.extract_file("x"), Ok(b"new".to_vec()));
    assert_eq!(odd.extract_file("SARC:x"), Ok(b"odd".to_vec()));
    assert!(odd.delete_file("SARC:x/").is_ok());
    assert_eq!(odd.extract_file("x"), Err(ErrorKind::UnknownResource));
    assert_eq!(odd.extract_file("SARC:x"), Ok(b"odd".to_vec()));
}

fn chain(levels: usize) -> Vec<u8> {
    let mut bytes = pack(true, &[("core.txt", b"core".to_vec())]);
    for _ in 0..levels {
        bytes = pack(true, &[("next.pack", bytes)]);
    }
    bytes
}

#[test]
fn archives_nested_too_deep_are_refused() {
    // 32 levels below the open archive are shown
    let deep = open(&chain(32));
    let view = deep.view().ok().unwrap();
    assert_eq!(count_nodes(&view.sarc), 33);
    // 33 are not
    assert_eq!(open(&chain(33)).view().err(), Some(ErrorKind::ParseFormat));
}

#[test]
fn an_edit_that_cannot_be_shown_changes_nothing() {
    let mut sarc = open(&nested());
    let before = sarc.archive().as_bytes().clone();
    // the file is an archive that holds archives deeper than are followed
    assert_eq!(sarc.add_file("deep.pack", chain(32)).err(), Some(ErrorKind::ParseFormat));
    assert_eq!(sarc.archive().as_bytes(), &before);
    assert_eq!(sarc.extract_file("deep.pack"), Err(ErrorKind::UnknownResource));
    // a nested archive that does not open
    let mut broken = b"SARC".to_vec();
    broken.extend_from_slice(&[0u8; 60]);
    assert!(sarc.add_file("outer.pack//broken.pack", broken).is_err());
    assert_eq!(sarc.archive().as_bytes(), &before);
    // one that can be shown comes back as what is shown
    let view = sarc.add_file("shallow.pack", chain(3)).ok().unwrap();
    assert!(has_path(&view.sarc, &["shallow.pack", "next.pack", "next.pack", "next.pack", "core.txt"]));
    assert!(view.be);
    assert_eq!(sarc.extract_file("shallow.pack//next.pack//next.pack//next.pack//core.txt"), Ok(b"core".to_vec()));
}

#[test]
fn packed_archive_has_the_byte_order_asked_for() {
    for big_endian in [true, false] {
        let made = OpenSarc::create(big_endian, 4).ok().unwrap();
        assert_eq!(made.archive().big_endian(), big_endian);
        assert_eq!(made.archive().entries().len(), 0);
        let mut writer = Writer::new(big_endian, 8).unwrap();
        writer.put("a.txt".to_string(), b"a".to_vec()).unwrap();
        assert_eq!(writer.pack().ok().unwrap().big_endian(), big_endian);
    }
}

#[test]
fn missing_and_unreadable_levels_are_told_apart() {
    let sarc = open(&nested());
    let archive = sarc.archive();
    assert_eq!(open_nested_file(archive, "nothing.txt"), Err(ErrorKind::UnknownResource));
    assert_eq!(
        open_nested_file(archive, "outer.pack//inner.sbactorpack//Actor/Ganon.bactor"),
        Err(ErrorKind::UnknownResource)
    );
    assert_eq!(open_nested_file(archive, "top.txt//inside"), Err(ErrorKind::ParseFormat));
    assert_eq!(open_nested_file(archive, ""), Err(ErrorKind::UnknownResource));
}

#[test]
fn compressed_archive_is_opened() {
    let plain = nested();
    let sarc = open(&compress(&plain).unwrap());
    assert_eq!(sarc.archive().as_bytes(), &plain);
    assert!(OpenSarc::open(b"Yaz0 but broken").is_err());
    assert_eq!(OpenSarc::open(b"Yaz0").err(), Some(ErrorKind::Compression));
    assert_eq!(OpenSarc::open(b"neither").err(), Some(ErrorKind::ParseFormat));
}

#[test]
fn tree_shows_directories_and_nested_archives() {
    let sarc = open(&nested());
    let view = sarc.view().ok().unwrap();
    assert!(view.be);
    assert!(has_path(&view.sarc, &["top.txt"]));
    assert!(has_path(&view.sarc, &["outer.pack", "readme.txt"]));
    assert!(has_path(&view.sarc, &["outer.pack", "inner.sbactorpack", "Actor", "Link.bactor"]));
    assert!(has_path(&view.sarc, &["outer.pack", "inner.sbactorpack", "Actor", "Zelda.bactor"]));
    assert!(!has_path(&view.sarc, &["outer.pack", "inner.sbactorpack", "Actor", "Ganon.bactor"]));
    assert!(!has_path(&view.sarc, &["Actor"]));
    // top.txt, outer.pack, readme.txt, inner.sbactorpack, Actor, two actors
    assert_eq!(count_nodes(&view.sarc), 7);
    let mut modded = view.modded.clone();
    modded.sort();
    assert_eq!(
        modded,
        vec![
            "Actor/Link.bactor",
            "Actor/Zelda.bactor",
            "inner.sbactorpack",
            "outer.pack",
            "readme.txt",
            "top.txt"
        ]
    );
}

#[test]
fn leading_slashes_are_kept_in_the_tree() {
    let bytes = pack(
        false,
        &[("/Actor/Link.bactor", b"link".to_vec()), ("/Actor/Zelda.bactor", b"zelda".to_vec())],
    );
    let view = open(&bytes).view().ok().unwrap();
    assert!(!view.be);
    assert!(has_path(&view.sarc, &["/Actor", "Link.bactor"]));
    assert!(has_path(&view.sarc, &["/Actor", "Zelda.bactor"]));
    assert!(!has_path(&view.sarc, &["Actor"]));
    assert_eq!(count_nodes(&view.sarc), 3);
}

#[test]
fn file_meta_describes_a_nested_file() {
    let sarc = open(&nested());
    let meta = sarc
        .get_file_meta("outer.pack//inner.sbactorpack//Actor/Link.bactor")
        .ok()
        .unwrap();
    assert_eq!(meta.file, "Link.bactor");
    assert_eq!(meta.size, b"the hero of time".len());
    assert!(!meta.is_yaml);
    assert!(meta.modified);
    // 16 bytes round up to 32; the Wii U base of 0xe4 and the generic 0x20 are added
    assert_eq!(meta.rstb, Some(32 + 0xe4 + 0x20));
    assert_eq!(sarc.get_file_meta("outer.pack//nothing").err(), Some(ErrorKind::UnknownResource));
}

#[test]
fn delete_repacks_every_archive_on_the_way() {
    let mut sarc = open(&nested());
    assert!(sarc.delete_file("outer.pack//inner.sbactorpack//Actor/Link.bactor").is_ok());
    let archive = sarc.archive();
    assert_eq!(
        open_nested_file(archive, "outer.pack//inner.sbactorpack//Actor/Link.bactor"),
        Err(ErrorKind::UnknownResource)
    );
    assert_eq!(
        open_nested_file(archive, "outer.pack//inner.sbactorpack//Actor/Zelda.bactor"),
        Ok(b"the princess".to_vec())
    );
    assert_eq!(open_nested_file(archive, "outer.pack//readme.txt"), Ok(b"outer readme".to_vec()));
    assert_eq!(open_nested_file(archive, "top.txt"), Ok(b"top".to_vec()));
    // the member with the `s` extension is stored compressed, the `.pack` plain
    let outer = open_nested_file(archive, "outer.pack").unwrap();
    assert_eq!(&outer[0..4], b"SARC");
    let inner = open_nested_file(archive, "outer.pack//inner.sbactorpack").unwrap();
    assert!(is_yaz0(&inner));
    let reread = Archive::parse(decompress(&inner).unwrap()).ok().unwrap();
    assert_eq!(names(&reread), vec!["Actor/Zelda.bactor"]);
    // the file is reopened from the bytes that would be saved
    let saved = sarc.save("root.pack").unwrap();
    let again = open(&saved);
    assert_eq!(
        open_nested_file(again.archive(), "outer.pack//inner.sbactorpack//Actor/Link.bactor"),
        Err(ErrorKind::UnknownResource)
    );
}

#[test]
fn add_puts_a_file_at_any_depth() {
    let mut sarc = open(&nested());
    assert!(sarc.add_file("new.txt", b"fresh".to_vec()).is_ok());
    assert!(sarc.add_file("SARC:outer.pack//inner.sbactorpack//Actor/Ganon.bactor", b"evil".to_vec()).is_ok());
    assert!(sarc.add_file("top.txt", b"changed".to_vec()).is_ok());
    let archive = sarc.archive();
    assert_eq!(open_nested_file(archive, "new.txt"), Ok(b"fresh".to_vec()));
    assert_eq!(open_nested_file(archive, "top.txt"), Ok(b"changed".to_vec()));
    assert_eq!(
        open_nested_file(archive, "outer.pack//inner.sbactorpack//Actor/Ganon.bactor"),
        Ok(b"evil".to_vec())
    );
    assert_eq!(
        open_nested_file(archive, "outer.pack//inner.sbactorpack//Actor/Link.bactor"),
        Ok(b"the hero of time".to_vec())
    );
}

#[test]
fn rename_leaves_exactly_the_new_name() {
    let mut sarc = open(&nested());
    let at = "outer.pack//inner.sbactorpack//Actor/Link.bactor";
    assert!(sarc.rename_file(at, "Hero.bactor").is_ok());
    let archive = sarc.archive();
    assert_eq!(open_nested_file(archive, at), Err(ErrorKind::UnknownResource));
    assert_eq!(
        open_nested_file(archive, "outer.pack//inner.sbactorpack//Actor/Hero.bactor"),
        Ok(b"the hero of time".to_vec())
    );
    assert_eq!(
        open_nested_file(archive, "outer.pack//inner.sbactorpack//Actor/Zelda.bactor"),
        Ok(b"the princess".to_vec())
    );
}

#[test]
fn failed_edit_leaves_the_open_archive_alone() {
    let mut sarc = open(&nested());
    let before = sarc.archive().as_bytes().clone();
    assert_eq!(sarc.rename_file("outer.pack//missing.txt", "x.txt").err(), Some(ErrorKind::UnknownResource));
    assert_eq!(sarc.add_file("nowhere.pack//a.txt", b"a".to_vec()).err(), Some(ErrorKind::UnknownResource));
    assert_eq!(sarc.add_file("top.txt//a.txt", b"a".to_vec()).err(), Some(ErrorKind::ParseFormat));
    assert_eq!(sarc.delete_file("top.txt//a.txt").err(), Some(ErrorKind::ParseFormat));
    assert_eq!(sarc.archive().as_bytes(), &before);
    // removing what is not there changes no file
    assert!(sarc.delete_file("not-there.txt").is_ok());
    assert_eq!(open_nested_file(sarc.archive(), "top.txt"), Ok(b"top".to_vec()));
}

#[test]
fn folder_files_go_in_under_their_relative_paths() {
    let mut sarc = open(&nested());
    let items = vec![
        ("Actor\\New.bactor".to_string(), b"n".to_vec()),
        ("top.txt".to_string(), b"over".to_vec()),
    ];
    assert!(sarc.update_folder(&items).is_ok());
    let archive = sarc.archive();
    assert_eq!(open_nested_file(archive, "Actor/New.bactor"), Ok(b"n".to_vec()));
    assert_eq!(open_nested_file(archive, "top.txt"), Ok(b"over".to_vec()));
    assert_eq!(open_nested_file(archive, "outer.pack//readme.txt"), Ok(b"outer readme".to_vec()));
}

#[test]
fn save_compresses_by_the_name() {
    let sarc = open(&nested());
    let plain = sarc.save("Root.pack").unwrap();
    assert_eq!(&plain[0..4], b"SARC");
    let small = sarc.save("Root.spack").unwrap();
    assert!(is_yaz0(&small));
    assert_eq!(decompress(&small).unwrap(), plain);
    let exception = sarc.save("Root.sarc").unwrap();
    assert_eq!(exception, plain);
}

#[test]
fn extraction_lists_every_file_once() {
    let bytes = pack(
        false,
        &[("/Actor/Link.bactor", b"link".to_vec()), ("top.txt", b"top".to_vec())],
    );
    let mut all = open(&bytes).extract_all();
    all.sort();
    assert_eq!(
        all,
        vec![
            ("Actor/Link.bactor".to_string(), b"link".to_vec()),
            ("top.txt".to_string(), b"top".to_vec()),
        ]
    );
}

#[test]
fn created_archive_is_empty() {
    let sarc = match OpenSarc::create(false, 8) {
        Ok(s) => s,
        Err(e) => panic!("{:?}", e),
    };
    assert_eq!(sarc.archive().entries().len(), 0);
    assert!(!sarc.archive().big_endian());
    let view = sarc.view().ok().unwrap();
    assert!(!view.be);
    assert_eq!(view.sarc.nodes.len(), 0);
    assert_eq!(view.modded.len(), 0);
    assert_eq!(OpenSarc::create(true, 3).err(), Some(ErrorKind::ParseFormat));
}
