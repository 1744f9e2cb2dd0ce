use roead::aamp::{Parameter, ParameterIO, ParameterList, ParameterObject};
use wildbits::byml::check_sound;
use wildbits::nesting::check_shallow;
use wildbits::error::ErrorKind;
use wildbits::yaml::{
    detect, init_name_table, save_target, Format, SaveTarget, StockNames, Yaml, YamlEndian,
};
use wildbits::yaz0::{compress, decompress, is_yaz0};

fn open(data: &[u8]) -> Yaml {
    match Yaml::from_binary(data) {
        Ok(y) => y,
        Err(e) => panic!("no document: {:?}", e),
    }
}

fn msbt(mark: [u8; 2]) -> Vec<u8> {
    let mut bytes = b"MsgStdBn".to_vec();
    bytes.extend_from_slice(&mark);
    bytes.extend_from_slice(&[0u8; 22]);
    bytes
}

fn sample_byml(endian: roead::Endian) -> Vec<u8> {
    roead::byml::Byml::from_text("{name: Link, hearts: 3, items: [sword, shield]}")
        .unwrap()
        .to_binary(endian)
}

#[test]
fn formats_are_told_by_their_magic() {
    assert_eq!(detect(b"AAMP and more"), Ok((Format::Aamp, YamlEndian::Little)));
    assert_eq!(detect(b"BY\x00\x02"), Ok((Format::Byml, YamlEndian::Big)));
    assert_eq!(detect(b"YB\x02\x00"), Ok((Format::Byml, YamlEndian::Little)));
    assert_eq!(detect(&msbt([0xFE, 0xFF])), Ok((Format::Msbt, YamlEndian::Big)));
    assert_eq!(detect(&msbt([0xFF, 0xFE])), Ok((Format::Msbt, YamlEndian::Little)));
}

#[test]
fn formats_have_names() {
    assert_eq!(Format::Aamp.name(), "aamp");
    assert_eq!(Format::Byml.name(), "byml");
    assert_eq!(Format::Msbt.name(), "msbt");
    assert_eq!(ErrorKind::InvalidRstb.name(), "invalid-rstb");
    assert_eq!(ErrorKind::NotAKnownFormat.name(), "not-a-known-format");
    assert_eq!(ErrorKind::UnknownResource.name(), "unknown-resource");
    assert_eq!(ErrorKind::Compression.name(), "compression");
    assert_eq!(ErrorKind::ParseFormat.name(), "parse-format");
    assert_eq!(ErrorKind::ParseText.name(), "parse-text");
    assert_eq!(ErrorKind::IoRead.name(), "io-read");
    assert_eq!(ErrorKind::IoWrite.name(), "io-write");
}

#[test]
fn other_content_is_of_no_known_format() {
    assert_eq!(detect(b""), Err(ErrorKind::NotAKnownFormat));
    assert_eq!(detect(b"B"), Err(ErrorKind::NotAKnownFormat));
    assert_eq!(detect(b"SARC"), Err(ErrorKind::NotAKnownFormat));
    assert_eq!(detect(b"AAM"), Err(ErrorKind::NotAKnownFormat));
    assert_eq!(detect(b"MsgStdBx\xFE\xFF"), Err(ErrorKind::NotAKnownFormat));
    assert_eq!(Yaml::from_binary(b"nothing known").err(), Some(ErrorKind::NotAKnownFormat));
}

#[test]
fn message_table_needs_a_byte_order_mark() {
    assert_eq!(detect(&msbt([0x00, 0x00])), Err(ErrorKind::ParseFormat));
    assert_eq!(detect(b"MsgStdBn"), Err(ErrorKind::ParseFormat));
    assert_eq!(detect(b"MsgStdBn\xFE"), Err(ErrorKind::ParseFormat));
}

#[test]
fn first_rule_wins() {
    // the AAMP magic is looked for before anything else
    assert_eq!(detect(b"AAMPBY"), Ok((Format::Aamp, YamlEndian::Little)));
    assert_eq!(detect(b"BYAAMP"), Ok((Format::Byml, YamlEndian::Big)));
}

#[test]
fn compressed_document_is_opened() {
    let binary = sample_byml(roead::Endian::Big);
    let doc = open(&compress(&binary).unwrap());
    assert_eq!(doc.format(), Format::Byml);
    assert_eq!(doc.endian(), YamlEndian::Big);
    assert!(doc.is_big_endian());
    assert_eq!(doc.to_binary(), binary);
    assert_eq!(Yaml::from_binary(b"Yaz0").err(), Some(ErrorKind::Compression));
}

#[test]
fn byml_text_round_trip_keeps_the_binary() {
    let binary = sample_byml(roead::Endian::Little);
    let mut doc = open(&binary);
    assert_eq!(doc.endian(), YamlEndian::Little);
    let text = doc.to_text(&mut StockNames::open()).unwrap();
    assert_eq!(text, roead::byml::Byml::from_binary(&binary).unwrap().to_text());
    assert!(text.contains("Link") && text.contains("shield"));
    assert_eq!(doc.update(&text), Ok(()));
    assert_eq!(doc.to_binary(), binary);
    // once more with the same text: nothing changes
    assert_eq!(doc.update(&text), Ok(()));
    assert_eq!(doc.to_binary(), binary);
    assert_eq!(doc.to_text(&mut StockNames::open()), Some(text));
}

#[test]
fn edited_byml_text_is_written_in_the_byte_order_of_the_document() {
    for (endian, order) in [(roead::Endian::Big, YamlEndian::Big), (roead::Endian::Little, YamlEndian::Little)] {
        let mut doc = open(&sample_byml(endian));
        assert_eq!(doc.update("{name: Zelda, hearts: 20}"), Ok(()));
        let expected =
            roead::byml::Byml::from_text("{name: Zelda, hearts: 20}").unwrap().to_binary(endian);
        assert_eq!(doc.to_binary(), expected);
        assert_eq!(doc.endian(), order);
        assert_eq!(doc.format(), Format::Byml);
        let text = doc.to_text(&mut StockNames::open()).unwrap();
        assert!(text.contains("Zelda") && !text.contains("Link"));
    }
}

#[test]
fn text_that_is_no_document_is_refused() {
    let mut doc = open(&sample_byml(roead::Endian::Big));
    let before = doc.to_binary();
    // no YAML
    assert_eq!(doc.update("{name: [unclosed"), Err(ErrorKind::ParseText));
    // a root that holds no nodes
    assert_eq!(doc.update("just a word"), Err(ErrorKind::ParseText));
    assert_eq!(doc.update("42"), Err(ErrorKind::ParseText));
    assert_eq!(doc.to_binary(), before);
    // an array at the root is a document
    assert_eq!(doc.update("[1, 2, 3]"), Ok(()));
    assert_ne!(doc.to_binary(), before);
}

#[test]
fn aamp_text_round_trip_keeps_the_binary() {
    let pio = roead::aamp::ParameterIO::new();
    let binary = pio.to_binary();
    let mut doc = open(&binary);
    assert_eq!(doc.format(), Format::Aamp);
    assert_eq!(doc.endian(), YamlEndian::Little);
    let text = doc.to_text(&mut StockNames::open()).unwrap();
    assert!(!text.is_empty());
    assert_eq!(text, roead::aamp::ParameterIO::from_binary(doc.to_binary()).unwrap().to_text());
    assert_eq!(doc.update(&text), Ok(()));
    assert_eq!(doc.to_binary(), binary);
    assert_eq!(doc.update("{not: a parameter archive"), Err(ErrorKind::ParseText));
    assert_eq!(doc.update("[1, 2, 3]"), Err(ErrorKind::ParseText));
    assert_eq!(doc.to_binary(), binary);
}

#[test]
fn edited_document_keeps_format_and_byte_order() {
    let mut doc = open(&sample_byml(roead::Endian::Big));
    let before = doc.to_binary();
    // unreadable text
    assert_eq!(doc.take_binary(None), Err(ErrorKind::ParseText));
    // the other byte order
    assert_eq!(doc.take_binary(Some(sample_byml(roead::Endian::Little))), Err(ErrorKind::ParseText));
    // another format
    assert_eq!(doc.take_binary(Some(b"AAMP....".to_vec())), Err(ErrorKind::ParseText));
    assert_eq!(doc.take_binary(Some(Vec::new())), Err(ErrorKind::ParseText));
    // the right magic, and nothing behind it
    assert_eq!(doc.take_binary(Some(b"BY\x00\x02".to_vec())), Err(ErrorKind::ParseText));
    assert_eq!(doc.to_binary(), before);
    assert_eq!(doc.format(), Format::Byml);
    assert_eq!(doc.endian(), YamlEndian::Big);
    // a changed document of the same kind
    let other = roead::byml::Byml::from_text("{name: Zelda}").unwrap().to_binary(roead::Endian::Big);
    assert_eq!(doc.take_binary(Some(other.clone())), Ok(()));
    assert_eq!(doc.to_binary(), other);
}

#[test]
fn message_table_text_is_made_elsewhere() {
    let mut doc = open(&msbt([0xFE, 0xFF]));
    assert_eq!(doc.format(), Format::Msbt);
    assert_eq!(doc.to_text(&mut StockNames::open()), None);
    assert_eq!(doc.update("anything"), Err(ErrorKind::ParseText));
    let mut other = msbt([0xFE, 0xFF]);
    other.push(7);
    assert_eq!(doc.take_binary(Some(other.clone())), Ok(()));
    assert_eq!(doc.to_binary(), other);
    assert_eq!(doc.take_binary(Some(msbt([0xFF, 0xFE]))), Err(ErrorKind::ParseText));
}

fn word(n: u32) -> [u8; 4] {
    n.to_be_bytes()
}

/// A big-endian document: header, no tables, and at 0x10 an array with the
/// given type bytes and words.
fn array_doc(kinds: &[u8], words: &[u32]) -> Vec<u8> {
    let mut d = b"BY\x00\x02".to_vec();
    d.extend_from_slice(&word(0));
    d.extend_from_slice(&word(0));
    d.extend_from_slice(&word(0x10));
    d.push(0xC0);
    d.extend_from_slice(&word(kinds.len() as u32)[1..]);
    d.extend_from_slice(kinds);
    while d.len() % 4 != 0 {
        d.push(0);
    }
    for w in words {
        d.extend_from_slice(&word(*w));
    }
    d
}

#[test]
fn sound_documents_are_told_from_others() {
    // what the format library writes is sound
    for text in ["{name: Link, hearts: 3, items: [sword, shield]}", "[]", "{a: {b: {c: [1, 2.5, true]}}}"] {
        for endian in [roead::Endian::Big, roead::Endian::Little] {
            let binary = roead::byml::Byml::from_text(text).unwrap().to_binary(endian);
            assert!(check_sound(&binary), "{}", text);
        }
    }
    // an array of two numbers
    let plain = array_doc(&[0xD1, 0xD3], &[7, 8]);
    assert!(check_sound(&plain));
    assert_eq!(open(&plain).to_text(&mut StockNames::open()), Some(roead::byml::Byml::from_binary(&plain).unwrap().to_text()));
    // too short for a header
    assert!(!check_sound(b"BY\x00\x02"));
    // no byte order
    assert!(!check_sound(&[0u8; 32]));
    // an array that holds itself
    assert!(!check_sound(&array_doc(&[0xC0], &[0x10])));
    // a string without a string table
    assert!(!check_sound(&array_doc(&[0xA0], &[0])));
    // a number of 64 bits that lies behind the end
    assert!(!check_sound(&array_doc(&[0xD4], &[0x1000])));
    // more children than bytes
    let mut cut = array_doc(&[0xD1, 0xD1], &[1, 2]);
    cut.truncate(cut.len() - 4);
    assert!(!check_sound(&cut));
    // a root that is no container
    let mut leaf = array_doc(&[], &[]);
    leaf[0x10] = 0xD1;
    assert!(!check_sound(&leaf));
    // a sound layout of a version that is not read
    let mut late = array_doc(&[0xD1, 0xD3], &[7, 8]);
    late[3] = 9;
    assert!(check_sound(&late));
    assert_eq!(Yaml::from_binary(&late).err(), Some(ErrorKind::ParseFormat));
    // none of them is opened as a document
    assert_eq!(Yaml::from_binary(&array_doc(&[0xC0], &[0x10])).err(), Some(ErrorKind::ParseFormat));
    assert_eq!(Yaml::from_binary(b"BY\x00\x02").err(), Some(ErrorKind::ParseFormat));
}

#[test]
fn long_strings_are_refused() {
    // a string table at 0x10 with one string; the root array at `root` holds it
    let table = |len: usize| {
        let mut d = b"BY\x00\x02".to_vec();
        d.extend_from_slice(&word(0));
        d.extend_from_slice(&word(0x10));
        d.extend_from_slice(&word(0));
        d.push(0xC2);
        d.extend_from_slice(&word(1)[1..]);
        d.extend_from_slice(&word(12));
        d.extend_from_slice(&word(12 + len as u32 + 1));
        d.extend(std::iter::repeat(b'a').take(len));
        d.push(0);
        while d.len() % 4 != 0 {
            d.push(0);
        }
        let root = d.len() as u32;
        d[12..16].copy_from_slice(&word(root));
        d.push(0xC0);
        d.extend_from_slice(&word(1)[1..]);
        d.extend_from_slice(&[0xA0, 0, 0, 0]);
        d.extend_from_slice(&word(0));
        d
    };
    assert!(check_sound(&table(5)));
    assert!(check_sound(&table(1023)));
    assert!(!check_sound(&table(1024)));
    assert!(!check_sound(&table(4000)));
    let text = open(&table(5)).to_text(&mut StockNames::open()).unwrap();
    assert!(text.contains("aaaaa"));
}

#[test]
fn saved_payload_is_compressed_by_the_name() {
    let binary = sample_byml(roead::Endian::Big);
    let doc = open(&binary);
    assert_eq!(doc.payload_for("ActorInfo.product.byml").unwrap(), binary);
    let small = doc.payload_for("ActorInfo.product.sbyml").unwrap();
    assert!(is_yaz0(&small));
    assert_eq!(decompress(&small).unwrap(), binary);
}

#[test]
fn save_goes_to_disk_or_into_the_archive() {
    assert!(matches!(save_target("/home/me/ActorInfo.product.byml"), SaveTarget::Disk));
    assert!(matches!(save_target("outer.pack//a.byml"), SaveTarget::Disk));
    match save_target("SARC:outer.pack//inner.sbactorpack//Actor/Link.bxml/") {
        SaveTarget::Archive { levels } => {
            assert_eq!(levels, vec!["outer.pack", "inner.sbactorpack", "Actor/Link.bxml"]);
        }
        SaveTarget::Disk => panic!("meant for the archive"),
    }
}

#[test]
fn file_names_are_made_known() {
    let mut names = StockNames::open();
    let probe = roead::aamp::hash_name("File1");
    assert_eq!(probe, 1596346337);
    assert_eq!(names.name_of(probe), None);
    init_name_table(&mut names);
    assert_eq!(names.name_of(probe), Some("File1".to_string()));
    assert_eq!(names.name_of(roead::aamp::hash_name("File9999")), Some("File9999".to_string()));
    assert_eq!(names.name_of(roead::aamp::hash_name("File10000")), None);
    // a second call finds the probe and changes nothing
    init_name_table(&mut names);
    assert_eq!(names.name_of(probe), Some("File1".to_string()));
    // the table is the one that the text of an archive is written from
    let archive = ParameterIO::new()
        .with_object("File7", ParameterObject::new().with_parameter("File8", Parameter::I32(1)));
    let text = open(&archive.to_binary()).to_text(&mut names).unwrap();
    assert!(text.contains("File7") && text.contains("File8"));
}

#[test]
fn known_probe_stops_the_filling() {
    let mut names = StockNames::open();
    roead::aamp::get_default_name_table().add_name("File1");
    init_name_table(&mut names);
    assert_eq!(names.name_of(roead::aamp::hash_name("File1")), Some("File1".to_string()));
    assert_eq!(names.name_of(roead::aamp::hash_name("File123")), None);
}

#[test]
fn names_are_looked_at_before_the_text_is_made() {
    let mut names = StockNames::open();
    assert!(names.check_names(&vec![roead::aamp::hash_name("param_root"), 12345]));
    // a name that is too long to guess from
    let long = "L".repeat(130);
    roead::aamp::get_default_name_table().add_name(long.clone());
    assert!(!names.check_names(&vec![roead::aamp::hash_name(&long)]));
    // an archive with a list of that name and a parameter that has no name
    let archive = ParameterIO::new().with_list(
        long.as_str(),
        ParameterList::new()
            .with_object(long.as_str(), ParameterObject::new().with_parameter("x y z", Parameter::I32(1))),
    );
    let doc = open(&archive.to_binary());
    assert_eq!(doc.to_text(&mut names), None);
    // a name with a quote in it
    roead::aamp::get_default_name_table().add_name("it's");
    assert!(!names.check_names(&vec![roead::aamp::hash_name("it's")]));
    assert!(names.check_names(&vec![roead::aamp::hash_name("its")]));
}

#[test]
fn nesting_of_text_is_bounded() {
    // two for each column of the indentation and the one after it
    assert!(check_shallow(&format!("{}a", " ".repeat(63))));
    assert!(!check_shallow(&format!("{}a", " ".repeat(64))));
    // one for each bracket that is open
    assert!(check_shallow(&"[".repeat(126)));
    assert!(!check_shallow(&"[".repeat(127)));
    assert!(check_shallow(&format!("{}{}", "[".repeat(100), "]".repeat(100))));
    // brackets closed in their line are forgotten
    assert!(check_shallow(&"a: [1, 2, {b: 3}]\n".repeat(1000)));
    // brackets left open at the end of a line are not
    assert!(check_shallow(&"[\n]\n".repeat(126)));
    assert!(!check_shallow(&"[\n]\n".repeat(127)));
    // quoted scalars in the place of a value are passed over
    assert!(check_shallow(&"- [\"\"]\n".repeat(1000)));
    assert!(check_shallow(&"a: [\"1\", 'two', {b: \"]\", 'c': \"}\"}]\n".repeat(1000)));
    assert!(check_shallow(&"a: {b: \"x\", c: 'y', d: [\"z\"]}\n".repeat(1000)));
    assert!(check_shallow(&"a: \"[1]\"\n".repeat(1000)));
    // a bracket inside a quoted scalar is never closed
    assert!(!check_shallow(&"a: [\"[\"]\n".repeat(127)));
    // a quote elsewhere, a backslash in a quoted scalar and a comment give
    // the brackets of the line up
    assert!(!check_shallow(&"a: [b\"c]\n".repeat(127)));
    assert!(!check_shallow(&"a: [\"b\\\"]\"]\n".repeat(127)));
    assert!(!check_shallow(&"a: ['b'']']\n".repeat(127)));
    assert!(!check_shallow(&"a: [1 # one]\n".repeat(127)));
    assert!(check_shallow(&"a: [1 # one]\n".repeat(100)));
    // one for each mark of a line
    assert!(check_shallow(&"- ".repeat(126)));
    assert!(!check_shallow(&"- ".repeat(127)));
    assert!(check_shallow(&"-1.5, ".repeat(1000)));
    assert!(check_shallow(""));
}

#[test]
fn text_as_it_is_written_is_shallow() {
    let deep = "{a: {b: {c: {d: {e: {f: [1, 2, 3], g: [x, y], h: {i: {j: {k: [[1], [2]]}}}}}}}}}";
    let binary = roead::byml::Byml::from_text(deep).unwrap().to_binary(roead::Endian::Big);
    let mut doc = open(&binary);
    let text = doc.to_text(&mut StockNames::open()).unwrap();
    assert!(check_shallow(&text));
    assert_eq!(doc.update(&text), Ok(()));
    assert_eq!(doc.to_binary(), binary);
    let parameters = roead::aamp::ParameterIO::new().to_text();
    assert!(check_shallow(&parameters));
}

#[test]
fn text_nested_too_deep_is_refused() {
    let mut doc = open(&sample_byml(roead::Endian::Little));
    let before = doc.to_binary();
    let deep = format!("{}1{}", "[".repeat(200), "]".repeat(200));
    assert!(!check_shallow(&deep));
    assert_eq!(doc.update(&deep), Err(ErrorKind::ParseText));
    // text that is read, into a document that is too deep to be written
    let steep = format!("{}1{}", "[".repeat(100), "]".repeat(100));
    assert!(roead::byml::Byml::from_text(&steep).is_ok());
    assert!(check_shallow(&steep));
    assert_eq!(doc.update(&steep), Err(ErrorKind::ParseText));
    assert_eq!(doc.to_binary(), before);
    let fine = format!("{}1{}", "[".repeat(12), "]".repeat(12));
    assert_eq!(doc.update(&fine), Ok(()));
    assert_eq!(
        doc.to_binary(),
        roead::byml::Byml::from_text(&fine).unwrap().to_binary(roead::Endian::Little)
    );
}

fn sample_aamp() -> roead::aamp::ParameterIO {
    let inner = ParameterObject::new()
        .with_parameter("Speed", Parameter::F32(1.5))
        .with_parameter("Name", Parameter::StringRef("Guardian".into()))
        .with_parameter("Levels", Parameter::BufferInt(vec![1, 2, 3]))
        .with_parameter("Raw", Parameter::BufferBinary(vec![9, 8, 7, 6, 5]));
    let list = ParameterList::new()
        .with_object("Inner", inner)
        .with_list("Deeper", ParameterList::new().with_object("Empty", ParameterObject::new()));
    ParameterIO::new()
        .with_object(
            "TestContent",
            ParameterObject::new()
                .with_parameter("Bool_0", Parameter::Bool(true))
                .with_parameter("Int_0", Parameter::I32(-7))
                .with_parameter("U32_0", Parameter::U32(0x8000_0001)),
        )
        .with_list("Stuff", list)
}

#[test]
fn parameter_archive_is_checked_and_edited() {
    let binary = sample_aamp().to_binary();
    assert!(wildbits::aamp::check_sound(&binary));
    let mut doc = open(&binary);
    assert_eq!(doc.format(), Format::Aamp);
    let text = sample_aamp().to_text();
    assert!(text.contains("Guardian"));
    assert!(check_shallow(&text));
    assert_eq!(doc.update(&text), Ok(()));
    assert_eq!(doc.to_binary(), binary);
    // a changed archive
    let other = sample_aamp().with_object(
        "More",
        roead::aamp::ParameterObject::new().with_parameter("Int_1", roead::aamp::Parameter::I32(1)),
    );
    assert_eq!(doc.update(&other.to_text()), Ok(()));
    assert_eq!(doc.to_binary(), other.to_binary());
    assert_ne!(doc.to_binary(), binary);
}

/// An archive of the kind `xml` whose root list, at 0x38, has the given
/// twelve bytes, with `rest` behind it.
fn aamp_with_root(root: [u8; 12], rest: &[u8]) -> Vec<u8> {
    let mut d = b"AAMP".to_vec();
    d.extend_from_slice(&2u32.to_le_bytes());
    d.extend_from_slice(&3u32.to_le_bytes());
    d.extend_from_slice(&[0u8; 8]);
    d.extend_from_slice(&8u32.to_le_bytes());
    d.extend_from_slice(&[0u8; 0x18]);
    assert_eq!(d.len(), 0x30);
    d.extend_from_slice(b"xml\0\0\0\0\0");
    d.extend_from_slice(&root);
    d.extend_from_slice(rest);
    d
}

#[test]
fn unsound_parameter_archives_are_refused() {
    // a root list without lists and objects
    let empty = aamp_with_root([1, 2, 3, 4, 0, 0, 0, 0, 0, 0, 0, 0], &[]);
    assert!(wildbits::aamp::check_sound(&empty));
    // its layout is sound, but its root has not the name of a root
    assert_eq!(Yaml::from_binary(&empty).err(), Some(ErrorKind::ParseFormat));
    // a list that is its own first list
    let looped = aamp_with_root([1, 2, 3, 4, 0, 0, 1, 0, 0, 0, 0, 0], &[]);
    assert!(!wildbits::aamp::check_sound(&looped));
    assert_eq!(Yaml::from_binary(&looped).err(), Some(ErrorKind::ParseFormat));
    // a header and nothing behind it
    assert!(!wildbits::aamp::check_sound(&empty[..0x30]));
    assert_eq!(Yaml::from_binary(b"AAMP and more").err(), Some(ErrorKind::ParseFormat));
    // one object at 0x44 with one parameter at 0x4C, a string at 0x54
    let with_string = |len: usize, byte: u8| {
        let mut rest = vec![0u8, 0, 0, 0, 2, 0, 1, 0];
        rest.extend_from_slice(&[0, 0, 0, 0, 2, 0, 0, 20]);
        rest.extend(std::iter::repeat(byte).take(len));
        rest.push(0);
        aamp_with_root([1, 2, 3, 4, 0, 0, 0, 0, 3, 0, 1, 0], &rest)
    };
    assert!(wildbits::aamp::check_sound(&with_string(10, b'a')));
    assert!(wildbits::aamp::check_sound(&with_string(0x254, b'a')));
    assert!(!wildbits::aamp::check_sound(&with_string(0x255, b'a')));
    assert!(!wildbits::aamp::check_sound(&with_string(700, b'a')));
    // bytes that are no plain text
    assert!(!wildbits::aamp::check_sound(&with_string(10, 0xC3)));
    // a type that is none
    let mut odd = with_string(10, b'a');
    odd[0x4C + 7] = 21;
    assert!(!wildbits::aamp::check_sound(&odd));
    // a buffer of numbers at 0x58, its length before it: longer than the
    // archive, and within it
    let mut buffer = with_string(20, b'a');
    buffer[0x50] = 3;
    buffer[0x4C + 7] = 13;
    buffer[0x54..0x58].copy_from_slice(&1000u32.to_le_bytes());
    assert!(!wildbits::aamp::check_sound(&buffer));
    buffer[0x54..0x58].copy_from_slice(&2u32.to_le_bytes());
    assert!(wildbits::aamp::check_sound(&buffer));
    buffer[0x54..0x58].copy_from_slice(&5u32.to_le_bytes());
    assert!(!wildbits::aamp::check_sound(&buffer));
}

fn nested_numbers(levels: usize, numbers: usize) -> Vec<u8> {
    let list = vec!["1"; numbers].join(", ");
    let text = format!("{}{}{}", "[".repeat(levels), list, "]".repeat(levels));
    roead::byml::Byml::from_text(text).unwrap().to_binary(roead::Endian::Big)
}

#[test]
fn text_of_a_document_fits_the_room_it_is_written_in() {
    // many numbers near the top, and few far down
    assert!(check_sound(&nested_numbers(2, 3000)));
    assert!(check_sound(&nested_numbers(8, 3000)));
    assert!(check_sound(&nested_numbers(16, 40)));
    // many numbers far down: each may take 12 bytes beyond its 30
    assert!(check_sound(&nested_numbers(14, 2400)));
    assert!(!check_sound(&nested_numbers(14, 2600)));
    // more levels than are written
    assert!(!check_sound(&nested_numbers(17, 4)));
    assert_eq!(Yaml::from_binary(&nested_numbers(14, 2600)).err(), Some(ErrorKind::ParseFormat));
    let text = open(&nested_numbers(16, 40)).to_text(&mut StockNames::open()).unwrap();
    assert!(text.len() > 16 * 16);
    let text = open(&nested_numbers(8, 3000)).to_text(&mut StockNames::open()).unwrap();
    assert!(text.len() > 9000);
    // strings that are written longer than they are
    for odd in ["say \"hi\"", "it's", "two\nlines", "back\\slash", " led by a space", "both ' and \""] {
        let mut map = roead::byml::Map::default();
        map.insert("key".into(), roead::byml::Byml::String(odd.into()));
        let binary = roead::byml::Byml::Map(map.clone()).to_binary(roead::Endian::Little);
        map.insert(odd.into(), roead::byml::Byml::I32(1));
        let keyed = roead::byml::Byml::Map(map).to_binary(roead::Endian::Little);
        assert!(check_sound(&binary) && check_sound(&keyed), "{:?}", odd);
        assert!(open(&keyed).to_text(&mut StockNames::open()).is_some());
        let mut doc = open(&binary);
        let text = doc.to_text(&mut StockNames::open()).unwrap();
        assert_eq!(doc.update(&text), Ok(()), "{:?}", text);
        assert_eq!(doc.to_binary(), binary, "{:?}", odd);
    }
    // each of them takes room that others leave: level 0, heat 4
    let many = |count: usize| {
        let items = vec![roead::byml::Byml::String("it's".into()); count];
        roead::byml::Byml::Array(items).to_binary(roead::Endian::Big)
    };
    assert!(check_sound(&many(1800)));
    assert!(!check_sound(&many(1900)));
}

#[test]
fn documents_are_kept_as_they_are_written_anew() {
    // a document of another version comes back as version 2
    let mut late = sample_byml(roead::Endian::Big);
    late[3] = 3;
    let doc = open(&late);
    assert_eq!(doc.to_binary(), sample_byml(roead::Endian::Big));
    assert_eq!(doc.to_binary()[2..4], [0, 2]);
    // a message table is kept as it is
    assert_eq!(open(&msbt([0xFE, 0xFF])).to_binary(), msbt([0xFE, 0xFF]));
    // an archive with text that is no plain ASCII
    let archive = ParameterIO::new().with_object(
        "Names",
        ParameterObject::new().with_parameter("Hero", Parameter::StringRef("リンク".into())),
    );
    let doc = open(&archive.to_binary());
    assert_eq!(doc.to_binary(), archive.to_binary());
    assert!(doc.to_text(&mut StockNames::open()).unwrap().contains("リンク"));
}

#[test]
fn text_is_written_at_the_edge_of_the_room() {
    let mut names = StockNames::open();
    // numbers far down, as many as are let through
    let deep = open(&nested_numbers(14, 2400));
    assert!(deep.to_text(&mut names).unwrap().len() > 2400 * 28);
    // strings with line ends far down
    let mut inner = roead::byml::Byml::Array(vec![roead::byml::Byml::String("a\nb\nc".into()); 230]);
    for _ in 0..10 {
        inner = roead::byml::Byml::Array(vec![inner]);
    }
    let binary = inner.to_binary(roead::Endian::Big);
    assert!(check_sound(&binary));
    let text = open(&binary).to_text(&mut names).unwrap();
    assert!(text.len() > 230 * 60);
    // strings with quotes at the top
    let quoted = roead::byml::Byml::Array(vec![roead::byml::Byml::String("it's".into()); 1800]);
    let text = open(&quoted.to_binary(roead::Endian::Little)).to_text(&mut names).unwrap();
    assert!(text.len() > 1800 * 8);
    // an archive as deep as is let through, with strings in it
    let mut list = ParameterList::new().with_object(
        "o",
        ParameterObject::new()
            .with_parameter("a", Parameter::StringRef("one\ntwo \"three\"".into()))
            .with_parameter("b", Parameter::BufferInt(vec![7; 500])),
    );
    for _ in 0..7 {
        list = ParameterList::new().with_list("l", list);
    }
    let archive = ParameterIO::new().with_list("top", list).to_binary();
    assert!(wildbits::aamp::check_sound(&archive));
    let doc = open(&archive);
    let text = doc.to_text(&mut names).unwrap();
    assert!(text.contains("three"));
    // one list more is not let through
    let mut list = ParameterList::new();
    for _ in 0..8 {
        list = ParameterList::new().with_list("l", list);
    }
    let archive = ParameterIO::new().with_list("top", list).to_binary();
    assert!(!wildbits::aamp::check_sound(&archive));
}
