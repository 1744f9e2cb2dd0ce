use wildbits::paths::{
    clean_location_of, extension_of, file_name_of, launch_extension_of, levels_of,
    parent_dir_of, rename_target_of, stock_name_of,
};
use wildbits::text::{
    chars_of, decimal_of, find, last_index, replace, split_on, string_of,
    trim_end_of, trim_start_of,
};

fn c(s: &str) -> Vec<char> {
    chars_of(s)
}

fn s(v: &Vec<char>) -> String {
    string_of(v)
}

fn strings(parts: &Vec<Vec<char>>) -> Vec<String> {
    parts.iter().map(|p| string_of(p)).collect()
}

#[test]
fn chars_and_strings_round_trip() {
    assert_eq!(c("aß€"), vec!['a', 'ß', '€']);
    assert_eq!(s(&vec!['a', 'ß', '€']), "aß€");
    assert_eq!(s(&c("")), "");
}

#[test]
fn find_gives_first_match_from_start() {
    assert_eq!(find(&c("a//b//c"), &c("//"), 0), Some(1));
    assert_eq!(find(&c("a//b//c"), &c("//"), 2), Some(4));
    assert_eq!(find(&c("a//b//c"), &c("//"), 5), None);
    assert_eq!(find(&c("abc"), &c("abcd"), 0), None);
    assert_eq!(find(&c("abc"), &c(""), 3), Some(3));
}

#[test]
fn split_cuts_at_every_separator() {
    assert_eq!(strings(&split_on(&c("a//b//c"), &c("//"))), vec!["a", "b", "c"]);
    assert_eq!(strings(&split_on(&c("abc"), &c("//"))), vec!["abc"]);
    assert_eq!(strings(&split_on(&c(""), &c("/"))), vec![""]);
    assert_eq!(strings(&split_on(&c("/a/"), &c("/"))), vec!["", "a", ""]);
    assert_eq!(strings(&split_on(&c("a///b"), &c("//"))), vec!["a", "/b"]);
}

#[test]
fn replace_does_not_overlap() {
    assert_eq!(s(&replace(&c("a\\b\\c"), &c("\\"), &c("/"))), "a/b/c");
    assert_eq!(s(&replace(&c("aaa"), &c("aa"), &c("b"))), "ba");
    assert_eq!(s(&replace(&c("x.sy.sz"), &c(".s"), &c("."))), "x.y.z");
    assert_eq!(s(&replace(&c("abc"), &c(""), &c("x"))), "abc");
}

#[test]
fn trimming_removes_every_repetition() {
    assert_eq!(s(&trim_end_of(&c("a/b///"), &c("/"))), "a/b");
    assert_eq!(s(&trim_end_of(&c("///"), &c("/"))), "");
    assert_eq!(s(&trim_end_of(&c("file.zs.zs"), &c(".zs"))), "file");
    assert_eq!(s(&trim_start_of(&c("//a/b"), &c("/"))), "a/b");
    assert_eq!(s(&trim_start_of(&c("SARC:SARC:x"), &c("SARC:"))), "x");
    assert_eq!(s(&trim_start_of(&c("abc"), &c(""))), "abc");
}

#[test]
fn last_index_is_the_last() {
    assert_eq!(last_index(&c("a/b/c"), '/'), Some(3));
    assert_eq!(last_index(&c("/"), '/'), Some(0));
    assert_eq!(last_index(&c("abc"), '/'), None);
    assert_eq!(last_index(&c(""), '/'), None);
}

#[test]
fn decimal_numerals() {
    assert_eq!(s(&decimal_of(0)), "0");
    assert_eq!(s(&decimal_of(7)), "7");
    assert_eq!(s(&decimal_of(10)), "10");
    assert_eq!(s(&decimal_of(1596346337)), "1596346337");
    assert_eq!(s(&decimal_of(u32::MAX)), "4294967295");
}

#[test]
fn names_directories_and_extensions() {
    assert_eq!(s(&file_name_of(&c("Actor/Pack/Link.sbactorpack"))), "Link.sbactorpack");
    assert_eq!(s(&file_name_of(&c("Link.bactor"))), "Link.bactor");
    assert_eq!(s(&parent_dir_of(&c("Actor/Pack/Link.sbactorpack"))), "Actor/Pack");
    assert_eq!(s(&parent_dir_of(&c("Link.bactor"))), "");
    assert_eq!(extension_of(&c("Actor/Link.bactor")).map(|e| s(&e)), Some("bactor".to_string()));
    assert_eq!(extension_of(&c("a.b/c")), None);
    assert_eq!(extension_of(&c(".hidden")), None);
    assert_eq!(extension_of(&c("x.tar.gz")).map(|e| s(&e)), Some("gz".to_string()));
    assert_eq!(extension_of(&c("x.")).map(|e| s(&e)), Some("".to_string()));
}

#[test]
fn locations_are_cleaned_and_cut() {
    let cleaned = clean_location_of(&c("SARC:outer.pack//inner.sbactorpack//Actor/Link.bactor/"));
    assert_eq!(s(&cleaned), "outer.pack//inner.sbactorpack//Actor/Link.bactor");
    assert_eq!(
        strings(&levels_of(&cleaned)),
        vec!["outer.pack", "inner.sbactorpack", "Actor/Link.bactor"]
    );
    assert_eq!(strings(&levels_of(&c("Actor/Link.bactor"))), vec!["Actor/Link.bactor"]);
}

#[test]
fn rename_stays_in_the_directory() {
    assert_eq!(s(&rename_target_of(&c("Actor/Link.bactor"), &c("Zelda.bactor"))), "Actor/Zelda.bactor");
    assert_eq!(s(&rename_target_of(&c("Link.bactor"), &c("Zelda.bactor"))), "Zelda.bactor");
    assert_eq!(s(&rename_target_of(&c("A/B/c.x"), &c("sub\\d.x"))), "A/B/sub/d.x");
}

#[test]
fn stock_names_drop_the_leading_s_of_the_extension() {
    assert_eq!(s(&stock_name_of(&c("Actor/Pack/Link.sbactorpack"))), "Actor/Pack/Link.bactorpack");
    assert_eq!(s(&stock_name_of(&c("Actor/Link.bactor"))), "Actor/Link.bactor");
    assert_eq!(s(&stock_name_of(&c("Model/Npc.sword.sbfres"))), "Model/Npc.sword.bfres");
    assert_eq!(s(&stock_name_of(&c("noext"))), "noext");
}

#[test]
fn launch_extension_ignores_zs() {
    assert_eq!(launch_extension_of(&c("Map.byml.zs")).map(|e| s(&e)), Some("byml".to_string()));
    assert_eq!(launch_extension_of(&c("Map.byml")).map(|e| s(&e)), Some("byml".to_string()));
    assert_eq!(launch_extension_of(&c("Map")), None);
}
