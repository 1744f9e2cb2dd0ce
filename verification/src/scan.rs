//! Finding the names of resources in the files of a mod, so that the hashes
//! of a size table can be shown as paths.
//!
//! The archives of a mod are read as every other archive is in this library:
//! checked for their layout, then by `sarc-rs`.

use crate::archive::{contents, entry_views, Archive};
use crate::error::ErrorKind;
use crate::names::{path_hash, PathTable};
use crate::paths::{extension, extension_of};
use crate::sarc::{open_member, opened};
use crate::stock::{
    canon_name, canon_name_without_root, canonical, in_sarc_exts, rootless_canonical, sarc_ext,
};
use crate::text::{chars_of, ends_with, has_suffix, string_of};
use crate::tree::names;
use crate::view::{inner_files, is_archive, nests, opens, MAX_DEPTH};
use vstd::prelude::*;

verus! {

/// A name that ends in `sarc`, `farc` or `larc`: an archive that is not
/// looked into.
pub open spec fn closed_kind(name: Seq<char>) -> bool {
    ends_with(name, seq!['s', 'a', 'r', 'c']) || ends_with(name, seq!['f', 'a', 'r', 'c'])
        || ends_with(name, seq!['l', 'a', 'r', 'c'])
}

/// A file is one to look into for further names: it holds more than 0x40
/// bytes, is an archive that can be opened, and is not of a closed kind.
pub open spec fn wanted(file: (Seq<char>, Seq<u8>)) -> bool {
    file.1.len() > 0x40 && nests(file.1) && !closed_kind(file.0) && opens(file.1)
}

/// A file is looked into for further names: it is one to look into, and the
/// depth is not used up.
pub open spec fn searched(file: (Seq<char>, Seq<u8>), depth: nat) -> bool {
    wanted(file) && depth > 0
}

/// One file leads deeper than `depth` levels: it is one to look into, and
/// the depth is used up, or one of its files leads deeper than what is left.
pub open spec fn deep_in(file: (Seq<char>, Seq<u8>), depth: nat) -> bool
    decreases depth, 0nat,
{
    wanted(file) && (depth == 0 || deep_upto(
        inner_files(file.1),
        (depth - 1) as nat,
        inner_files(file.1).len(),
    ))
}

/// One of the first `upto` files leads deeper than `depth` levels.
pub open spec fn deep_upto(files: Seq<(Seq<char>, Seq<u8>)>, depth: nat, upto: nat) -> bool
    decreases depth, upto + 1,
{
    if upto == 0 || upto > files.len() {
        false
    } else {
        deep_upto(files, depth, (upto - 1) as nat) || deep_in(files[upto - 1], depth)
    }
}

/// Archives to look into are nested deeper than `depth` levels below these
/// files.
pub open spec fn too_deep(files: Seq<(Seq<char>, Seq<u8>)>, depth: nat) -> bool {
    deep_upto(files, depth, files.len())
}

/// What leads too deep among the first files does so among all.
pub proof fn deep_stands(files: Seq<(Seq<char>, Seq<u8>)>, depth: nat, at: nat, n: nat)
    requires
        at <= n <= files.len(),
        deep_upto(files, depth, at),
    ensures
        deep_upto(files, depth, n),
    decreases n - at,
{
    if at < n {
        deep_stands(files, depth, at, (n - 1) as nat);
    }
}

/// The names found in one file: its own canonical name, and the names found
/// in it where it is looked into.
pub open spec fn names_in(file: (Seq<char>, Seq<u8>), depth: nat) -> Seq<Seq<char>>
    decreases depth, 0nat,
{
    if searched(file, depth) {
        seq![rootless_canonical(file.0)] + names_upto(
            inner_files(file.1),
            (depth - 1) as nat,
            inner_files(file.1).len(),
        )
    } else {
        seq![rootless_canonical(file.0)]
    }
}

/// The names found in the first `upto` files, in order.
pub open spec fn names_upto(files: Seq<(Seq<char>, Seq<u8>)>, depth: nat, upto: nat) -> Seq<
    Seq<char>,
>
    decreases depth, upto + 1,
{
    if upto == 0 || upto > files.len() {
        Seq::empty()
    } else {
        names_upto(files, depth, (upto - 1) as nat) + names_in(files[upto - 1], depth)
    }
}

/// The canonical names of the files of an archive and of the archives nested
/// in it.
pub open spec fn nested_names(files: Seq<(Seq<char>, Seq<u8>)>, depth: nat) -> Seq<Seq<char>> {
    names_upto(files, depth, files.len())
}

/// Whether `name` ends in `sarc`, `farc` or `larc`.
pub fn is_closed_kind(name: &str) -> (r: bool)
    ensures
        r == closed_kind(name@),
{
    let chars = chars_of(name);
    let sarc = vec!['s', 'a', 'r', 'c'];
    let farc = vec!['f', 'a', 'r', 'c'];
    let larc = vec!['l', 'a', 'r', 'c'];
    assert(sarc@ =~= seq!['s', 'a', 'r', 'c']);
    assert(farc@ =~= seq!['f', 'a', 'r', 'c']);
    assert(larc@ =~= seq!['l', 'a', 'r', 'c']);
    has_suffix(&chars, &sarc) || has_suffix(&chars, &farc) || has_suffix(&chars, &larc)
}

/// Appends the strings of `more` to `list`.
fn extend(list: &mut Vec<String>, more: Vec<String>)
    ensures
        names(final(list)@) == names(old(list)@) + names(more@),
{
    let ghost before = names(list@);
    let mut i: usize = 0;
    while i < more.len()
        invariant
            i <= more.len(),
            names(list@) == before + names(more@).take(i as int),
        decreases more.len() - i,
    {
        let ghost now = names(list@);
        list.push(more[i].clone());
        proof {
            assert(names(list@) =~= now.push(more@[i as int]@));
            assert(names(more@).take(i + 1) =~= names(more@).take(i as int).push(more@[i as int]@));
        }
        i += 1;
    }
    assert(names(more@).take(more.len() as int) =~= names(more@));
}

/// The canonical names of the files of an archive, and of the files of the
/// archives nested in it. An archive of a closed kind, one of 0x40 bytes or
/// fewer, and one that cannot be opened is named but not looked into.
/// `ParseFormat` where archives to look into are nested deeper than `depth`
/// levels.
pub fn get_nested_names(archive: &Archive, depth: usize) -> (r: Result<Vec<String>, ErrorKind>)
    ensures
        match r {
            Ok(found) => !too_deep(archive.files(), depth as nat) && names(found@) == nested_names(
                archive.files(),
                depth as nat,
            ),
            Err(e) => e == ErrorKind::ParseFormat && too_deep(archive.files(), depth as nat),
        },
    decreases depth,
{
    let entries = archive.entries();
    let ghost files = archive.files();
    let mut found: Vec<String> = Vec::new();
    let mut i: usize = 0;
    assert(names(found@) =~= Seq::empty());
    while i < entries.len()
        invariant
            i <= entries.len(),
            files == archive.files(),
            entry_views(entries@) == files,
            names(found@) == names_upto(files, depth as nat, i as nat),
            !deep_upto(files, depth as nat, i as nat),
        decreases entries.len() - i,
    {
        let entry = &entries[i];
        let ghost file = files[i as int];
        assert(file == (entry.name@, entry.data@));
        let ghost before = names(found@);
        found.push(canon_name_without_root(entry.name.as_str()));
        assert(names(found@) =~= before.push(rootless_canonical(file.0)));
        if entry.data.len() > 0x40 && is_archive(entry.data.as_slice()) && !is_closed_kind(
            entry.name.as_str(),
        ) {
            match open_member(entry.data.as_slice()) {
                Ok(inner) => {
                    inner.known();
                    assert(wanted(file));
                    let deeper = if depth == 0 {
                        Err(ErrorKind::ParseFormat)
                    } else {
                        get_nested_names(&inner, depth - 1)
                    };
                    match deeper {
                        Ok(more) => {
                            extend(&mut found, more);
                            assert(searched(file, depth as nat));
                            assert(names(found@) =~= before + names_in(file, depth as nat));
                        },
                        Err(e) => {
                            proof {
                                assert(deep_in(file, depth as nat));
                                assert(deep_upto(files, depth as nat, (i + 1) as nat));
                                deep_stands(files, depth as nat, (i + 1) as nat, files.len());
                            }
                            return Err(ErrorKind::ParseFormat);
                        },
                    }
                },
                Err(_) => {
                    assert(!wanted(file));
                },
            }
        }
        assert(names(found@) =~= before + names_in(file, depth as nat));
        assert(!deep_in(file, depth as nat));
        i += 1;
    }
    Ok(found)
}

/// The table after each of the first `n` names was added under its hash.
pub open spec fn with_paths(added: Map<u32, Seq<char>>, paths: Seq<Seq<char>>, n: int) -> Map<
    u32,
    Seq<char>,
>
    decreases n,
{
    if n <= 0 {
        added
    } else {
        with_paths(added, paths, n - 1).insert(path_hash(paths[n - 1]), paths[n - 1])
    }
}

/// Whether a file of this name is read as an archive when a mod is scanned:
/// its extension is one of the archive extensions.
pub open spec fn archive_path(path: Seq<char>) -> bool {
    match extension(path) {
        Some(ext) => sarc_ext(ext),
        None => false,
    }
}

/// The table after a file's own name was added: under the hash of the file's
/// path its canonical name, if it has one.
pub open spec fn with_own(added: Map<u32, Seq<char>>, path: Seq<char>) -> Map<u32, Seq<char>> {
    match canonical(path) {
        Some(name) => added.insert(path_hash(path), name),
        None => added,
    }
}

/// A file is looked through when a mod is scanned: it is an archive by its
/// name and can be opened.
pub open spec fn looked_through(path: Seq<char>, content: Seq<u8>) -> bool {
    archive_path(path) && opened(content) is Ok
}

/// The files of the archive that a scanned file holds.
pub open spec fn scanned_files(content: Seq<u8>) -> Seq<(Seq<char>, Seq<u8>)> {
    contents(opened(content).unwrap())
}

/// A scanned file cannot be followed to its end: it is looked through, and
/// archives to look into are nested in it deeper than 32 levels.
pub open spec fn unfollowed(path: Seq<char>, content: Seq<u8>) -> bool {
    looked_through(path, content) && too_deep(scanned_files(content), 32)
}

/// What scanning one file adds to the table: its own name; and, if the file
/// is looked through, every name found in it under that name's hash.
pub open spec fn scanned(added: Map<u32, Seq<char>>, path: Seq<char>, content: Seq<u8>) -> Map<
    u32,
    Seq<char>,
> {
    let own = with_own(added, path);
    if looked_through(path, content) {
        let found = nested_names(scanned_files(content), 32);
        with_paths(own, found, found.len() as int)
    } else {
        own
    }
}

/// No two different names of `paths` have one hash.
pub open spec fn hashes_apart(paths: Seq<Seq<char>>) -> bool {
    forall|j: int, k: int|
        0 <= j < paths.len() && 0 <= k < paths.len() && path_hash(#[trigger] paths[j]) == path_hash(
            #[trigger] paths[k],
        ) ==> paths[j] == paths[k]
}

/// A hash is that of one of the first `n` names.
pub open spec fn hash_among(paths: Seq<Seq<char>>, n: int, key: u32) -> bool {
    exists|i: int| 0 <= i < n && i < paths.len() && path_hash(#[trigger] paths[i]) == key
}

/// Adding names makes known the hashes that were known and those of the
/// names, and no others.
pub proof fn with_paths_keys(added: Map<u32, Seq<char>>, paths: Seq<Seq<char>>, n: int, key: u32)
    requires
        0 <= n <= paths.len(),
    ensures
        with_paths(added, paths, n).contains_key(key) <==> added.contains_key(key) || hash_among(
            paths,
            n,
            key,
        ),
    decreases n,
{
    if n > 0 {
        with_paths_keys(added, paths, n - 1, key);
        if hash_among(paths, n - 1, key) {
            let i = choose|i: int|
                0 <= i < n - 1 && i < paths.len() && path_hash(#[trigger] paths[i]) == key;
            assert(path_hash(paths[i]) == key);
        }
        if path_hash(paths[n - 1]) == key {
            assert(hash_among(paths, n, key));
        }
    }
}

/// Where no two different names have one hash, each name that was added
/// stands under its hash.
pub proof fn with_paths_value(added: Map<u32, Seq<char>>, paths: Seq<Seq<char>>, n: int, i: int)
    requires
        0 <= i < n <= paths.len(),
        hashes_apart(paths),
    ensures
        with_paths(added, paths, n).contains_key(path_hash(paths[i])),
        with_paths(added, paths, n)[path_hash(paths[i])] == paths[i],
    decreases n,
{
    if i < n - 1 {
        with_paths_value(added, paths, n - 1, i);
    }
}

/// Every name in what one of the first `upto` files gives is among the names
/// found in those files.
pub proof fn names_in_are_found(
    files: Seq<(Seq<char>, Seq<u8>)>,
    depth: nat,
    i: nat,
    upto: nat,
    name: Seq<char>,
)
    requires
        i < upto <= files.len(),
        names_in(files[i as int], depth).contains(name),
    ensures
        names_upto(files, depth, upto).contains(name),
    decreases upto,
{
    let before = names_upto(files, depth, (upto - 1) as nat);
    let last = names_in(files[upto - 1], depth);
    assert(names_upto(files, depth, upto) == before + last);
    if i == upto - 1 {
        let k = choose|k: int| 0 <= k < last.len() && last[k] == name;
        assert((before + last)[before.len() + k] == name);
    } else {
        names_in_are_found(files, depth, i, (upto - 1) as nat, name);
        let k = choose|k: int| 0 <= k < before.len() && before[k] == name;
        assert((before + last)[k] == name);
    }
}

/// The scan finds every file: the canonical name of each file of an archive
/// is among the names found in it.
pub proof fn every_file_is_found(files: Seq<(Seq<char>, Seq<u8>)>, depth: nat, i: int)
    requires
        0 <= i < files.len(),
    ensures
        nested_names(files, depth).contains(rootless_canonical(files[i].0)),
{
    assert(names_in(files[i], depth)[0] == rootless_canonical(files[i].0));
    names_in_are_found(files, depth, i as nat, files.len(), rootless_canonical(files[i].0));
}

/// The scan finds every nested file: a name found in the archive inside a
/// file that is looked into is among the names found in the archive around
/// it.
pub proof fn every_nested_file_is_found(
    files: Seq<(Seq<char>, Seq<u8>)>,
    depth: nat,
    i: int,
    name: Seq<char>,
)
    requires
        0 <= i < files.len(),
        searched(files[i], depth),
        nested_names(inner_files(files[i].1), (depth - 1) as nat).contains(name),
    ensures
        nested_names(files, depth).contains(name),
{
    let inner = nested_names(inner_files(files[i].1), (depth - 1) as nat);
    let own = seq![rootless_canonical(files[i].0)];
    assert(names_in(files[i], depth) == own + inner);
    let k = choose|k: int| 0 <= k < inner.len() && inner[k] == name;
    assert((own + inner)[1 + k] == name);
    names_in_are_found(files, depth, i as nat, files.len(), name);
}

/// After a file was scanned, every name found in it stands in the table
/// under its hash, as long as no two different names found have one hash.
pub proof fn scan_makes_names_known(
    added: Map<u32, Seq<char>>,
    path: Seq<char>,
    content: Seq<u8>,
    name: Seq<char>,
)
    requires
        looked_through(path, content),
        hashes_apart(nested_names(scanned_files(content), 32)),
        nested_names(scanned_files(content), 32).contains(name),
    ensures
        scanned(added, path, content).contains_key(path_hash(name)),
        scanned(added, path, content)[path_hash(name)] == name,
{
    let found = nested_names(scanned_files(content), 32);
    let i = choose|i: int| 0 <= i < found.len() && found[i] == name;
    with_paths_value(with_own(added, path), found, found.len() as int, i);
}

/// A scan adds the hashes of the names it finds and that of the file's own
/// path, if the path has a canonical name, and no others.
pub proof fn scan_adds_nothing_else(
    added: Map<u32, Seq<char>>,
    path: Seq<char>,
    content: Seq<u8>,
    key: u32,
)
    ensures
        scanned(added, path, content).contains_key(key) <==> {
            ||| added.contains_key(key)
            ||| canonical(path) is Some && key == path_hash(path)
            ||| looked_through(path, content) && hash_among(
                nested_names(scanned_files(content), 32),
                nested_names(scanned_files(content), 32).len() as int,
                key,
            )
        },
{
    if looked_through(path, content) {
        let found = nested_names(scanned_files(content), 32);
        with_paths_keys(with_own(added, path), found, found.len() as int, key);
    }
}

/// Whether a file of this name is read as an archive when a mod is scanned.
pub fn is_archive_path(path: &str) -> (r: bool)
    ensures
        r == archive_path(path@),
{
    match extension_of(&chars_of(path)) {
        Some(ext) => in_sarc_exts(string_of(&ext).as_str()),
        None => false,
    }
}

/// Scans one file of a mod: `path` is its path, `content` what it holds. A
/// file that is no archive by its name may be given without content. A file
/// that cannot be opened adds nothing but its own name. `ParseFormat` where
/// the file cannot be followed to its end: then, too, it adds nothing but its
/// own name.
pub fn scan_file(table: &mut PathTable, path: &str, content: &[u8]) -> (r: Result<(), ErrorKind>)
    ensures
        match r {
            Ok(_) => !unfollowed(path@, content@) && final(table).added() == scanned(
                old(table).added(),
                path@,
                content@,
            ),
            Err(e) => e == ErrorKind::ParseFormat && unfollowed(path@, content@) && final(table).added()
                == with_own(old(table).added(), path@),
        },
{
    match canon_name(path) {
        Some(name) => {
            table.record(crate::names::hash_of(path), name);
        },
        None => {},
    }
    if is_archive_path(path) {
        match open_member(content) {
            Ok(archive) => {
                archive.known();
                let found = match get_nested_names(&archive, MAX_DEPTH) {
                    Ok(f) => f,
                    Err(e) => {
                        return Err(e);
                    },
                };
                let ghost own = table.added();
                let mut i: usize = 0;
                while i < found.len()
                    invariant
                        i <= found.len(),
                        table.added() == with_paths(own, names(found@), i as int),
                    decreases found.len() - i,
                {
                    table.insert(found[i].as_str());
                    i += 1;
                }
            },
            Err(_) => {},
        }
    }
    Ok(())
}

} // verus!
