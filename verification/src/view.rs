//! What an archive shows: the tree of its files and the list of those that
//! differ from the stock game.
//!
//! A nested archive, stored plain or under Yaz0, shows its own files below its
//! name, down to a fixed depth.

use crate::archive::{contents, entry_views, readable, sarc_magic, Archive};
use crate::assoc::{distinct_keys, index_of_spec, lookup, lookup_last, lookup_last_distinct, lookup_last_spec};
use crate::bytes::{has_magic, magic_at};
use crate::error::ErrorKind;
use crate::paths::{slash, slash_chars};
use crate::stock::{flagged, Catalogue};
use crate::text::{
    append_chars, chars_of, has_prefix, split, split_on, starts_with, string_of, trim_start,
    trim_start_of, views,
};
use crate::tree::{names, on_chain, paths_of_chain, tree_merge, Shape, Tree};
use crate::yaz0::{decompress_if, is_yaz0, plain, yaz0_magic};
use vstd::prelude::*;

verus! {

/// A payload is itself an archive: it begins with the archive magic, or with
/// the Yaz0 magic and has the archive magic where the compressed bytes start.
pub open spec fn nests(data: Seq<u8>) -> bool {
    has_magic(data, 0, sarc_magic()) || (has_magic(data, 0, yaz0_magic()) && has_magic(
        data,
        0x11,
        sarc_magic(),
    ))
}

/// Whether some file name of the archive begins with `/`.
pub open spec fn leading_slashes(files: Seq<(Seq<char>, Seq<u8>)>) -> bool {
    exists|i: int| 0 <= i < files.len() && starts_with((#[trigger] files[i]).0, slash())
}

/// The names by which a file is shown, directory by directory: the parts of
/// its name between slashes, leading slashes apart, the first of them with a
/// `/` before it in an archive that uses leading slashes.
pub open spec fn display_parts(name: Seq<char>, leading: bool) -> Seq<Seq<char>> {
    let parts = split(trim_start(name, slash()), slash());
    if leading {
        parts.update(0, slash() + parts[0])
    } else {
        parts
    }
}

/// The files of the nested archive in `data`.
pub open spec fn inner_files(data: Seq<u8>) -> Seq<(Seq<char>, Seq<u8>)> {
    contents(plain(data).unwrap())
}

/// The nested archive in `data` can be opened.
pub open spec fn opens(data: Seq<u8>) -> bool {
    plain(data) is Some && readable(plain(data).unwrap())
}

/// One file shows `path`: as a beginning of its own display names, or as all
/// of them followed by a chain that a file of the archive inside it shows.
pub open spec fn file_shows(
    file: (Seq<char>, Seq<u8>),
    leading: bool,
    depth: nat,
    path: Seq<Seq<char>>,
) -> bool
    decreases depth,
{
    let parts = display_parts(file.0, leading);
    if path.len() <= parts.len() {
        parts.take(path.len() as int) == path
    } else {
        let inner = inner_files(file.1);
        &&& path.take(parts.len() as int) == parts
        &&& nests(file.1)
        &&& depth > 0
        &&& opens(file.1)
        &&& exists|i: int|
            0 <= i < inner.len() && file_shows(
                #[trigger] inner[i],
                leading_slashes(inner),
                (depth - 1) as nat,
                path.skip(parts.len() as int),
            )
    }
}

/// One of the first `upto` files shows `path`.
pub open spec fn shown_upto(
    files: Seq<(Seq<char>, Seq<u8>)>,
    leading: bool,
    depth: nat,
    upto: int,
    path: Seq<Seq<char>>,
) -> bool {
    path.len() == 0 || exists|i: int|
        0 <= i < upto && i < files.len() && file_shows(#[trigger] files[i], leading, depth, path)
}

/// The archive with these files shows `path`: the chain is empty, or one of
/// the files shows it. `depth` levels of nested archives are followed: where
/// `failure` finds none, no archive is nested deeper, and the depth takes
/// nothing away.
pub open spec fn shown(files: Seq<(Seq<char>, Seq<u8>)>, depth: nat, path: Seq<Seq<char>>) -> bool {
    shown_upto(files, leading_slashes(files), depth, files.len() as int, path)
}

/// Why the nested archive in `data` cannot be opened, if it cannot:
/// `Compression` where it is compressed and does not decompress, and
/// `ParseFormat` where it cannot be read.
pub open spec fn open_failure(data: Seq<u8>) -> Option<ErrorKind> {
    match plain(data) {
        None => Some(ErrorKind::Compression),
        Some(inner) => if readable(inner) {
            None
        } else {
            Some(ErrorKind::ParseFormat)
        },
    }
}

/// The failure met in one file that is an archive: `ParseFormat` where no
/// level is left to look into it, else that of opening it, or else the first
/// one met in the archive inside it.
pub open spec fn failure_in(file: (Seq<char>, Seq<u8>), depth: nat) -> Option<ErrorKind>
    decreases depth, 0nat,
{
    if nests(file.1) && depth == 0 {
        Some(ErrorKind::ParseFormat)
    } else if nests(file.1) {
        match open_failure(file.1) {
            Some(e) => Some(e),
            None => failure_upto(
                inner_files(file.1),
                (depth - 1) as nat,
                inner_files(file.1).len(),
            ),
        }
    } else {
        None
    }
}

/// The failure met first in the first `upto` files, taken in order.
pub open spec fn failure_upto(files: Seq<(Seq<char>, Seq<u8>)>, depth: nat, upto: nat) -> Option<
    ErrorKind,
>
    decreases depth, upto + 1,
{
    if upto == 0 || upto > files.len() {
        None
    } else {
        match failure_upto(files, depth, (upto - 1) as nat) {
            Some(e) => Some(e),
            None => failure_in(files[upto - 1], depth),
        }
    }
}

/// The failure met first when the files of an archive, and of the archives
/// nested in it, are opened in order; none where all of them open and none is
/// nested deeper than `depth` levels.
pub open spec fn failure(files: Seq<(Seq<char>, Seq<u8>)>, depth: nat) -> Option<ErrorKind> {
    failure_upto(files, depth, files.len())
}

/// A failure met among the first files is the failure met first among all.
pub proof fn failure_stands(files: Seq<(Seq<char>, Seq<u8>)>, depth: nat, at: nat, n: nat)
    requires
        at <= n <= files.len(),
        failure_upto(files, depth, at) is Some,
    ensures
        failure_upto(files, depth, n) == failure_upto(files, depth, at),
    decreases n - at,
{
    if at < n {
        failure_stands(files, depth, at, (n - 1) as nat);
    }
}

/// One file accounts for `name` being listed as modified: it is called so and
/// is flagged, or a file of the archive inside it accounts for the name.
pub open spec fn file_lists(
    file: (Seq<char>, Seq<u8>),
    wiiu: bool,
    depth: nat,
    name: Seq<char>,
) -> bool
    decreases depth,
{
    let inner = inner_files(file.1);
    ||| file.0 == name && flagged(wiiu, trim_start(file.0, slash()), file.1)
    ||| nests(file.1) && depth > 0 && opens(file.1) && exists|i: int|
        0 <= i < inner.len() && file_lists(#[trigger] inner[i], wiiu, (depth - 1) as nat, name)
}

/// One of the first `upto` files accounts for `name` being listed.
pub open spec fn listed_upto(
    files: Seq<(Seq<char>, Seq<u8>)>,
    wiiu: bool,
    depth: nat,
    upto: int,
    name: Seq<char>,
) -> bool {
    exists|i: int|
        0 <= i < upto && i < files.len() && file_lists(#[trigger] files[i], wiiu, depth, name)
}

/// `name` is listed as modified in the archive with these files.
pub open spec fn listed(
    files: Seq<(Seq<char>, Seq<u8>)>,
    wiiu: bool,
    depth: nat,
    name: Seq<char>,
) -> bool {
    listed_upto(files, wiiu, depth, files.len() as int, name)
}

/// `file` is one of `files`.
pub open spec fn has_file(files: Seq<(Seq<char>, Seq<u8>)>, file: (Seq<char>, Seq<u8>)) -> bool {
    exists|j: int| 0 <= j < files.len() && #[trigger] files[j] == file
}

/// Every file of `a` is a file of `b`, where both have distinct names and
/// give every name the same payload.
pub proof fn same_files_are_members(
    a: Seq<(Seq<char>, Seq<u8>)>,
    b: Seq<(Seq<char>, Seq<u8>)>,
    i: int,
)
    requires
        distinct_keys(a),
        forall|name: Seq<char>| #[trigger] lookup_last(a, name) == lookup_last(b, name),
        0 <= i < a.len(),
    ensures
        has_file(b, a[i]),
{
    let name = a[i].0;
    lookup_last_distinct(a, name);
    index_of_spec(a, name);
    let at = crate::assoc::index_of(a, name);
    if at < 0 || at > i {
        assert(a[i].0 != name);
    }
    if at < i {
        assert(a[at].0 != a[i].0);
    }
    assert(lookup(a, name) == Some(a[i].1));
    assert(lookup_last(b, name) == Some(a[i].1));
    lookup_last_spec(b, name);
}

/// Two archives whose files have distinct names and that give every name the
/// same payload show the same, in whatever order their files stand. So an
/// archive that was packed anew shows what it showed, as long as neither it
/// nor what was packed has two files of one name.
pub proof fn same_files_show_the_same(
    a: Seq<(Seq<char>, Seq<u8>)>,
    b: Seq<(Seq<char>, Seq<u8>)>,
    depth: nat,
    path: Seq<Seq<char>>,
)
    requires
        distinct_keys(a),
        distinct_keys(b),
        forall|name: Seq<char>| #[trigger] lookup_last(a, name) == lookup_last(b, name),
    ensures
        leading_slashes(a) == leading_slashes(b),
        shown(a, depth, path) == shown(b, depth, path),
{
    assert forall|i: int| 0 <= i < a.len() implies #[trigger] has_file(b, a[i]) by {
        same_files_are_members(a, b, i);
    }
    assert forall|i: int| 0 <= i < b.len() implies #[trigger] has_file(a, b[i]) by {
        same_files_are_members(b, a, i);
    }
    if leading_slashes(a) {
        let i = choose|i: int| 0 <= i < a.len() && starts_with((#[trigger] a[i]).0, slash());
        assert(has_file(b, a[i]));
        let j = choose|j: int| 0 <= j < b.len() && #[trigger] b[j] == a[i];
        assert(starts_with(b[j].0, slash()));
    }
    if leading_slashes(b) {
        let i = choose|i: int| 0 <= i < b.len() && starts_with((#[trigger] b[i]).0, slash());
        assert(has_file(a, b[i]));
        let j = choose|j: int| 0 <= j < a.len() && #[trigger] a[j] == b[i];
        assert(starts_with(a[j].0, slash()));
    }
    let leading = leading_slashes(a);
    if shown(a, depth, path) && path.len() > 0 {
        let i = choose|i: int|
            0 <= i < a.len() && i < a.len() && file_shows(#[trigger] a[i], leading, depth, path);
        assert(has_file(b, a[i]));
        let j = choose|j: int| 0 <= j < b.len() && #[trigger] b[j] == a[i];
        assert(file_shows(b[j], leading, depth, path));
    }
    if shown(b, depth, path) && path.len() > 0 {
        let i = choose|i: int|
            0 <= i < b.len() && i < b.len() && file_shows(#[trigger] b[i], leading, depth, path);
        assert(has_file(a, b[i]));
        let j = choose|j: int| 0 <= j < a.len() && #[trigger] a[j] == b[i];
        assert(file_shows(a[j], leading, depth, path));
    }
}

/// How many levels of nested archives are looked into. An archive nested
/// deeper is not shown as a plain file: the archive around it is refused.
///
/// There is a bound because an archive is opened by a function that calls
/// itself for each level, and a compressed archive of a few bytes can hold
/// one that is larger than itself, so that the size of a file bounds no
/// depth. The archives of the game are nested two or three deep.
pub const MAX_DEPTH: usize = 32;

/// Whether `data` is itself an archive, plain or under Yaz0.
pub fn is_archive(data: &[u8]) -> (r: bool)
    ensures
        r == nests(data@),
{
    let sarc: [u8; 4] = [0x53u8, 0x41u8, 0x52u8, 0x43u8];
    assert(sarc@ =~= sarc_magic());
    magic_at(data, 0, sarc) || (is_yaz0(data) && magic_at(data, 0x11, sarc))
}

/// Whether some name among `files` begins with `/`.
pub fn uses_leading_slashes(archive: &Archive) -> (r: bool)
    ensures
        r == leading_slashes(archive.files()),
{
    let entries = archive.entries();
    let sep = slash_chars();
    let mut i: usize = 0;
    while i < entries.len()
        invariant
            i <= entries.len(),
            sep@ == slash(),
            entry_views(entries@) == archive.files(),
            forall|k: int| 0 <= k < i ==> !starts_with((#[trigger] archive.files()[k]).0, slash()),
        decreases entries.len() - i,
    {
        let name = chars_of(entries[i].name.as_str());
        assert(archive.files()[i as int].0 == name@);
        if has_prefix(&name, &sep) {
            return true;
        }
        i += 1;
    }
    false
}

/// The display names of a file.
pub fn display_parts_of(name: &str, leading: bool) -> (r: Vec<String>)
    ensures
        names(r@) == display_parts(name@, leading),
{
    let sep = slash_chars();
    let bare = trim_start_of(&chars_of(name), &sep);
    let pieces = split_on(&bare, &sep);
    let mut parts: Vec<String> = Vec::new();
    let mut i: usize = 0;
    while i < pieces.len()
        invariant
            i <= pieces.len(),
            pieces.len() >= 1,
            sep@ == slash(),
            views(pieces@) == split(trim_start(name@, slash()), slash()),
            names(parts@) == display_parts(name@, leading).take(i as int),
        decreases pieces.len() - i,
    {
        let ghost before = names(parts@);
        let part = if i == 0 && leading {
            let mut first: Vec<char> = Vec::new();
            append_chars(&mut first, &sep);
            append_chars(&mut first, &pieces[0]);
            string_of(&first)
        } else {
            string_of(&pieces[i])
        };
        proof {
            assert(views(pieces@)[i as int] == pieces@[i as int]@);
            assert(part@ == display_parts(name@, leading)[i as int]);
        }
        parts.push(part);
        proof {
            assert(names(parts@) =~= before.push(part@));
            assert(display_parts(name@, leading).take(i + 1) =~= display_parts(
                name@,
                leading,
            ).take(i as int).push(part@));
        }
        i += 1;
    }
    assert(display_parts(name@, leading).take(pieces.len() as int) =~= display_parts(
        name@,
        leading,
    ));
    parts
}

/// The names that count as modified are kept as a list without repeats, in
/// the order in which they are met: of a set of strings Verus proves too
/// little here.
///
/// Whether `list` holds the name `name`.
pub open spec fn holds(list: Seq<String>, name: Seq<char>) -> bool {
    exists|i: int| 0 <= i < list.len() && (#[trigger] list[i])@ == name
}

/// No name occurs twice in `list`.
pub open spec fn no_repeats(list: Seq<String>) -> bool {
    forall|i: int, j: int| 0 <= i < j < list.len() ==> (#[trigger] list[i])@ != (#[trigger] list[j])@
}

/// Adds `name` to `list` unless it is there.
pub fn note(list: &mut Vec<String>, name: String)
    requires
        no_repeats(old(list)@),
    ensures
        no_repeats(final(list)@),
        forall|n: Seq<char>| holds(final(list)@, n) <==> holds(old(list)@, n) || n == name@,
{
    let ghost before = list@;
    let mut i: usize = 0;
    while i < list.len()
        invariant
            i <= list.len(),
            list@ == before,
            no_repeats(before),
            forall|k: int| 0 <= k < i ==> (#[trigger] list@[k])@ != name@,
        decreases list.len() - i,
    {
        if list[i] == name {
            assert(holds(before, name@));
            return ;
        }
        i += 1;
    }
    list.push(name);
    proof {
        assert forall|n: Seq<char>| holds(list@, n) <==> holds(before, n) || n == name@ by {
            if holds(before, n) {
                let k = choose|k: int| 0 <= k < before.len() && (#[trigger] before[k])@ == n;
                assert(list@[k]@ == n);
            }
            if n == name@ {
                assert(list@[before.len() as int]@ == n);
            }
            if holds(list@, n) {
                let k = choose|k: int| 0 <= k < list@.len() && (#[trigger] list@[k])@ == n;
                if k < before.len() {
                    assert(before[k]@ == n);
                }
            }
        }
    }
}

/// Builds the presentation of an archive: the tree of its files, with the
/// files of nested archives below their names, and the names of all files,
/// nested ones included, that count as modified.
///
/// The tree shows exactly the chains of display names of the files. No name
/// occurs twice under one parent, and none twice in the list.
///
/// Fails where a nested archive cannot be opened, and with `ParseFormat`
/// where one is nested deeper than `depth` levels: with the failure that is
/// met first.
pub fn create_tree(archive: &Archive, catalogue: &Catalogue, depth: usize) -> (r: Result<
    (Tree, Vec<String>),
    ErrorKind,
>)
    ensures
        match r {
            Ok((tree, modified)) => {
                &&& failure(archive.files(), depth as nat) is None
                &&& tree.plain()
                &&& tree.shape().unique()
                &&& forall|path: Seq<Seq<char>>| #[trigger]
                    tree.shape().has_path(path) <==> shown(archive.files(), depth as nat, path)
                &&& no_repeats(modified@)
                &&& forall|name: Seq<char>| #[trigger]
                    holds(modified@, name) <==> listed(
                        archive.files(),
                        catalogue.wiiu(),
                        depth as nat,
                        name,
                    )
            },
            Err(e) => failure(archive.files(), depth as nat) == Some(e),
        },
    decreases depth,
{
    let ghost files = archive.files();
    let ghost wiiu = catalogue.wiiu();
    let ghost d = depth as nat;
    let leading = uses_leading_slashes(archive);
    let entries = archive.entries();
    let mut tree = Tree::new();
    let mut modified: Vec<String> = Vec::new();
    let mut i: usize = 0;
    assert(tree.shape().unique());
    while i < entries.len()
        invariant
            i <= entries.len(),
            files == archive.files(),
            wiiu == catalogue.wiiu(),
            d == depth as nat,
            entry_views(entries@) == files,
            leading == leading_slashes(files),
            tree.plain(),
            tree.shape().unique(),
            forall|path: Seq<Seq<char>>| #[trigger]
                tree.shape().has_path(path) <==> shown_upto(files, leading, d, i as int, path),
            no_repeats(modified@),
            forall|name: Seq<char>| #[trigger]
                holds(modified@, name) <==> listed_upto(files, wiiu, d, i as int, name),
            failure_upto(files, d, i as nat) is None,
        decreases entries.len() - i,
    {
        let entry = &entries[i];
        let ghost file = files[i as int];
        assert(file == (entry.name@, entry.data@));
        let ghost shape_before = tree.shape();
        let ghost list_before = modified@;
        // the file's own name among the modified
        let bare = string_of(&trim_start_of(&chars_of(entry.name.as_str()), &slash_chars()));
        let own = catalogue.is_modified(bare.as_str(), entry.data.as_slice());
        if own {
            note(&mut modified, entry.name.clone());
        }
        let ghost list_own = modified@;
        // what lies below the file
        let mut below = Tree::new();
        let ghost mut inner: Seq<(Seq<char>, Seq<u8>)> = Seq::empty();
        let looked_into = is_archive(entry.data.as_slice());
        if looked_into && depth == 0 {
            proof {
                assert(failure_in(file, d) == Some(ErrorKind::ParseFormat));
                assert(failure_upto(files, d, (i + 1) as nat) == Some(ErrorKind::ParseFormat));
                failure_stands(files, d, (i + 1) as nat, files.len());
            }
            return Err(ErrorKind::ParseFormat);
        }
        if looked_into {
            let opened = match decompress_if(entry.data.as_slice()) {
                Ok(bytes) => Archive::parse(bytes),
                Err(e) => Err(e),
            };
            let nested = match opened {
                Ok(a) => a,
                Err(e) => {
                    proof {
                        assert(open_failure(file.1) == Some(e));
                        assert(failure_upto(files, d, (i + 1) as nat) == Some(e));
                        failure_stands(files, d, (i + 1) as nat, files.len());
                    }
                    return Err(e);
                },
            };
            nested.known();
            proof {
                inner = nested.files();
                assert(inner == inner_files(file.1));
            }
            match create_tree(&nested, catalogue, depth - 1) {
                Ok((subtree, sublist)) => {
                    below = subtree;
                    let mut k: usize = 0;
                    while k < sublist.len()
                        invariant
                            k <= sublist.len(),
                            no_repeats(modified@),
                            forall|n: Seq<char>| #[trigger]
                                holds(modified@, n) <==> holds(list_own, n) || holds(
                                    sublist@.take(k as int),
                                    n,
                                ),
                        decreases sublist.len() - k,
                    {
                        let ghost now = modified@;
                        note(&mut modified, sublist[k].clone());
                        proof {
                            let a = sublist@.take(k as int);
                            let b = sublist@.take(k + 1);
                            assert forall|n: Seq<char>| #[trigger]
                                holds(modified@, n) <==> holds(list_own, n) || holds(b, n) by {
                                assert(holds(modified@, n) <==> holds(now, n) || n
                                    == sublist@[k as int]@);
                                if holds(a, n) {
                                    let x = choose|x: int|
                                        0 <= x < a.len() && (#[trigger] a[x])@ == n;
                                    assert(b[x]@ == n);
                                }
                                if n == sublist@[k as int]@ {
                                    assert(b[k as int]@ == n);
                                }
                                if holds(b, n) {
                                    let x = choose|x: int|
                                        0 <= x < b.len() && (#[trigger] b[x])@ == n;
                                    if x < k {
                                        assert(a[x]@ == n);
                                    }
                                }
                            }
                        }
                        k += 1;
                    }
                    assert(sublist@.take(sublist.len() as int) =~= sublist@);
                },
                Err(e) => {
                    proof {
                        assert(failure_in(file, d) == Some(e));
                        assert(failure_upto(files, d, (i + 1) as nat) == Some(e));
                        failure_stands(files, d, (i + 1) as nat, files.len());
                    }
                    return Err(e);
                },
            }
        }
        let ghost below_shape = below.shape();
        assert(failure_in(file, d) is None);
        proof {
            if looked_into {
                assert(opens(file.1));
                assert(inner == inner_files(file.1));
                assert(forall|q: Seq<Seq<char>>| #[trigger]
                    below_shape.has_path(q) <==> shown(inner, (d - 1) as nat, q));
                assert(forall|n: Seq<char>| #[trigger]
                    holds(modified@, n) <==> holds(list_own, n) || listed(
                        inner,
                        wiiu,
                        (d - 1) as nat,
                        n,
                    ));
            } else {
                assert(below_shape == Shape::empty());
                assert(modified@ == list_own);
            }
            assert(forall|n: Seq<char>| #[trigger]
                holds(list_own, n) <==> holds(list_before, n) || (own && n == file.0));
            assert(own == flagged(wiiu, trim_start(file.0, slash()), file.1));
        }
        let parts = display_parts_of(entry.name.as_str(), leading);
        let branch = Tree::chain(&parts, below);
        tree_merge(&mut tree, &branch);
        proof {
            let shown_parts = display_parts(file.0, leading);
            unique_chain(shown_parts, below_shape);
            assert forall|path: Seq<Seq<char>>| #[trigger]
                tree.shape().has_path(path) <==> shown_upto(
                    files,
                    leading,
                    d,
                    i + 1,
                    path,
                ) by {
                paths_of_chain(shown_parts, below_shape, path);
                assert(tree.shape().has_path(path) <==> shape_before.has_path(path)
                    || branch.shape().has_path(path));
                assert(shape_before.has_path(path) <==> shown_upto(
                    files,
                    leading,
                    d,
                    i as int,
                    path,
                ));
                if path.len() > 0 {
                    assert(on_chain(shown_parts, below_shape, path) <==> file_shows(
                        file,
                        leading,
                        d,
                        path,
                    )) by {
                        if path.len() > shown_parts.len() {
                            let rest = path.skip(shown_parts.len() as int);
                            file_shows_nested(file, leading, d, path);
                            if looked_into {
                                assert(below_shape.has_path(rest) <==> shown(
                                    inner,
                                    (d - 1) as nat,
                                    rest,
                                ));
                            } else {
                                assert(!below_shape.has_path(rest));
                            }
                        }
                    }
                    if shown_upto(files, leading, d, i + 1, path) {
                        let x = choose|x: int|
                            0 <= x < i + 1 && x < files.len() && file_shows(
                                #[trigger] files[x],
                                leading,
                                d,
                                path,
                            );
                        if x < i {
                            assert(shown_upto(files, leading, d, i as int, path));
                        }
                    }
                    if shown_upto(files, leading, d, i as int, path) {
                        let x = choose|x: int|
                            0 <= x < i && x < files.len() && file_shows(
                                #[trigger] files[x],
                                leading,
                                d,
                                path,
                            );
                        assert(file_shows(files[x], leading, d, path));
                    }
                    if file_shows(file, leading, d, path) {
                        assert(file_shows(files[i as int], leading, d, path));
                    }
                }
            }
            assert forall|name: Seq<char>| #[trigger]
                holds(modified@, name) <==> listed_upto(files, wiiu, d, i + 1, name) by {
                file_lists_nested(file, wiiu, d, name);
                assert(holds(list_own, name) <==> holds(list_before, name) || (own && name
                    == file.0));
                assert(holds(list_before, name) <==> listed_upto(files, wiiu, d, i as int, name));
                if looked_into {
                    assert(holds(modified@, name) <==> holds(list_own, name) || listed(
                        inner,
                        wiiu,
                        (d - 1) as nat,
                        name,
                    ));
                } else {
                    assert(modified@ == list_own);
                }
                if listed_upto(files, wiiu, d, i + 1, name) {
                    let x = choose|x: int|
                        0 <= x < i + 1 && x < files.len() && file_lists(
                            #[trigger] files[x],
                            wiiu,
                            d,
                            name,
                        );
                    if x < i {
                        assert(listed_upto(files, wiiu, d, i as int, name));
                    }
                }
                if listed_upto(files, wiiu, d, i as int, name) {
                    let x = choose|x: int|
                        0 <= x < i && x < files.len() && file_lists(
                            #[trigger] files[x],
                            wiiu,
                            d,
                            name,
                        );
                    assert(file_lists(files[x], wiiu, d, name));
                }
                if file_lists(file, wiiu, d, name) {
                    assert(file_lists(files[i as int], wiiu, d, name));
                }
            }
        }
        i += 1;
    }
    Ok((tree, modified))
}

/// What a file shows beyond its own display names is what the archive inside
/// it shows.
pub proof fn file_shows_nested(
    file: (Seq<char>, Seq<u8>),
    leading: bool,
    depth: nat,
    path: Seq<Seq<char>>,
)
    requires
        path.len() > display_parts(file.0, leading).len(),
    ensures
        file_shows(file, leading, depth, path) <==> {
            let parts = display_parts(file.0, leading);
            &&& path.take(parts.len() as int) == parts
            &&& nests(file.1)
            &&& depth > 0
            &&& opens(file.1)
            &&& shown(inner_files(file.1), (depth - 1) as nat, path.skip(parts.len() as int))
        },
{
    let parts = display_parts(file.0, leading);
    let inner = inner_files(file.1);
    let rest = path.skip(parts.len() as int);
    let below = (depth - 1) as nat;
    let lead = leading_slashes(inner);
    if file_shows(file, leading, depth, path) {
        let i = choose|i: int|
            0 <= i < inner.len() && file_shows(#[trigger] inner[i], lead, below, rest);
        assert(shown_upto(inner, lead, below, inner.len() as int, rest));
    }
    if shown(inner, below, rest) {
        let i = choose|i: int|
            0 <= i < inner.len() && i < inner.len() && file_shows(
                #[trigger] inner[i],
                lead,
                below,
                rest,
            );
        assert(file_shows(inner[i], lead, below, rest));
    }
}

/// A file accounts for a name by being called so and flagged, or by the
/// archive inside it listing the name.
pub proof fn file_lists_nested(file: (Seq<char>, Seq<u8>), wiiu: bool, depth: nat, name: Seq<char>)
    ensures
        file_lists(file, wiiu, depth, name) <==> (file.0 == name && flagged(
            wiiu,
            trim_start(file.0, slash()),
            file.1,
        )) || (nests(file.1) && depth > 0 && opens(file.1) && listed(
            inner_files(file.1),
            wiiu,
            (depth - 1) as nat,
            name,
        )),
{
    let inner = inner_files(file.1);
    let below = (depth - 1) as nat;
    if nests(file.1) && depth > 0 && opens(file.1) {
        if exists|i: int|
            0 <= i < inner.len() && file_lists(#[trigger] inner[i], wiiu, below, name) {
            let i = choose|i: int|
                0 <= i < inner.len() && file_lists(#[trigger] inner[i], wiiu, below, name);
            assert(listed_upto(inner, wiiu, below, inner.len() as int, name));
        }
        if listed(inner, wiiu, below, name) {
            let i = choose|i: int|
                0 <= i < inner.len() && i < inner.len() && file_lists(
                    #[trigger] inner[i],
                    wiiu,
                    below,
                    name,
                );
            assert(file_lists(inner[i], wiiu, below, name));
        }
    }
}

/// A chain of names above a tree with unique names has unique names.
pub proof fn unique_chain(parts: Seq<Seq<char>>, leaf: Shape)
    requires
        leaf.unique(),
    ensures
        Shape::chain(parts, leaf).unique(),
    decreases parts.len(),
{
    if parts.len() > 0 {
        unique_chain(parts.drop_first(), leaf);
        let c = Shape::chain(parts, leaf);
        assert(c.nodes[0].1 == Shape::chain(parts.drop_first(), leaf));
        assert(distinct_keys(c.nodes));
        assert forall|i: int| 0 <= i < c.nodes.len() implies (#[trigger] c.nodes[i]).1.unique() by {
            assert(i == 0);
        }
    }
}

} // verus!
