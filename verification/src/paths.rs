//! Names of files and locations inside nested archives.
//!
//! A location names a file inside the open archive: entry names joined by
//! `//`, one for each archive on the way down. Entry names themselves use `/`
//! between directories.

use crate::text::{
    append_chars, chars_of, last_index, last_index_of, replace, replace_all, seq_eq,
    slice_of, split, split_on, trim_end, trim_end_of, trim_start, trim_start_of, views,
};
use vstd::prelude::*;

verus! {

/// `"/"`
pub open spec fn slash() -> Seq<char> {
    seq!['/']
}

/// `"//"`, which separates the levels of a location.
pub open spec fn level_sep() -> Seq<char> {
    seq!['/', '/']
}

/// `"\\"`
pub open spec fn backslash() -> Seq<char> {
    seq!['\\']
}

/// `"SARC:"`, the prefix some commands put before a location.
pub open spec fn sarc_prefix() -> Seq<char> {
    seq!['S', 'A', 'R', 'C', ':']
}

/// `"sarc"`
pub open spec fn sarc_ext() -> Seq<char> {
    seq!['s', 'a', 'r', 'c']
}

/// `".zs"`
pub open spec fn zs_suffix() -> Seq<char> {
    seq!['.', 'z', 's']
}

/// What follows the last `/` of `path`; all of `path` where it has none.
pub open spec fn file_name(path: Seq<char>) -> Seq<char> {
    path.subrange(last_index_of(path, '/') + 1, path.len() as int)
}

/// What precedes the last `/` of `path`; empty where it has none.
pub open spec fn parent_dir(path: Seq<char>) -> Seq<char> {
    let i = last_index_of(path, '/');
    if i < 0 {
        Seq::empty()
    } else {
        path.subrange(0, i)
    }
}

/// The extension of `path`, without its dot: what follows the last `.` of the
/// file name, if that dot is not the name's first character.
pub open spec fn extension(path: Seq<char>) -> Option<Seq<char>> {
    let name = file_name(path);
    let i = last_index_of(name, '.');
    if i <= 0 {
        None
    } else {
        Some(name.subrange(i + 1, name.len() as int))
    }
}

/// An extension marks compressed content when it starts with `s` and is not
/// `sarc`.
pub open spec fn compressed_ext(ext: Seq<char>) -> bool {
    ext.len() > 0 && ext[0] == 's' && ext != sarc_ext()
}

/// Whether a file of this name is stored compressed.
pub open spec fn compresses(path: Seq<char>) -> bool {
    match extension(path) {
        Some(ext) => compressed_ext(ext),
        None => false,
    }
}

/// A location as the engine reads it: without trailing `/` and without the
/// `SARC:` prefix.
pub open spec fn clean_location(raw: Seq<char>) -> Seq<char> {
    trim_start(trim_end(raw, slash()), sarc_prefix())
}

/// The entry names of a location, outermost first.
pub open spec fn levels(location: Seq<char>) -> Seq<Seq<char>> {
    split(location, level_sep())
}

/// The name a renamed entry gets: `new_name` in the directory of `name`, with
/// `/` for every `\`.
pub open spec fn rename_target(name: Seq<char>, new_name: Seq<char>) -> Seq<char> {
    let dir = parent_dir(name);
    let joined = if dir.len() == 0 {
        new_name
    } else {
        dir + slash() + new_name
    };
    replace_all(joined, backslash(), slash())
}

/// The name under which the stock catalogue knows an entry: the entry's name
/// with a leading `s` of its extension dropped.
pub open spec fn stock_name(name: Seq<char>) -> Seq<char> {
    match extension(name) {
        Some(ext) => if ext.len() > 0 && ext[0] == 's' {
            name.subrange(0, name.len() - ext.len()) + ext.subrange(1, ext.len() as int)
        } else {
            name
        },
        None => name,
    }
}

/// The extension by which a file given at launch is routed: that of its name
/// without any trailing `.zs`.
pub open spec fn launch_extension(file: Seq<char>) -> Option<Seq<char>> {
    extension(trim_end(file, zs_suffix()))
}

/// The characters of `"/"`.
pub fn slash_chars() -> (v: Vec<char>)
    ensures
        v@ == slash(),
{
    let v = vec!['/'];
    assert(v@ =~= slash());
    v
}

/// The characters of `"//"`.
pub fn level_sep_chars() -> (v: Vec<char>)
    ensures
        v@ == level_sep(),
{
    let v = vec!['/', '/'];
    assert(v@ =~= level_sep());
    v
}

/// The characters of `"\\"`.
pub fn backslash_chars() -> (v: Vec<char>)
    ensures
        v@ == backslash(),
{
    let v = vec!['\\'];
    assert(v@ =~= backslash());
    v
}

fn sarc_prefix_chars() -> (v: Vec<char>)
    ensures
        v@ == sarc_prefix(),
{
    let v = vec!['S', 'A', 'R', 'C', ':'];
    assert(v@ =~= sarc_prefix());
    v
}

fn sarc_ext_chars() -> (v: Vec<char>)
    ensures
        v@ == sarc_ext(),
{
    let v = vec!['s', 'a', 'r', 'c'];
    assert(v@ =~= sarc_ext());
    v
}

fn zs_suffix_chars() -> (v: Vec<char>)
    ensures
        v@ == zs_suffix(),
{
    let v = vec!['.', 'z', 's'];
    assert(v@ =~= zs_suffix());
    v
}

/// The name of a file without its directories.
pub fn file_name_of(path: &Vec<char>) -> (r: Vec<char>)
    ensures
        r@ == file_name(path@),
{
    match last_index(path, '/') {
        Some(i) => slice_of(path, i + 1, path.len()),
        None => slice_of(path, 0, path.len()),
    }
}

/// The directory a file is in.
pub fn parent_dir_of(path: &Vec<char>) -> (r: Vec<char>)
    ensures
        r@ == parent_dir(path@),
{
    match last_index(path, '/') {
        Some(i) => slice_of(path, 0, i),
        None => Vec::new(),
    }
}

/// The extension of a file name, without its dot.
pub fn extension_of(path: &Vec<char>) -> (r: Option<Vec<char>>)
    ensures
        match r {
            Some(ext) => extension(path@) == Some(ext@),
            None => extension(path@) is None,
        },
{
    let name = file_name_of(path);
    match last_index(&name, '.') {
        Some(i) => if i == 0 {
            None
        } else {
            Some(slice_of(&name, i + 1, name.len()))
        },
        None => None,
    }
}

/// Whether an extension marks compressed content.
pub fn is_compressed_ext(ext: &Vec<char>) -> (r: bool)
    ensures
        r == compressed_ext(ext@),
{
    let sarc = sarc_ext_chars();
    ext.len() > 0 && ext[0] == 's' && !seq_eq(ext, &sarc)
}

/// Whether a file of this name is stored compressed.
pub fn compresses_name(path: &Vec<char>) -> (r: bool)
    ensures
        r == compresses(path@),
{
    match extension_of(path) {
        Some(ext) => is_compressed_ext(&ext),
        None => false,
    }
}

/// Whether content saved under the name `file` is Yaz0-compressed: its
/// extension starts with `s` and is not `sarc`.
pub fn should_compress(file: &str) -> (r: bool)
    ensures
        r == compresses(file@),
        r <==> (extension(file@) matches Some(ext) && ext.len() > 0 && ext[0] == 's' && ext
            != sarc_ext()),
{
    let path = chars_of(file);
    compresses_name(&path)
}

/// A location without trailing slashes and without the `SARC:` prefix.
pub fn clean_location_of(raw: &Vec<char>) -> (r: Vec<char>)
    ensures
        r@ == clean_location(raw@),
{
    let no_tail = trim_end_of(raw, &slash_chars());
    trim_start_of(&no_tail, &sarc_prefix_chars())
}

/// The levels of an already cleaned location.
pub fn levels_of(location: &Vec<char>) -> (r: Vec<Vec<char>>)
    ensures
        views(r@) == levels(location@),
        r.len() >= 1,
{
    split_on(location, &level_sep_chars())
}

/// The name a renamed entry gets.
pub fn rename_target_of(name: &Vec<char>, new_name: &Vec<char>) -> (r: Vec<char>)
    ensures
        r@ == rename_target(name@, new_name@),
{
    let mut joined = parent_dir_of(name);
    if joined.len() == 0 {
        assert(joined@ + new_name@ =~= new_name@);
    } else {
        append_chars(&mut joined, &slash_chars());
    }
    append_chars(&mut joined, new_name);
    replace(&joined, &backslash_chars(), &slash_chars())
}

/// The name under which the stock catalogue knows an entry.
pub fn stock_name_of(name: &Vec<char>) -> (r: Vec<char>)
    ensures
        r@ == stock_name(name@),
{
    match extension_of(name) {
        Some(ext) => {
            if ext.len() > 0 && ext[0] == 's' {
                proof {
                    last_index_bounds(name@, '/');
                    last_index_bounds(file_name(name@), '.');
                }
                let mut r = slice_of(name, 0, name.len() - ext.len());
                let rest = slice_of(&ext, 1, ext.len());
                append_chars(&mut r, &rest);
                r
            } else {
                slice_copy(name)
            }
        },
        None => slice_copy(name),
    }
}

/// A copy of `s`.
pub fn slice_copy(s: &Vec<char>) -> (r: Vec<char>)
    ensures
        r@ == s@,
{
    let r = slice_of(s, 0, s.len());
    assert(s@.subrange(0, s.len() as int) =~= s@);
    r
}

/// The extension by which a file given at launch is routed.
pub fn launch_extension_of(file: &Vec<char>) -> (r: Option<Vec<char>>)
    ensures
        match r {
            Some(ext) => launch_extension(file@) == Some(ext@),
            None => launch_extension(file@) is None,
        },
{
    let bare = trim_end_of(file, &zs_suffix_chars());
    extension_of(&bare)
}

/// The last position of `c` is a position of `s` that holds `c`, and no later
/// position does.
pub proof fn last_index_bounds(s: Seq<char>, c: char)
    ensures
        -1 <= last_index_of(s, c) < s.len(),
        last_index_of(s, c) >= 0 ==> s[last_index_of(s, c)] == c,
        forall|k: int| last_index_of(s, c) < k < s.len() ==> s[k] != c,
    decreases s.len(),
{
    if s.len() > 0 && s.last() != c {
        last_index_bounds(s.drop_last(), c);
        assert forall|k: int| last_index_of(s, c) < k < s.len() implies s[k] != c by {
            if k < s.len() - 1 {
                assert(s.drop_last()[k] == s[k]);
            }
        }
    }
}

} // verus!
