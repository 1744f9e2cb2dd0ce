//! What the program is asked to open when it starts.

use crate::paths::{launch_extension, launch_extension_of};
use crate::stock::{editable_ext, in_sarc_exts, is_editable_ext, sarc_ext};
use crate::text::{chars_of, ends_with, has_suffix, seq_eq, string_of};
use crate::tree::names;
use vstd::prelude::*;

verus! {

/// What kind of file a file given at launch is taken for.
#[derive(Debug, Clone, Copy, PartialEq, Eq, Structural)]
pub enum Route {
    /// A document that is edited as text.
    Yaml,
    /// An archive.
    Sarc,
    /// A resource size table.
    Rstb,
    /// Nothing the program opens.
    Nothing,
}

/// `"--debug"`, the one argument that names no file.
pub open spec fn debug_flag() -> Seq<char> {
    seq!['-', '-', 'd', 'e', 'b', 'u', 'g']
}

/// `"bgyml"`
pub open spec fn bgyml() -> Seq<char> {
    seq!['b', 'g', 'y', 'm', 'l']
}

/// `"sizetable"`
pub open spec fn sizetable() -> Seq<char> {
    seq!['s', 'i', 'z', 'e', 't', 'a', 'b', 'l', 'e']
}

/// The arguments without the debug flag, in order.
pub open spec fn kept(args: Seq<Seq<char>>) -> Seq<Seq<char>>
    decreases args.len(),
{
    if args.len() == 0 {
        Seq::empty()
    } else if args.last() == debug_flag() {
        kept(args.drop_last())
    } else {
        kept(args.drop_last()).push(args.last())
    }
}

/// The file to open at launch: the second of the kept arguments, the first
/// being the program's own name.
pub open spec fn launch_file(args: Seq<Seq<char>>) -> Option<Seq<char>> {
    if kept(args).len() > 1 {
        Some(kept(args)[1])
    } else {
        None
    }
}

/// What a file is taken for, by its extension with any trailing `.zs` left
/// out: a text document for the extensions of AAMP, BYML and message files
/// and for `bgyml`; an archive for the archive extensions; a size table for
/// an extension that ends in `sizetable`.
pub open spec fn routed(file: Seq<char>) -> Route {
    match launch_extension(file) {
        None => Route::Nothing,
        Some(ext) => if editable_ext(ext) || ext == bgyml() {
            Route::Yaml
        } else if sarc_ext(ext) {
            Route::Sarc
        } else if ends_with(ext, sizetable()) {
            Route::Rstb
        } else {
            Route::Nothing
        },
    }
}

fn is_debug_flag(arg: &str) -> (r: bool)
    ensures
        r == (arg@ == debug_flag()),
{
    let flag = vec!['-', '-', 'd', 'e', 'b', 'u', 'g'];
    assert(flag@ =~= debug_flag());
    seq_eq(&chars_of(arg), &flag)
}

/// The arguments that are not the debug flag.
pub fn kept_args(args: &Vec<String>) -> (r: Vec<String>)
    ensures
        names(r@) == kept(names(args@)),
{
    let mut r: Vec<String> = Vec::new();
    let mut i: usize = 0;
    assert(names(args@).take(0) =~= Seq::empty());
    assert(names(r@) =~= Seq::empty());
    while i < args.len()
        invariant
            i <= args.len(),
            names(r@) == kept(names(args@).take(i as int)),
        decreases args.len() - i,
    {
        let ghost before = names(r@);
        proof {
            let now = names(args@).take(i + 1);
            assert(now.drop_last() =~= names(args@).take(i as int));
            assert(now.last() == args@[i as int]@);
        }
        if !is_debug_flag(args[i].as_str()) {
            r.push(args[i].clone());
            assert(names(r@) =~= before.push(args@[i as int]@));
        }
        i += 1;
    }
    assert(names(args@).take(args.len() as int) =~= names(args@));
    r
}

/// Whether the program was given a file to open: there is an argument beyond
/// the program's name that is not the debug flag.
pub fn has_args(args: &Vec<String>) -> (r: bool)
    ensures
        r == launch_file(names(args@)) is Some,
{
    kept_args(args).len() > 1
}

/// What a file given at launch is taken for.
pub fn route(file: &str) -> (r: Route)
    ensures
        r == routed(file@),
{
    let ext = match launch_extension_of(&chars_of(file)) {
        Some(e) => e,
        None => {
            return Route::Nothing;
        },
    };
    let text = string_of(&ext);
    let yml = vec!['b', 'g', 'y', 'm', 'l'];
    let table = vec!['s', 'i', 'z', 'e', 't', 'a', 'b', 'l', 'e'];
    assert(yml@ =~= bgyml());
    assert(table@ =~= sizetable());
    if is_editable_ext(text.as_str()) || seq_eq(&ext, &yml) {
        Route::Yaml
    } else if in_sarc_exts(text.as_str()) {
        Route::Sarc
    } else if has_suffix(&ext, &table) {
        Route::Rstb
    } else {
        Route::Nothing
    }
}

/// The file to open at launch and what it is taken for, if the program was
/// given a file it opens.
pub fn open_args(args: &Vec<String>) -> (r: Option<(Route, String)>)
    ensures
        match r {
            Some((kind, file)) => launch_file(names(args@)) == Some(file@) && kind == routed(
                file@,
            ) && kind != Route::Nothing,
            None => match launch_file(names(args@)) {
                Some(file) => routed(file) == Route::Nothing,
                None => true,
            },
        },
{
    let kept = kept_args(args);
    if kept.len() <= 1 {
        return None;
    }
    assert(names(kept@)[1] == kept@[1]@);
    let file = kept[1].clone();
    match route(file.as_str()) {
        Route::Nothing => None,
        kind => Some((kind, file)),
    }
}

} // verus!
