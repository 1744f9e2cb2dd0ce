//! What the unmodified game ships: the catalogue of stock file hashes, the
//! extensions of its file formats, and canonical resource names.
//!
//! All of it is data of the `botw-utils` crate, reached through the few calls
//! below.

use crate::bytes::has_magic;
use crate::paths::{stock_name, stock_name_of};
use crate::text::{chars_of, replace, replace_all, string_of};
use crate::yaz0::{check_stream, is_yaz0, well_formed, yaz0_magic};
use vstd::prelude::*;

verus! {

#[verifier::external_type_specification]
#[verifier::external_body]
pub struct ExStockHashTable(botw_utils::hashes::StockHashTable);

/// Whether a catalogue is the one of the Wii U release; if not, it is the one
/// of the Switch release.
pub uninterp spec fn catalogue_is_wiiu(t: botw_utils::hashes::StockHashTable) -> bool;

/// What `StockHashTable::is_file_modded` answers on a platform for a name
/// and a payload, a file that the table does not know counted as modified
/// (`flag_new`) or not.
pub uninterp spec fn stock_verdict(wiiu: bool, name: Seq<char>, data: Seq<u8>, flag_new: bool) -> bool;

/// Whether `botw_utils::extensions::AAMP_EXTS` lists the extension.
pub uninterp spec fn aamp_ext(ext: Seq<char>) -> bool;

/// Whether `botw_utils::extensions::BYML_EXTS` lists the extension.
pub uninterp spec fn byml_ext(ext: Seq<char>) -> bool;

/// Whether `botw_utils::extensions::SARC_EXTS` lists the extension.
pub uninterp spec fn sarc_ext(ext: Seq<char>) -> bool;

/// What `botw_utils::get_canon_name` makes of a path below a content root.
pub uninterp spec fn canonical(path: Seq<char>) -> Option<Seq<char>>;

/// Calls `StockHashTable::new`, which reads the catalogue of one platform out
/// of the data that the crate carries.
#[verifier::external_body]
fn load_catalogue(wiiu: bool) -> (t: botw_utils::hashes::StockHashTable)
    ensures
        catalogue_is_wiiu(t) == wiiu,
{
    let platform = if wiiu {
        botw_utils::hashes::Platform::WiiU
    } else {
        botw_utils::hashes::Platform::Switch
    };
    botw_utils::hashes::StockHashTable::new(&platform)
}

/// Calls `StockHashTable::is_file_modded`, with new files counted as modified
/// or not as `flag_new` says.
/// It reads the first four bytes of the payload and decompresses a Yaz0
/// payload without a check, so the payload has at least four bytes and, where
/// it begins with the Yaz0 magic, is a well-formed stream. The answer is a
/// function of the platform, the name and the payload.
#[verifier::external_body]
fn catalogue_verdict(
    t: &botw_utils::hashes::StockHashTable,
    name: &str,
    data: &[u8],
    flag_new: bool,
) -> (r: bool)
    requires
        probeable(data@),
    ensures
        r == stock_verdict(catalogue_is_wiiu(*t), name@, data@, flag_new),
{
    t.is_file_modded(name, data, flag_new)
}

/// Looks `ext` up in `botw_utils::extensions::AAMP_EXTS`.
#[verifier::external_body]
fn in_aamp_exts(ext: &str) -> (r: bool)
    ensures
        r == aamp_ext(ext@),
{
    botw_utils::extensions::AAMP_EXTS.contains(&ext)
}

/// Looks `ext` up in `botw_utils::extensions::BYML_EXTS`.
#[verifier::external_body]
fn in_byml_exts(ext: &str) -> (r: bool)
    ensures
        r == byml_ext(ext@),
{
    botw_utils::extensions::BYML_EXTS.contains(&ext)
}

/// Looks `ext` up in `botw_utils::extensions::SARC_EXTS`.
#[verifier::external_body]
pub(crate) fn in_sarc_exts(ext: &str) -> (r: bool)
    ensures
        r == sarc_ext(ext@),
{
    botw_utils::extensions::SARC_EXTS.contains(&ext)
}

/// Calls `botw_utils::get_canon_name`.
#[verifier::external_body]
pub(crate) fn canon_name(path: &str) -> (r: Option<String>)
    ensures
        match r {
            Some(name) => canonical(path@) == Some(name@),
            None => canonical(path@) is None,
        },
{
    botw_utils::get_canon_name(path)
}

/// The canonical name of a file inside an archive, as
/// `botw_utils::get_canon_name_without_root` makes it: `/` is put for every
/// `\`, and then `.` for every `.s`.
pub(crate) fn canon_name_without_root(name: &str) -> (r: String)
    ensures
        r@ == rootless_canonical(name@),
{
    let back = vec!['\\'];
    let slash = vec!['/'];
    let marked = vec!['.', 's'];
    let dot = vec!['.'];
    assert(back@ =~= seq!['\\']);
    assert(slash@ =~= seq!['/']);
    assert(marked@ =~= seq!['.', 's']);
    assert(dot@ =~= seq!['.']);
    let slashed = replace(&chars_of(name), &back, &slash);
    string_of(&replace(&slashed, &marked, &dot))
}

/// The canonical name of a file inside an archive: its name with `/` for
/// every `\` and then `.` for every `.s`.
pub open spec fn rootless_canonical(name: Seq<char>) -> Seq<char> {
    replace_all(replace_all(name, seq!['\\'], seq!['/']), seq!['.', 's'], seq!['.'])
}

/// The catalogue can be asked about this payload: it has the four bytes of a
/// magic, and if that magic is Yaz0's, it decompresses.
pub open spec fn probeable(data: Seq<u8>) -> bool {
    data.len() >= 4 && (has_magic(data, 0, yaz0_magic()) ==> well_formed(data))
}

/// Whether a file counts as modified: the catalogue says so of its stock
/// name, or the payload is nothing the catalogue could have a hash of.
pub open spec fn flagged(wiiu: bool, name: Seq<char>, data: Seq<u8>) -> bool {
    if probeable(data) {
        stock_verdict(wiiu, stock_name(name), data, true)
    } else {
        true
    }
}

/// The catalogue of stock files of one platform.
pub struct Catalogue {
    table: botw_utils::hashes::StockHashTable,
    wiiu: bool,
}

impl Catalogue {
    #[verifier::type_invariant]
    spec fn inv(self) -> bool {
        self.wiiu == catalogue_is_wiiu(self.table)
    }

    /// Whether this is the catalogue of the Wii U release.
    pub closed spec fn wiiu(&self) -> bool {
        self.wiiu
    }

    /// The catalogue that goes with a byte order: big-endian files are of the
    /// Wii U release, little-endian ones of the Switch release.
    pub fn for_byte_order(big_endian: bool) -> (r: Catalogue)
        ensures
            r.wiiu() == big_endian,
    {
        Catalogue { table: load_catalogue(big_endian), wiiu: big_endian }
    }

    /// Whether the catalogue is the Wii U one.
    pub fn is_wiiu(&self) -> (r: bool)
        ensures
            r == self.wiiu(),
    {
        self.wiiu
    }

    /// Whether the file `name` with payload `data` counts as modified.
    pub fn is_modified(&self, name: &str, data: &[u8]) -> (r: bool)
        ensures
            r == flagged(self.wiiu(), name@, data@),
    {
        proof {
            use_type_invariant(self);
        }
        if data.len() < 4 || (is_yaz0(data) && !check_stream(data)) {
            return true;
        }
        let known_as = string_of(&stock_name_of(&chars_of(name)));
        catalogue_verdict(&self.table, known_as.as_str(), data, true)
    }
}

/// Whether files with this extension hold text that can be edited: AAMP and
/// BYML files, and message tables.
pub open spec fn editable_ext(ext: Seq<char>) -> bool {
    aamp_ext(ext) || byml_ext(ext) || ext == seq!['m', 's', 'b', 't']
}

/// Whether files with the extension `ext` hold editable text.
pub fn is_editable_ext(ext: &str) -> (r: bool)
    ensures
        r == editable_ext(ext@),
{
    if in_aamp_exts(ext) || in_byml_exts(ext) {
        return true;
    }
    let chars = chars_of(ext);
    let msbt = vec!['m', 's', 'b', 't'];
    assert(msbt@ =~= seq!['m', 's', 'b', 't']);
    crate::text::seq_eq(&chars, &msbt)
}

} // verus!
