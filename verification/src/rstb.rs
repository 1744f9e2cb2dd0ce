//! The resource size table: opening it, looking at it, changing it, writing
//! it.
//!
//! The table itself is the `rstb` crate's. It keeps an insertion-ordered map
//! from path hashes to sizes and one from paths to sizes, and, where the file
//! had a header, the entry count read from it, which it counts up and down
//! unchecked as entries are replaced and removed. This module mirrors that
//! count, so that no operation is asked for that would push it out of range.

use crate::assoc::{index_of_spec, lookup, swap_removed, upsert};
use crate::bytes::{is_utf8, has_magic, magic_at, read_u32, u32_at, Endian};
use crate::error::ErrorKind;
use crate::names::{hash_of, path_hash, PathTable};
use crate::paths::{compresses, extension, extension_of};
use crate::text::{chars_of, decimal, decimal_of, string_of};
use crate::yaz0::{decompress_if, is_yaz0, plain, yaz0_magic};
use vstd::prelude::*;
use vstd::slice::slice_subrange;

verus! {

#[verifier::external_type_specification]
#[verifier::external_body]
pub struct ExResourceSizeTable(::rstb::ResourceSizeTable);

/// The entries of a table's hash map, in order.
pub uninterp spec fn table_hashes(t: ::rstb::ResourceSizeTable) -> Seq<(u32, u32)>;

/// The entries of a table's name map, in order.
pub uninterp spec fn table_names(t: ::rstb::ResourceSizeTable) -> Seq<(Seq<char>, u32)>;

/// The entry count a table keeps from its file's header, if the file had one.
pub uninterp spec fn table_count(t: ::rstb::ResourceSizeTable) -> Option<int>;

/// The two maps that `ResourceSizeTable::from_binary` reads out of a buffer in
/// the given byte order, if it reads any.
pub uninterp spec fn parsed(data: Seq<u8>, endian: Endian) -> Option<
    (Seq<(u32, u32)>, Seq<(Seq<char>, u32)>),
>;

/// The bytes that `ResourceSizeTable::to_binary` writes for two maps.
pub uninterp spec fn binary(
    hashes: Seq<(u32, u32)>,
    names: Seq<(Seq<char>, u32)>,
    endian: Endian,
    compressed: bool,
) -> Option<Seq<u8>>;

/// The text that `ResourceSizeTable::to_text` writes for two maps.
pub uninterp spec fn dump(hashes: Seq<(u32, u32)>, names: Seq<(Seq<char>, u32)>) -> Option<
    Seq<char>,
>;

/// What `rstb::calc::calculate_size_with_ext` answers for a payload, an
/// extension and a byte order, with estimates for the complex kinds allowed
/// (`guess`) or not.
pub uninterp spec fn size_hint(data: Seq<u8>, ext: Seq<char>, endian: Endian, guess: bool) -> Option<
    u32,
>;

/// `"RSTB"`
pub open spec fn rstb_magic() -> Seq<u8> {
    seq![0x52u8, 0x53u8, 0x54u8, 0x42u8]
}

/// The entry count in the header of a table file, if the file has a header:
/// the magic and two 32-bit counts.
pub open spec fn header_count(data: Seq<u8>, endian: Endian) -> Option<int> {
    if has_magic(data, 0, rstb_magic()) && data.len() >= 12 {
        Some(u32_at(data, 4, endian))
    } else {
        None
    }
}

/// Where the name of name entry `i` begins: behind the header and the hash
/// entries of eight bytes each, each name entry taking 132 bytes.
pub open spec fn name_at(data: Seq<u8>, endian: Endian, i: int) -> int {
    12 + 8 * u32_at(data, 4, endian) + 132 * i
}

/// The parser can be given this buffer: it has the four bytes of a magic, is
/// not compressed, and every name of 128 bytes that it holds in full is valid
/// UTF-8. The parser decodes names without a check of its own.
pub open spec fn parseable(data: Seq<u8>, endian: Endian) -> bool {
    &&& data.len() >= 4
    &&& !has_magic(data, 0, yaz0_magic())
    &&& header_count(data, endian) is Some ==> forall|i: int|
        0 <= i < u32_at(data, 8, endian) && name_at(data, endian, i) + 128 <= data.len()
            ==> vstd::utf8::valid_utf8(
            #[trigger] data.subrange(name_at(data, endian, i), name_at(data, endian, i) + 128),
        )
}

/// Calls `ResourceSizeTable::from_binary`. It reads the magic out of the first
/// four bytes, decompresses Yaz0 content and decodes names without checks, so
/// the buffer is one that `parseable` admits. The table keeps the header's
/// entry count where there is a header.
#[verifier::external_body]
fn table_parse(data: &[u8], endian: Endian) -> (r: Option<::rstb::ResourceSizeTable>)
    requires
        parseable(data@, endian),
    ensures
        match r {
            Some(t) => parsed(data@, endian) == Some((table_hashes(t), table_names(t)))
                && table_count(t) == header_count(data@, endian),
            None => parsed(data@, endian) is None,
        },
{
    let order = match endian {
        Endian::Big => ::rstb::Endian::Big,
        Endian::Little => ::rstb::Endian::Little,
    };
    ::rstb::ResourceSizeTable::from_binary(data, order).ok()
}

/// Calls `ResourceSizeTable::is_in_table`: the hash map has the path's hash,
/// or the name map has the path.
#[verifier::external_body]
fn table_contains(t: &::rstb::ResourceSizeTable, path: &str) -> (r: bool)
    ensures
        r == holds_path(table_hashes(*t), table_names(*t), path@),
{
    t.is_in_table(path)
}

/// Calls `ResourceSizeTable::set_size`: the hash map gets the size under the
/// path's hash, in the old place of the hash if it was there, else last. Where
/// the hash was there, a header count is counted up, which must not be at its
/// maximum.
#[verifier::external_body]
fn table_set(t: &mut ::rstb::ResourceSizeTable, path: &str, size: u32)
    requires
        table_count(*old(t)) matches Some(c) ==> c < u32::MAX,
    ensures
        table_hashes(*final(t)) == upsert(table_hashes(*old(t)), path_hash(path@), size),
        table_names(*final(t)) == table_names(*old(t)),
        table_count(*final(t)) == match table_count(*old(t)) {
            Some(c) => if lookup(table_hashes(*old(t)), path_hash(path@)) is Some {
                Some(c + 1)
            } else {
                Some(c)
            },
            None => None,
        },
{
    t.set_size(path, size);
}

/// Calls `ResourceSizeTable::delete_entry`: the path's hash leaves the hash
/// map if it is there, else the path leaves the name map if it is there; the
/// last entry of that map takes the place. Where something left, a header
/// count is counted down, which must not be zero.
#[verifier::external_body]
fn table_remove(t: &mut ::rstb::ResourceSizeTable, path: &str)
    requires
        table_count(*old(t)) matches Some(c) ==> c >= 1,
    ensures
        after_removal(
            table_hashes(*old(t)),
            table_names(*old(t)),
            table_count(*old(t)),
            path@,
        ) == (table_hashes(*final(t)), table_names(*final(t)), table_count(*final(t))),
{
    t.delete_entry(path);
}

/// Copies out what `ResourceSizeTable::hash_entries` iterates over.
#[verifier::external_body]
fn table_hash_entries(t: &::rstb::ResourceSizeTable) -> (r: Vec<(u32, u32)>)
    ensures
        r@ == table_hashes(*t),
{
    t.hash_entries().map(|(k, v)| (*k, *v)).collect()
}

/// Copies out what `ResourceSizeTable::name_entries` iterates over.
#[verifier::external_body]
fn table_name_entries(t: &::rstb::ResourceSizeTable) -> (r: Vec<(String, u32)>)
    ensures
        named_sizes(r@) == table_names(*t),
{
    t.name_entries().map(|(k, v)| (k.clone(), *v)).collect()
}

/// Calls `ResourceSizeTable::to_binary`.
#[verifier::external_body]
fn table_binary(t: &::rstb::ResourceSizeTable, endian: Endian, compressed: bool) -> (r: Option<
    Vec<u8>,
>)
    ensures
        match r {
            Some(v) => binary(table_hashes(*t), table_names(*t), endian, compressed) == Some(v@),
            None => binary(table_hashes(*t), table_names(*t), endian, compressed) is None,
        },
{
    let order = match endian {
        Endian::Big => ::rstb::Endian::Big,
        Endian::Little => ::rstb::Endian::Little,
    };
    t.to_binary(order, compressed).ok()
}

/// Calls `ResourceSizeTable::to_text`.
#[verifier::external_body]
fn table_text(t: &::rstb::ResourceSizeTable) -> (r: Option<String>)
    ensures
        match r {
            Some(s) => dump(table_hashes(*t), table_names(*t)) == Some(s@),
            None => dump(table_hashes(*t), table_names(*t)) is None,
        },
{
    t.to_text().ok()
}

/// Calls `rstb::calc::calculate_size_with_ext`, with estimates allowed or
/// not as `guess` says. It reads the magic out of the first four bytes and,
/// behind a Yaz0 magic, the size out of the next four, without checks.
#[verifier::external_body]
fn calc_hint(data: &[u8], ext: &str, endian: Endian, guess: bool) -> (r: Option<u32>)
    requires
        measurable(data@),
    ensures
        r == size_hint(data@, ext@, endian, guess),
{
    let order = match endian {
        Endian::Big => ::rstb::Endian::Big,
        Endian::Little => ::rstb::Endian::Little,
    };
    ::rstb::calc::calculate_size_with_ext(data, ext, order, guess)
}

/// The views of name entries.
pub open spec fn named_sizes(entries: Seq<(String, u32)>) -> Seq<(Seq<char>, u32)> {
    Seq::new(entries.len(), |i: int| (entries[i].0@, entries[i].1))
}

/// The table has an entry for `path`: under its hash, or under itself.
pub open spec fn holds_path(
    hashes: Seq<(u32, u32)>,
    names: Seq<(Seq<char>, u32)>,
    path: Seq<char>,
) -> bool {
    lookup(hashes, path_hash(path)) is Some || lookup(names, path) is Some
}

/// The two maps and the header count after the entry for `path` was removed:
/// the entry under its hash if there is one, else the entry under itself.
pub open spec fn after_removal(
    hashes: Seq<(u32, u32)>,
    names: Seq<(Seq<char>, u32)>,
    count: Option<int>,
    path: Seq<char>,
) -> (Seq<(u32, u32)>, Seq<(Seq<char>, u32)>, Option<int>) {
    let less = match count {
        Some(c) => Some(c - 1),
        None => None,
    };
    if lookup(hashes, path_hash(path)) is Some {
        (swap_removed(hashes, path_hash(path)), names, less)
    } else if lookup(names, path) is Some {
        (hashes, swap_removed(names, path), less)
    } else {
        (hashes, names, count)
    }
}

/// The size calculator can be given this content: it has the four bytes of a
/// magic and, behind a Yaz0 magic, the four bytes of the size.
pub open spec fn measurable(data: Seq<u8>) -> bool {
    data.len() >= 4 && (has_magic(data, 0, yaz0_magic()) ==> data.len() >= 8)
}

/// The four paths that every genuine table has an entry for at least one of.
pub open spec fn probes() -> Seq<Seq<char>> {
    seq![
        "EventFlow/PictureMemory.bfevfl"@,
        "Camera/Demo648_0/C04-0.bcamanim"@,
        "Effect/FldObj_ScaffoldIronParts_A_01.esetlist"@,
        "Physics/TeraMeshRigidBody/MainField/9-8.hktmrb"@,
    ]
}

/// One of the probe paths has an entry.
pub open spec fn probed(hashes: Seq<(u32, u32)>, names: Seq<(Seq<char>, u32)>) -> bool {
    exists|i: int| 0 <= i < probes().len() && holds_path(hashes, names, #[trigger] probes()[i])
}

/// `data`, read in the byte order `endian`, is a genuine table: the parser
/// can be given it, reads it, and finds one of the probe paths in it.
pub open spec fn genuine(data: Seq<u8>, endian: Endian) -> bool {
    &&& parseable(data, endian)
    &&& parsed(data, endian) matches Some(maps)
    &&& probed(maps.0, maps.1)
}

/// The byte order in which a file is a genuine table: big-endian is tried
/// first.
pub open spec fn detected(data: Seq<u8>) -> Option<Endian> {
    if genuine(data, Endian::Big) {
        Some(Endian::Big)
    } else if genuine(data, Endian::Little) {
        Some(Endian::Little)
    } else {
        None
    }
}

/// The key under which an entry of the hash map is shown: the path the name
/// table has for the hash, or else the hash as a decimal number.
pub open spec fn shown_key(names: PathTable, hash: u32) -> Seq<char> {
    match names.resolve(hash) {
        Some(path) => path,
        None => decimal(hash as nat),
    }
}

/// What is shown of a table: its hash entries under their keys, then its name
/// entries under their names, each with its size.
pub open spec fn rendered(
    hashes: Seq<(u32, u32)>,
    by_name: Seq<(Seq<char>, u32)>,
    names: PathTable,
) -> Seq<(Seq<char>, u32)> {
    Seq::new(hashes.len(), |i: int| (shown_key(names, hashes[i].0), hashes[i].1)) + by_name
}

/// A path that has been added to the name table is the key under which the
/// entry of its hash is shown, not the hash's number.
pub proof fn added_path_is_shown(
    hashes: Seq<(u32, u32)>,
    by_name: Seq<(Seq<char>, u32)>,
    names: PathTable,
    path: Seq<char>,
    i: int,
)
    requires
        names.added().contains_key(path_hash(path)),
        names.added()[path_hash(path)] == path,
        0 <= i < hashes.len(),
        hashes[i].0 == path_hash(path),
    ensures
        rendered(hashes, by_name, names)[i] == (path, hashes[i].1),
{
}

/// Whether the parser can be given `data`.
pub fn check_parseable(data: &[u8], endian: Endian) -> (r: bool)
    ensures
        r == parseable(data@, endian),
{
    if data.len() < 4 || is_yaz0(data) {
        return false;
    }
    let magic: [u8; 4] = [0x52u8, 0x53u8, 0x54u8, 0x42u8];
    assert(magic@ =~= rstb_magic());
    if !magic_at(data, 0, magic) || data.len() < 12 {
        return true;
    }
    let len: u64 = data.len() as u64;
    let hashes: u64 = read_u32(data, 4, endian) as u64;
    let count: u64 = read_u32(data, 8, endian) as u64;
    let mut i: u64 = 0;
    while i < count && 12 + 8 * hashes + 132 * i + 128 <= len
        invariant
            i <= count,
            len == data.len(),
            header_count(data@, endian) is Some,
            hashes == u32_at(data@, 4, endian),
            count == u32_at(data@, 8, endian),
            forall|k: int|
                0 <= k < i ==> vstd::utf8::valid_utf8(
                    #[trigger] data@.subrange(
                        name_at(data@, endian, k),
                        name_at(data@, endian, k) + 128,
                    ),
                ),
        decreases count - i,
    {
        let at: usize = (12 + 8 * hashes + 132 * i) as usize;
        let block = slice_subrange(data, at, at + 128);
        if !is_utf8(block) {
            assert(!vstd::utf8::valid_utf8(
                data@.subrange(
                    name_at(data@, endian, i as int),
                    name_at(data@, endian, i as int) + 128,
                ),
            ));
            return false;
        }
        i += 1;
    }
    proof {
        assert forall|k: int|
            0 <= k < count && name_at(data@, endian, k) + 128 <= data.len()
                implies vstd::utf8::valid_utf8(
            #[trigger] data@.subrange(name_at(data@, endian, k), name_at(data@, endian, k) + 128),
        ) by {
            assert(k < i);
        }
    }
    true
}

/// The size hint for content with the extension `ext` on the platform of the
/// given byte order: what the calculator finds, and nothing where it finds
/// nothing or cannot be given the content.
pub fn calc_size_with_ext(data: &[u8], ext: &str, endian: Endian) -> (r: Option<u32>)
    ensures
        r == hint(data@, ext@, endian),
{
    if data.len() < 4 || (is_yaz0(data) && data.len() < 8) {
        return None;
    }
    calc_hint(data, ext, endian, true)
}

/// The size hint for content with an extension.
pub open spec fn hint(data: Seq<u8>, ext: Seq<char>, endian: Endian) -> Option<u32> {
    if measurable(data) {
        size_hint(data, ext, endian, true)
    } else {
        None
    }
}

/// The size hint for a file called `file`, or 0 where there is none: for a
/// name without extension, and for content the calculator has no answer for.
pub open spec fn file_hint(file: Seq<char>, data: Seq<u8>, endian: Endian) -> u32 {
    match extension(file) {
        None => 0,
        Some(ext) => match hint(data, ext, endian) {
            Some(size) => size,
            None => 0,
        },
    }
}

/// The open resource size table.
pub struct Rstb {
    table: ::rstb::ResourceSizeTable,
    endian: Endian,
    count: Option<u32>,
}

impl Rstb {
    #[verifier::type_invariant]
    spec fn inv(self) -> bool {
        match self.count {
            Some(c) => table_count(self.table) == Some(c as int),
            None => table_count(self.table) is None,
        }
    }

    /// The entries of the hash map, in order.
    pub closed spec fn hashes(&self) -> Seq<(u32, u32)> {
        table_hashes(self.table)
    }

    /// The entries of the name map, in order.
    pub closed spec fn by_name(&self) -> Seq<(Seq<char>, u32)> {
        table_names(self.table)
    }

    /// The byte order of the file the table came from.
    pub closed spec fn byte_order(&self) -> Endian {
        self.endian
    }

    /// The entry count kept from the file's header.
    pub closed spec fn header(&self) -> Option<int> {
        table_count(self.table)
    }

    /// The byte order of the table.
    pub fn endian(&self) -> (r: Endian)
        ensures
            r == self.byte_order(),
    {
        self.endian
    }

    /// Whether the table is big-endian.
    pub fn is_big_endian(&self) -> (r: bool)
        ensures
            r == (self.byte_order() == Endian::Big),
    {
        match self.endian {
            Endian::Big => true,
            Endian::Little => false,
        }
    }

    /// Whether the table has an entry for `path`, under its hash or under
    /// itself.
    pub fn contains(&self, path: &str) -> (r: bool)
        ensures
            r == holds_path(self.hashes(), self.by_name(), path@),
    {
        table_contains(&self.table, path)
    }

    /// Sets the size of `path`, under its hash, and adds the path to the name
    /// table, so that the entry is shown under the path from now on.
    ///
    /// Fails with `InvalidRstb`, changing nothing, where the header count of
    /// the table stands at its maximum.
    pub fn set_size(&mut self, names: &mut PathTable, path: &str, size: u32) -> (r: Result<
        (),
        ErrorKind,
    >)
        ensures
            final(self).by_name() == old(self).by_name(),
            final(self).byte_order() == old(self).byte_order(),
            match r {
                Ok(_) => final(self).hashes() == upsert(old(self).hashes(), path_hash(path@), size)
                    && final(names).added() == old(names).added().insert(
                    path_hash(path@),
                    path@,
                ),
                Err(e) => e == ErrorKind::InvalidRstb && final(self).hashes() == old(self).hashes()
                    && final(names).added() == old(names).added(),
            },
            r is Err <==> old(self).header() == Some(u32::MAX as int),
            r is Ok ==> exists|i: int|
                0 <= i < final(self).hashes().len() && #[trigger] rendered(
                    final(self).hashes(),
                    final(self).by_name(),
                    *final(names),
                )[i] == (path@, size),
    {
        proof {
            use_type_invariant(&*self);
        }
        let count = match self.count {
            Some(c) => if c == u32::MAX {
                return Err(ErrorKind::InvalidRstb);
            } else {
                Some(c)
            },
            None => None,
        };
        let ghost before = table_hashes(self.table);
        let replaces = hash_known(&self.table, hash_of(path));
        let mut taken = Rstb::blank(self.endian);
        std::mem::swap(self, &mut taken);
        let mut table = taken.table;
        table_set(&mut table, path, size);
        let count = match count {
            Some(c) => if replaces {
                Some(c + 1)
            } else {
                Some(c)
            },
            None => None,
        };
        *self = Rstb { table, endian: taken.endian, count };
        names.insert(path);
        proof {
            let after = upsert(before, path_hash(path@), size);
            index_of_spec(before, path_hash(path@));
            let at = if crate::assoc::index_of(before, path_hash(path@)) < 0 {
                before.len() as int
            } else {
                crate::assoc::index_of(before, path_hash(path@))
            };
            assert(after[at] == (path_hash(path@), size));
            added_path_is_shown(after, self.by_name(), *names, path@, at);
            assert(self.hashes() == after);
            assert(0 <= at < self.hashes().len());
            assert(rendered(self.hashes(), self.by_name(), *names)[at] == (path@, size));
        }
        Ok(())
    }

    /// Removes the entry of `path`: the one under its hash if there is one,
    /// else the one under the path itself. The last entry of the map takes the
    /// place of the one removed.
    ///
    /// Fails with `InvalidRstb`, changing nothing, where there is an entry to
    /// remove but the header count of the table stands at zero.
    pub fn delete_entry(&mut self, path: &str) -> (r: Result<(), ErrorKind>)
        ensures
            final(self).byte_order() == old(self).byte_order(),
            match r {
                Ok(_) => after_removal(
                    old(self).hashes(),
                    old(self).by_name(),
                    old(self).header(),
                    path@,
                ) == (final(self).hashes(), final(self).by_name(), final(self).header()),
                Err(e) => e == ErrorKind::InvalidRstb && final(self).hashes() == old(self).hashes()
                    && final(self).by_name() == old(self).by_name(),
            },
            r is Err <==> old(self).header() == Some(0int) && holds_path(
                old(self).hashes(),
                old(self).by_name(),
                path@,
            ),
    {
        proof {
            use_type_invariant(&*self);
        }
        if !table_contains(&self.table, path) {
            return Ok(());
        }
        let count = match self.count {
            Some(c) => if c == 0 {
                return Err(ErrorKind::InvalidRstb);
            } else {
                Some((c - 1) as u32)
            },
            None => None,
        };
        let mut taken = Rstb::blank(self.endian);
        std::mem::swap(self, &mut taken);
        let mut table = taken.table;
        table_remove(&mut table, path);
        *self = Rstb { table, endian: taken.endian, count };
        Ok(())
    }

    /// An empty table without header, to stand in while the real one is
    /// worked on.
    fn blank(endian: Endian) -> (r: Rstb)
        ensures
            r.byte_order() == endian,
    {
        Rstb { table: table_empty(), endian, count: None }
    }

    /// What is shown of the table: each hash entry under the path the name
    /// table has for its hash, or under the hash as a decimal number where it
    /// has none, and each name entry under its name.
    pub fn view(&self, names: &PathTable) -> (r: Vec<(String, u32)>)
        ensures
            named_sizes(r@) == rendered(self.hashes(), self.by_name(), *names),
    {
        let hashes = table_hash_entries(&self.table);
        let mut by_name = table_name_entries(&self.table);
        let mut r: Vec<(String, u32)> = Vec::new();
        let mut i: usize = 0;
        while i < hashes.len()
            invariant
                i <= hashes.len(),
                r.len() == i,
                forall|k: int|
                    0 <= k < i ==> (#[trigger] r@[k]).0@ == shown_key(*names, hashes@[k].0)
                        && r@[k].1 == hashes@[k].1,
            decreases hashes.len() - i,
        {
            let key = match names.lookup(hashes[i].0) {
                Some(path) => path,
                None => string_of(&decimal_of(hashes[i].0)),
            };
            r.push((key, hashes[i].1));
            i += 1;
        }
        let ghost shown_hashes = named_sizes(r@);
        let ghost tail = named_sizes(by_name@);
        r.append(&mut by_name);
        assert(named_sizes(r@) =~= shown_hashes + tail);
        assert(shown_hashes =~= Seq::new(
            hashes@.len(),
            |i: int| (shown_key(*names, hashes@[i].0), hashes@[i].1),
        ));
        r
    }

    /// The bytes of the table in its byte order, for a file called `file`:
    /// Yaz0-compressed if the file's extension starts with `s` and is not
    /// `sarc`. `InvalidRstb` where the table cannot be written.
    pub fn to_binary(&self, file: &str) -> (r: Result<Vec<u8>, ErrorKind>)
        ensures
            match r {
                Ok(v) => binary(
                    self.hashes(),
                    self.by_name(),
                    self.byte_order(),
                    compresses(file@),
                ) == Some(v@),
                Err(e) => e == ErrorKind::InvalidRstb && binary(
                    self.hashes(),
                    self.by_name(),
                    self.byte_order(),
                    compresses(file@),
                ) is None,
            },
    {
        let compressed = crate::paths::should_compress(file);
        match table_binary(&self.table, self.endian, compressed) {
            Some(v) => Ok(v),
            None => Err(ErrorKind::InvalidRstb),
        }
    }

    /// The table as text. `InvalidRstb` where it cannot be written.
    pub fn to_text(&self) -> (r: Result<String, ErrorKind>)
        ensures
            match r {
                Ok(s) => dump(self.hashes(), self.by_name()) == Some(s@),
                Err(e) => e == ErrorKind::InvalidRstb && dump(self.hashes(), self.by_name())
                    is None,
            },
    {
        match table_text(&self.table) {
            Some(s) => Ok(s),
            None => Err(ErrorKind::InvalidRstb),
        }
    }

    /// The size hint for a file called `file` with content `data`, on the
    /// platform of the table; 0 where there is none.
    pub fn calc_size(&self, file: &str, data: &[u8]) -> (r: u32)
        ensures
            r == file_hint(file@, data@, self.byte_order()),
    {
        let ext = match extension_of(&chars_of(file)) {
            Some(e) => string_of(&e),
            None => {
                return 0;
            },
        };
        match calc_size_with_ext(data, ext.as_str(), self.endian) {
            Some(size) => size,
            None => 0,
        }
    }
}

/// Calls `ResourceSizeTable::default`: a table with empty maps and without a
/// header count.
#[verifier::external_body]
fn table_empty() -> (t: ::rstb::ResourceSizeTable)
    ensures
        table_hashes(t) == Seq::<(u32, u32)>::empty(),
        table_names(t) == Seq::<(Seq<char>, u32)>::empty(),
        table_count(t) is None,
{
    ::rstb::ResourceSizeTable::default()
}

/// Whether the hash map of a table has `hash`.
fn hash_known(t: &::rstb::ResourceSizeTable, hash: u32) -> (r: bool)
    ensures
        r == lookup(table_hashes(*t), hash) is Some,
{
    let entries = table_hash_entries(t);
    let mut i: usize = 0;
    while i < entries.len()
        invariant
            i <= entries.len(),
            entries@ == table_hashes(*t),
            forall|k: int| 0 <= k < i ==> (#[trigger] entries@[k]).0 != hash,
        decreases entries.len() - i,
    {
        if entries[i].0 == hash {
            proof {
                index_of_spec(entries@, hash);
                let found = crate::assoc::index_of(entries@, hash);
                if found < 0 {
                    assert(entries@[i as int].0 != hash);
                }
            }
            return true;
        }
        i += 1;
    }
    proof {
        index_of_spec(entries@, hash);
        let found = crate::assoc::index_of(entries@, hash);
        if found >= 0 {
            assert(entries@[found].0 != hash);
        }
    }
    false
}

/// Reads `data` in one byte order and keeps the table if it is genuine.
fn try_order(data: &[u8], endian: Endian) -> (r: Option<Rstb>)
    ensures
        match r {
            Some(t) => genuine(data@, endian) && parsed(data@, endian) == Some(
                (t.hashes(), t.by_name()),
            ) && t.byte_order() == endian && t.header() == header_count(data@, endian),
            None => !genuine(data@, endian),
        },
{
    if !check_parseable(data, endian) {
        return None;
    }
    let table = match table_parse(data, endian) {
        Some(t) => t,
        None => {
            return None;
        },
    };
    let ghost hashes = table_hashes(table);
    let ghost names = table_names(table);
    let hit = table_contains(&table, "EventFlow/PictureMemory.bfevfl") || table_contains(
        &table,
        "Camera/Demo648_0/C04-0.bcamanim",
    ) || table_contains(&table, "Effect/FldObj_ScaffoldIronParts_A_01.esetlist")
        || table_contains(&table, "Physics/TeraMeshRigidBody/MainField/9-8.hktmrb");
    proof {
        let p = probes();
        assert(p[0] == "EventFlow/PictureMemory.bfevfl"@);
        assert(p[1] == "Camera/Demo648_0/C04-0.bcamanim"@);
        assert(p[2] == "Effect/FldObj_ScaffoldIronParts_A_01.esetlist"@);
        assert(p[3] == "Physics/TeraMeshRigidBody/MainField/9-8.hktmrb"@);
        if hit {
            assert(holds_path(hashes, names, p[0]) || holds_path(hashes, names, p[1])
                || holds_path(hashes, names, p[2]) || holds_path(hashes, names, p[3]));
        } else if probed(hashes, names) {
            let i = choose|i: int|
                0 <= i < probes().len() && holds_path(hashes, names, #[trigger] probes()[i]);
            assert(i == 0 || i == 1 || i == 2 || i == 3);
        }
    }
    if !hit {
        return None;
    }
    let count = if data.len() >= 12 && has_rstb_magic(data) {
        Some(read_u32(data, 4, endian))
    } else {
        None
    };
    Some(Rstb { table, endian, count })
}

fn has_rstb_magic(data: &[u8]) -> (r: bool)
    ensures
        r == has_magic(data@, 0, rstb_magic()),
{
    let magic: [u8; 4] = [0x52u8, 0x53u8, 0x54u8, 0x42u8];
    assert(magic@ =~= rstb_magic());
    magic_at(data, 0, magic)
}

/// Opens a resource size table. The content, decompressed if it is under
/// Yaz0, is read big-endian and then little-endian; the first byte order in
/// which one of the four probe paths has an entry is the table's.
///
/// Fails with `InvalidRstb` where the content cannot be decompressed, or is a
/// genuine table in neither byte order.
pub fn parse_rstb(data: &[u8]) -> (r: Result<Rstb, ErrorKind>)
    ensures
        match r {
            Ok(t) => plain(data@) matches Some(content) && detected(content) == Some(
                t.byte_order(),
            ) && parsed(content, t.byte_order()) == Some((t.hashes(), t.by_name())),
            Err(e) => e == ErrorKind::InvalidRstb && (plain(data@) matches Some(content)
                ==> detected(content) is None),
        },
{
    let content = match decompress_if(data) {
        Ok(c) => c,
        Err(_) => {
            return Err(ErrorKind::InvalidRstb);
        },
    };
    match try_order(content.as_slice(), Endian::Big) {
        Some(t) => Ok(t),
        None => match try_order(content.as_slice(), Endian::Little) {
            Some(t) => Ok(t),
            None => Err(ErrorKind::InvalidRstb),
        },
    }
}

} // verus!
