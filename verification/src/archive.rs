//! SARC archives: reading them, and writing them anew.
//!
//! Parsing and packing are done by the `sarc-rs` crate. That crate indexes the
//! buffer it is given by offsets taken from the buffer itself, so the layout
//! of an archive is checked here before it is handed over, and what goes into
//! a new archive is checked before it is packed.

use crate::assoc::{
    agrees, collected, collected_distinct, collected_from_items, collected_len, distinct_keys,
    index_of, index_of_spec, index_of_unique, lookup, lookup_last, lookup_last_spec, swap_removed,
    swap_removed_pairs, swap_removed_spec, upsert, upsert_pairs, upsert_spec,
};
use crate::bytes::{has_magic, magic_at, read_u16, read_u32, u16_at, u16_be, u32_at, Endian};
use crate::error::ErrorKind;
use vstd::prelude::*;

verus! {

/// `"SARC"`
pub open spec fn sarc_magic() -> Seq<u8> {
    seq![0x53u8, 0x41u8, 0x52u8, 0x43u8]
}

/// The byte order that the mark at offset 6 names, if it names one.
pub open spec fn byte_order(bytes: Seq<u8>) -> Option<Endian> {
    if bytes.len() < 8 {
        None
    } else if bytes[6] == 0xFE && bytes[7] == 0xFF {
        Some(Endian::Big)
    } else if bytes[6] == 0xFF && bytes[7] == 0xFE {
        Some(Endian::Little)
    } else {
        None
    }
}

/// The number of entries in the allocation table.
pub open spec fn file_count(bytes: Seq<u8>, endian: Endian) -> int {
    u16_at(bytes, 0x1A, endian)
}

/// Where the payloads begin.
pub open spec fn data_start(bytes: Seq<u8>, endian: Endian) -> int {
    u32_at(bytes, 0x0C, endian)
}

/// Where the names begin: behind the three headers and the allocation table.
pub open spec fn names_start(bytes: Seq<u8>, endian: Endian) -> int {
    0x28 + 16 * file_count(bytes, endian)
}

/// Entry `i` of the allocation table points into the buffer: its name, if it
/// has one, starts inside it, and its payload is a range of it.
pub open spec fn entry_ok(bytes: Seq<u8>, endian: Endian, i: int) -> bool {
    let at = 0x20 + 16 * i;
    let name_ref = u32_at(bytes, at + 4, endian);
    let begin = data_start(bytes, endian) + u32_at(bytes, at + 8, endian);
    let end = data_start(bytes, endian) + u32_at(bytes, at + 12, endian);
    &&& name_ref != 0 ==> names_start(bytes, endian) + (name_ref % 0x1000000) * 4 <= bytes.len()
    &&& begin <= end <= bytes.len()
    &&& end <= u32::MAX
}

/// The buffer begins with the archive magic, has room for its headers and its
/// allocation table, and every entry of the table points into the buffer.
pub open spec fn layout_ok(bytes: Seq<u8>) -> bool {
    match byte_order(bytes) {
        None => false,
        Some(endian) => {
            &&& has_magic(bytes, 0, sarc_magic())
            &&& bytes.len() >= 0x28
            &&& names_start(bytes, endian) <= bytes.len()
            &&& forall|i: int|
                0 <= i < file_count(bytes, endian) ==> #[trigger] entry_ok(bytes, endian, i)
        },
    }
}

/// `n` is a power of two.
pub open spec fn is_pow2(n: int) -> bool
    decreases n,
{
    n == 1 || (n > 1 && n % 2 == 0 && is_pow2(n / 2))
}

/// `"FLIM"`
pub open spec fn flim_magic() -> Seq<u8> {
    seq![0x46u8, 0x4Cu8, 0x49u8, 0x4Du8]
}

/// The payload has the header of a binary resource file: more than 0x20
/// bytes, a byte order mark at offset 0x0C, and at offset 0x1C its own length
/// in that byte order. The packer takes the byte at offset 0x0E of such a
/// payload for the exponent of its alignment.
pub open spec fn has_resource_header(data: Seq<u8>) -> bool {
    data.len() > 0x20 && ((data[0x0C] == 0xFF && data[0x0D] == 0xFE && u32_at(
        data,
        0x1C,
        Endian::Big,
    ) == data.len()) || (data[0x0C] == 0xFE && data[0x0D] == 0xFF && u32_at(
        data,
        0x1C,
        Endian::Little,
    ) == data.len()))
}

/// The payload ends like a `FLIM` image: more than 0x28 bytes with the magic
/// 0x28 bytes before the end. In a big-endian archive the packer takes the
/// 16-bit number eight bytes before the end of such a payload for its
/// alignment.
pub open spec fn has_image_footer(data: Seq<u8>) -> bool {
    data.len() > 0x28 && has_magic(data, data.len() - 0x28, flim_magic())
}

/// The packer reads alignment hints out of payloads and computes with them
/// unchecked. A payload is packable when the hints it holds are small powers
/// of two: the exponent in a resource header is below 32, and, in a big-endian
/// archive, the alignment in an image footer is a power of two.
pub open spec fn packable(data: Seq<u8>, big_endian: bool) -> bool {
    &&& has_resource_header(data) ==> data[0x0E] < 32
    &&& big_endian && has_image_footer(data) ==> is_pow2(u16_be(data, data.len() - 8))
}

/// The longest name, in bytes, that goes into a new archive.
pub const MAX_NAME_BYTES: usize = 0xFFFF;

/// The most files a new archive holds, which is also the most the format can
/// index.
pub const MAX_FILES: usize = 0x3FFF;

/// The largest minimum alignment a new archive can ask for.
pub const MAX_ALIGNMENT: usize = 0x8000_0000;

/// An alignment the packer accepts: a power of two, at most `MAX_ALIGNMENT`.
pub open spec fn alignment_ok(alignment: int) -> bool {
    is_pow2(alignment) && alignment <= MAX_ALIGNMENT
}

/// A file as the parser hands it out. The format allows entries without a
/// name.
pub struct RawEntry {
    pub name: Option<String>,
    pub data: Vec<u8>,
}

impl RawEntry {
    pub open spec fn view(&self) -> (Option<Seq<char>>, Seq<u8>) {
        (
            match self.name {
                Some(n) => Some(n@),
                None => None,
            },
            self.data@,
        )
    }
}

pub open spec fn raw_views(entries: Seq<RawEntry>) -> Seq<(Option<Seq<char>>, Seq<u8>)> {
    Seq::new(entries.len(), |i: int| entries[i].view())
}

/// The entries that have a name, in their order.
pub open spec fn named(raw: Seq<(Option<Seq<char>>, Seq<u8>)>) -> Seq<(Seq<char>, Seq<u8>)>
    decreases raw.len(),
{
    if raw.len() == 0 {
        Seq::empty()
    } else {
        match raw.last().0 {
            Some(name) => named(raw.drop_last()).push((name, raw.last().1)),
            None => named(raw.drop_last()),
        }
    }
}

/// A named file of an archive.
pub struct Entry {
    pub name: String,
    pub data: Vec<u8>,
}

impl Entry {
    pub open spec fn view(&self) -> (Seq<char>, Seq<u8>) {
        (self.name@, self.data@)
    }
}

pub open spec fn entry_views(entries: Seq<Entry>) -> Seq<(Seq<char>, Seq<u8>)> {
    Seq::new(entries.len(), |i: int| entries[i].view())
}

/// The files that `sarc_rs::Sarc::new` and `Sarc::files` find in a buffer, in
/// table order; `None` where `Sarc::new` refuses the buffer.
pub uninterp spec fn sarc_entries(bytes: Seq<u8>) -> Option<Seq<(Option<Seq<char>>, Seq<u8>)>>;

/// The bytes that `sarc_rs::SarcWriter::write_to_bytes` makes of these files,
/// in this order, with this byte order and minimum alignment.
pub uninterp spec fn packed(
    files: Seq<(Seq<char>, Seq<u8>)>,
    big_endian: bool,
    alignment: nat,
) -> Option<Seq<u8>>;

#[verifier::external_type_specification]
#[verifier::external_body]
pub struct ExSarcWriter(sarc_rs::SarcWriter);

/// The files a writer holds, in the order of its map.
pub uninterp spec fn writer_files(w: sarc_rs::SarcWriter) -> Seq<(Seq<char>, Seq<u8>)>;

/// Whether a writer writes big-endian.
pub uninterp spec fn writer_big_endian(w: sarc_rs::SarcWriter) -> bool;

/// The minimum alignment a writer was given.
pub uninterp spec fn writer_alignment(w: sarc_rs::SarcWriter) -> nat;

/// The minimum alignment that `sarc_rs::Sarc::guess_min_alignment` reads off
/// the payload offsets of an archive.
pub uninterp spec fn guessed_alignment(bytes: Seq<u8>) -> nat;

/// Calls `sarc_rs::Sarc::new` and `Sarc::files`, and copies each file out.
/// `files` slices the buffer at the offsets of each table entry without
/// checking them, so only a buffer whose layout was checked may reach it. The
/// result is a function of the buffer alone on the machines this library is
/// built for, which are little-endian: `Sarc::new` reads the byte order mark
/// in the byte order of the machine.
#[verifier::external_body]
fn read_entries(data: &[u8]) -> (r: Option<Vec<RawEntry>>)
    requires
        layout_ok(data@),
    ensures
        match r {
            Some(v) => sarc_entries(data@) == Some(raw_views(v@)),
            None => sarc_entries(data@) is None,
        },
{
    let sarc = sarc_rs::Sarc::new(data).ok()?;
    Some(
        sarc.files().map(
            |f| RawEntry { name: f.name.map(|n| n.to_owned()), data: f.data.to_vec() },
        ).collect(),
    )
}

/// Calls `sarc_rs::SarcWriter::new`: a writer without files, with the given
/// byte order and the alignment 4.
#[verifier::external_body]
fn writer_empty(big_endian: bool) -> (w: sarc_rs::SarcWriter)
    ensures
        writer_files(w) == Seq::<(Seq<char>, Seq<u8>)>::empty(),
        writer_big_endian(w) == big_endian,
        writer_alignment(w) == 4,
{
    sarc_rs::SarcWriter::new(if big_endian {
        sarc_rs::Endian::Big
    } else {
        sarc_rs::Endian::Little
    })
}

/// Calls `SarcWriter::set_min_alignment`, which takes a power of two and
/// refuses anything else.
#[verifier::external_body]
fn writer_align(w: &mut sarc_rs::SarcWriter, alignment: usize) -> (r: bool)
    ensures
        r == is_pow2(alignment as int),
        writer_files(*final(w)) == writer_files(*old(w)),
        writer_big_endian(*final(w)) == writer_big_endian(*old(w)),
        writer_alignment(*final(w)) == if r {
            alignment as nat
        } else {
            writer_alignment(*old(w))
        },
{
    w.set_min_alignment(alignment).is_ok()
}

/// Calls `sarc_rs::Sarc::new` and `SarcWriter::from_sarc`. The writer takes
/// the archive's byte order and collects its named files into its map, a later
/// file replacing an earlier one of the same name; its alignment is the one
/// `Sarc::guess_min_alignment` finds, which is 1, 2 or 4.
#[verifier::external_body]
fn writer_from(data: &[u8]) -> (r: Option<sarc_rs::SarcWriter>)
    requires
        layout_ok(data@),
    ensures
        match r {
            Some(w) => sarc_entries(data@) matches Some(raw) && writer_files(w) == collected(
                named(raw),
            ) && writer_big_endian(w) == (byte_order(data@) == Some(Endian::Big))
                && writer_alignment(w) == guessed_alignment(data@) && (writer_alignment(w) == 1
                || writer_alignment(w) == 2 || writer_alignment(w) == 4),
            None => sarc_entries(data@) is None,
        },
{
    let sarc = sarc_rs::Sarc::new(data).ok()?;
    Some(sarc_rs::SarcWriter::from_sarc(&sarc))
}

/// Calls `insert` on the writer's map of files: a known name keeps its place
/// and gets the new payload, a new name goes last.
#[verifier::external_body]
fn writer_put(w: &mut sarc_rs::SarcWriter, name: String, data: Vec<u8>)
    ensures
        writer_files(*final(w)) == upsert(writer_files(*old(w)), name@, data@),
        writer_big_endian(*final(w)) == writer_big_endian(*old(w)),
        writer_alignment(*final(w)) == writer_alignment(*old(w)),
{
    w.files.insert(name, data);
}

/// Calls `remove` on the writer's map of files, which hands back the payload
/// of the name, if it is there, and moves the last file into its place.
#[verifier::external_body]
fn writer_take(w: &mut sarc_rs::SarcWriter, name: &str) -> (r: Option<Vec<u8>>)
    ensures
        writer_files(*final(w)) == swap_removed(writer_files(*old(w)), name@),
        writer_big_endian(*final(w)) == writer_big_endian(*old(w)),
        writer_alignment(*final(w)) == writer_alignment(*old(w)),
        match r {
            Some(v) => lookup(writer_files(*old(w)), name@) == Some(v@),
            None => lookup(writer_files(*old(w)), name@) is None,
        },
{
    w.files.remove(name)
}

/// Calls `sarc_rs::SarcWriter::write_to_bytes`. The packer adds up name
/// lengths in 32 bits and multiplies the alignments it reads out of payloads,
/// so names are bounded and payloads packable. The result is a function of the
/// files in their order, the byte order and the alignment.
#[verifier::external_body]
fn writer_pack(w: sarc_rs::SarcWriter) -> (r: Option<Vec<u8>>)
    requires
        files_packable(writer_files(w), writer_big_endian(w)),
        alignment_ok(writer_alignment(w) as int),
    ensures
        match r {
            Some(v) => packed(writer_files(w), writer_big_endian(w), writer_alignment(w))
                == Some(v@),
            None => packed(writer_files(w), writer_big_endian(w), writer_alignment(w)) is None,
        },
{
    let mut w = w;
    w.write_to_bytes().ok()
}

/// Copies out the writer's map of files, in its order.
#[verifier::external_body]
fn writer_entries(w: &sarc_rs::SarcWriter) -> (r: Vec<Entry>)
    ensures
        entry_views(r@) == writer_files(*w),
{
    w.files.iter().map(|(name, data)| Entry { name: name.clone(), data: data.clone() }).collect()
}

/// Calls `contains_key` on the writer's map of files.
#[verifier::external_body]
fn writer_has(w: &sarc_rs::SarcWriter, name: &str) -> (r: bool)
    ensures
        r == lookup(writer_files(*w), name@) is Some,
{
    w.files.contains_key(name)
}

/// Calls `len` on the writer's map of files.
#[verifier::external_body]
fn writer_len(w: &sarc_rs::SarcWriter) -> (r: usize)
    ensures
        r == writer_files(*w).len(),
{
    w.files.len()
}

/// The number of bytes of the UTF-8 form of `name`.
pub open spec fn name_bytes(name: Seq<char>) -> nat {
    vstd::utf8::encode_utf8(name).len()
}

/// One file can go into a new archive.
pub open spec fn file_packable(file: (Seq<char>, Seq<u8>), big_endian: bool) -> bool {
    name_bytes(file.0) <= MAX_NAME_BYTES && packable(file.1, big_endian)
}

/// These files can go into a new archive together.
pub open spec fn files_packable(files: Seq<(Seq<char>, Seq<u8>)>, big_endian: bool) -> bool {
    &&& files.len() <= MAX_FILES
    &&& forall|i: int| 0 <= i < files.len() ==> #[trigger] file_packable(files[i], big_endian)
}

/// Files that can be packed stay so when one more that can be packed is set.
pub proof fn packable_after_put(
    files: Seq<(Seq<char>, Seq<u8>)>,
    name: Seq<char>,
    data: Seq<u8>,
    big_endian: bool,
)
    requires
        files_packable(files, big_endian),
        file_packable((name, data), big_endian),
        files.len() < MAX_FILES || lookup(files, name) is Some,
    ensures
        files_packable(upsert(files, name, data), big_endian),
{
    upsert_pairs(files, name, data);
    index_of_spec(files, name);
    let t = upsert(files, name, data);
    assert forall|i: int| 0 <= i < t.len() implies #[trigger] file_packable(t[i], big_endian) by {
        if t[i] != (name, data) {
            let k = choose|k: int| 0 <= k < files.len() && files[k] == t[i];
            assert(file_packable(files[k], big_endian));
        }
    }
}

/// Files that can be packed stay so when one is removed.
pub proof fn packable_after_take(
    files: Seq<(Seq<char>, Seq<u8>)>,
    name: Seq<char>,
    big_endian: bool,
)
    requires
        files_packable(files, big_endian),
    ensures
        files_packable(swap_removed(files, name), big_endian),
{
    swap_removed_pairs(files, name);
    let t = swap_removed(files, name);
    assert forall|i: int| 0 <= i < t.len() implies #[trigger] file_packable(t[i], big_endian) by {
        let k = choose|k: int| 0 <= k < files.len() && files[k] == t[i];
        assert(file_packable(files[k], big_endian));
    }
}

/// The number of bytes of `name`.
pub fn byte_len(name: &str) -> (n: usize)
    ensures
        n == name_bytes(name@),
{
    name.as_bytes().len()
}

/// The file can be set in a writer that holds `files`: it can be packed, and
/// it is known there or there is room for one more.
pub open spec fn fits(
    files: Seq<(Seq<char>, Seq<u8>)>,
    big_endian: bool,
    name: Seq<char>,
    data: Seq<u8>,
) -> bool {
    file_packable((name, data), big_endian) && (files.len() < MAX_FILES || lookup(files, name)
        is Some)
}

/// Whether `n` is a power of two.
pub fn check_pow2(n: usize) -> (r: bool)
    ensures
        r == is_pow2(n as int),
{
    if n == 0 {
        return false;
    }
    let mut m: usize = n;
    while m > 1 && m % 2 == 0
        invariant
            m >= 1,
            is_pow2(n as int) == is_pow2(m as int),
        decreases m,
    {
        m = m / 2;
    }
    m == 1
}

/// Whether the packer can take `data` as a payload.
pub fn check_packable(data: &[u8], big_endian: bool) -> (r: bool)
    ensures
        r == packable(data@, big_endian),
{
    let n = data.len();
    if n > 0x20 && data[0x0E] >= 32 {
        let marked_big = data[0x0C] == 0xFF && data[0x0D] == 0xFE;
        let marked_little = data[0x0C] == 0xFE && data[0x0D] == 0xFF;
        if marked_big && read_u32(data, 0x1C, Endian::Big) as usize == n {
            return false;
        }
        if marked_little && read_u32(data, 0x1C, Endian::Little) as usize == n {
            return false;
        }
    }
    if big_endian && n > 0x28 {
        let flim: [u8; 4] = [0x46u8, 0x4Cu8, 0x49u8, 0x4Du8];
        assert(flim@ =~= flim_magic());
        if magic_at(data, n - 0x28, flim) {
            let alignment = read_u16(data, n - 8, Endian::Big);
            return check_pow2(alignment as usize);
        }
    }
    true
}

/// The byte order named at offset 6.
pub fn byte_order_of(data: &[u8]) -> (r: Option<Endian>)
    ensures
        r == byte_order(data@),
{
    if data.len() < 8 {
        None
    } else if data[6] == 0xFE && data[7] == 0xFF {
        Some(Endian::Big)
    } else if data[6] == 0xFF && data[7] == 0xFE {
        Some(Endian::Little)
    } else {
        None
    }
}

/// Whether every offset the parser will follow stays inside `data`.
pub fn check_layout(data: &[u8]) -> (r: bool)
    ensures
        r == layout_ok(data@),
{
    let endian = match byte_order_of(data) {
        Some(e) => e,
        None => {
            return false;
        },
    };
    let magic: [u8; 4] = [0x53u8, 0x41u8, 0x52u8, 0x43u8];
    assert(magic@ =~= sarc_magic());
    if data.len() < 0x28 || !magic_at(data, 0, magic) {
        return false;
    }
    let len: u64 = data.len() as u64;
    let count: u64 = read_u16(data, 0x1A, endian) as u64;
    let names: u64 = 0x28 + 16 * count;
    if names > len {
        return false;
    }
    let start: u64 = read_u32(data, 0x0C, endian) as u64;
    let mut i: u64 = 0;
    while i < count
        invariant
            i <= count,
            count == file_count(data@, endian),
            start == data_start(data@, endian),
            names == names_start(data@, endian),
            names <= len,
            len == data.len(),
            has_magic(data@, 0, sarc_magic()),
            byte_order(data@) == Some(endian),
            forall|k: int| 0 <= k < i ==> #[trigger] entry_ok(data@, endian, k),
        decreases count - i,
    {
        let at: usize = (0x20 + 16 * i) as usize;
        let name_ref: u64 = read_u32(data, at + 4, endian) as u64;
        let begin: u64 = start + read_u32(data, at + 8, endian) as u64;
        let end: u64 = start + read_u32(data, at + 12, endian) as u64;
        let name_fits = name_ref == 0 || names + (name_ref % 0x1000000) * 4 <= len;
        if !(name_fits && begin <= end && end <= len && end <= 0xFFFF_FFFF) {
            assert(!entry_ok(data@, endian, i as int));
            return false;
        }
        assert(entry_ok(data@, endian, i as int));
        i += 1;
    }
    true
}

/// An archive as it was read: its bytes, and the named files found in them.
pub struct Archive {
    data: Vec<u8>,
    entries: Vec<Entry>,
    big_endian: bool,
}

impl Archive {
    #[verifier::type_invariant]
    spec fn inv(self) -> bool {
        &&& layout_ok(self.data@)
        &&& sarc_entries(self.data@) matches Some(raw) && entry_views(self.entries@) == named(raw)
        &&& self.big_endian == (byte_order(self.data@) == Some(Endian::Big))
    }

    /// The bytes of the archive.
    pub closed spec fn bytes(&self) -> Seq<u8> {
        self.data@
    }

    /// The named files of the archive, in table order.
    pub closed spec fn files(&self) -> Seq<(Seq<char>, Seq<u8>)> {
        entry_views(self.entries@)
    }

    /// Whether the archive is big-endian.
    pub closed spec fn spec_big_endian(&self) -> bool {
        self.big_endian
    }

    /// An archive's bytes are readable, and its files and byte order are
    /// those found in its bytes.
    pub fn known(&self)
        ensures
            readable(self.bytes()),
            self.files() == contents(self.bytes()),
            self.spec_big_endian() == (byte_order(self.bytes()) == Some(Endian::Big)),
    {
        proof {
            use_type_invariant(self);
        }
    }

    /// Reads an archive. A buffer whose layout does not hold, or which the
    /// parser refuses, is no archive.
    pub fn parse(data: Vec<u8>) -> (r: Result<Archive, ErrorKind>)
        ensures
            match r {
                Ok(a) => readable(data@) && a.bytes() == data@,
                Err(e) => e == ErrorKind::ParseFormat && !readable(data@),
            },
    {
        if !check_layout(data.as_slice()) {
            return Err(ErrorKind::ParseFormat);
        }
        let big_endian = match byte_order_of(data.as_slice()) {
            Some(Endian::Big) => true,
            _ => false,
        };
        match read_entries(data.as_slice()) {
            Some(raw) => {
                let entries = named_entries(raw);
                Ok(Archive { data, entries, big_endian })
            },
            None => Err(ErrorKind::ParseFormat),
        }
    }

    #[verifier::when_used_as_spec(spec_big_endian)]
    pub fn big_endian(&self) -> (r: bool)
        ensures
            r == self.spec_big_endian(),
    {
        self.big_endian
    }

    /// The archive's bytes.
    pub fn as_bytes(&self) -> (r: &Vec<u8>)
        ensures
            r@ == self.bytes(),
    {
        &self.data
    }

    /// The named files, in table order.
    pub fn entries(&self) -> (r: &Vec<Entry>)
        ensures
            entry_views(r@) == self.files(),
    {
        &self.entries
    }

    /// The payload of the file called `name`: of the last one, should the
    /// table hold several.
    ///
    /// This walks the entries that were read. `sarc_rs::Sarc::get_file` is a
    /// binary search by name hash instead: it needs a table sorted by hash,
    /// takes any name of the same hash for the one asked for, and its search
    /// window runs below zero on some tables. On a table sorted by hash
    /// without two names of one hash both find the same file.
    pub fn get(&self, name: &String) -> (r: Option<&Vec<u8>>)
        ensures
            match r {
                Some(v) => lookup_last(self.files(), name@) == Some(v@),
                None => lookup_last(self.files(), name@) is None,
            },
    {
        let ghost files = self.files();
        let mut i: usize = self.entries.len();
        assert(files.take(i as int) =~= files);
        while i > 0
            invariant
                i <= self.entries.len(),
                files == self.files(),
                lookup_last(files, name@) == lookup_last(files.take(i as int), name@),
            decreases i,
        {
            i -= 1;
            proof {
                let upto = files.take(i + 1);
                assert(upto.drop_last() =~= files.take(i as int));
                assert(upto.last() == (self.entries@[i as int].name@, self.entries@[i as int].data@));
            }
            if self.entries[i].name == *name {
                return Some(&self.entries[i].data);
            }
        }
        None
    }
}

/// `bytes` can be read as an archive.
pub open spec fn readable(bytes: Seq<u8>) -> bool {
    layout_ok(bytes) && sarc_entries(bytes) is Some
}

/// The named files of a readable archive, in table order.
pub open spec fn contents(bytes: Seq<u8>) -> Seq<(Seq<char>, Seq<u8>)> {
    named(sarc_entries(bytes).unwrap())
}

/// Keeps the entries that have a name.
fn named_entries(raw: Vec<RawEntry>) -> (r: Vec<Entry>)
    ensures
        entry_views(r@) == named(raw_views(raw@)),
{
    let ghost all = raw_views(raw@);
    let mut raw = raw;
    let mut kept: Vec<Entry> = Vec::new();
    // taken from the back, so that each entry can be moved out
    let mut tail: Vec<Entry> = Vec::new();
    assert(all.take(raw.len() as int) =~= all);
    assert(entry_views(tail@).reverse() =~= Seq::empty());
    while raw.len() > 0
        invariant
            raw.len() <= all.len(),
            raw_views(raw@) == all.take(raw.len() as int),
            named(all) == named(all.take(raw.len() as int)) + entry_views(tail@).reverse(),
        decreases raw.len(),
    {
        let ghost n = raw.len() as int;
        let ghost before = raw_views(raw@);
        let ghost old_tail = entry_views(tail@);
        let item = raw.pop().unwrap();
        proof {
            assert(raw_views(raw@) =~= before.drop_last());
            assert(before.last() == item.view());
            assert(all.take(n).drop_last() =~= all.take(n - 1));
        }
        match item.name {
            Some(name) => {
                let entry = Entry { name, data: item.data };
                tail.push(entry);
                proof {
                    assert(entry_views(tail@) =~= old_tail.push(entry.view()));
                    assert(entry_views(tail@).reverse() =~= seq![entry.view()]
                        + old_tail.reverse());
                    assert(named(all.take(n)) =~= named(all.take(n - 1)).push(entry.view()));
                    assert(named(all) =~= named(all.take(n - 1)) + entry_views(tail@).reverse());
                }
            },
            None => {},
        }
    }
    assert(all.take(0) =~= Seq::empty());
    assert(named(all) =~= entry_views(tail@).reverse());
    while tail.len() > 0
        invariant
            named(all) == entry_views(kept@) + entry_views(tail@).reverse(),
        decreases tail.len(),
    {
        let ghost old_tail = entry_views(tail@);
        let ghost old_kept = entry_views(kept@);
        let entry = tail.pop().unwrap();
        kept.push(entry);
        proof {
            assert(entry_views(tail@) =~= old_tail.drop_last());
            assert(entry_views(kept@) =~= old_kept.push(old_tail.last()));
            assert(old_tail.reverse() =~= seq![old_tail.last()] + old_tail.drop_last().reverse());
            assert(named(all) =~= entry_views(kept@) + entry_views(tail@).reverse());
        }
    }
    assert(entry_views(tail@).reverse() =~= Seq::empty());
    assert(named(all) =~= entry_views(kept@));
    kept
}

/// An archive in the making: a map from names to payloads, to be packed with
/// a byte order and a minimum alignment. Whatever it holds can be packed.
pub struct Writer {
    inner: sarc_rs::SarcWriter,
    big_endian: bool,
}

impl Writer {
    #[verifier::type_invariant]
    spec fn inv(self) -> bool {
        &&& self.big_endian == writer_big_endian(self.inner)
        &&& distinct_keys(writer_files(self.inner))
        &&& files_packable(writer_files(self.inner), writer_big_endian(self.inner))
        &&& alignment_ok(writer_alignment(self.inner) as int)
    }

    /// The files, in the order of the map.
    pub closed spec fn files(&self) -> Seq<(Seq<char>, Seq<u8>)> {
        writer_files(self.inner)
    }

    pub closed spec fn big_endian(&self) -> bool {
        writer_big_endian(self.inner)
    }

    pub closed spec fn alignment(&self) -> nat {
        writer_alignment(self.inner)
    }

    /// The names of a writer are distinct, and its files and alignment are
    /// ones the packer takes.
    pub fn known(&self)
        ensures
            distinct_keys(self.files()),
            files_packable(self.files(), self.big_endian()),
            alignment_ok(self.alignment() as int),
    {
        proof {
            use_type_invariant(self);
        }
    }

    /// An empty writer. An alignment that is no power of two, or larger than
    /// `MAX_ALIGNMENT`, is refused with `ParseFormat`.
    pub fn new(big_endian: bool, alignment: usize) -> (r: Result<Writer, ErrorKind>)
        ensures
            match r {
                Ok(w) => alignment_ok(alignment as int) && w.files() == Seq::<
                    (Seq<char>, Seq<u8>),
                >::empty() && w.big_endian() == big_endian && w.alignment() == alignment,
                Err(e) => e == ErrorKind::ParseFormat && !alignment_ok(alignment as int),
            },
    {
        if alignment > MAX_ALIGNMENT {
            return Err(ErrorKind::ParseFormat);
        }
        let mut inner = writer_empty(big_endian);
        if writer_align(&mut inner, alignment) {
            Ok(Writer { inner, big_endian })
        } else {
            Err(ErrorKind::ParseFormat)
        }
    }

    /// A writer without files, to stand in while another is worked on: it
    /// writes little-endian, with the alignment 4.
    fn blank() -> (r: Writer)
        ensures
            r.files() == Seq::<(Seq<char>, Seq<u8>)>::empty(),
            !r.big_endian(),
            r.alignment() == 4,
    {
        assert(is_pow2(4)) by {
            reveal_with_fuel(is_pow2, 4);
        }
        Writer { inner: writer_empty(false), big_endian: false }
    }

    /// A writer that holds the files of `archive`, a later file replacing an
    /// earlier one of the same name. An archive with a file that cannot be
    /// packed again is refused with `ParseFormat`.
    pub fn from_archive(archive: &Archive) -> (r: Result<Writer, ErrorKind>)
        ensures
            match r {
                Ok(w) => w.files() == collected(archive.files()) && w.big_endian()
                    == archive.spec_big_endian() && w.alignment() == guessed_alignment(
                    archive.bytes(),
                ) && files_packable(archive.files(), archive.spec_big_endian()),
                Err(e) => e == ErrorKind::ParseFormat && !files_packable(
                    archive.files(),
                    archive.spec_big_endian(),
                ),
            },
    {
        archive.known();
        let big_endian = archive.big_endian();
        let entries = archive.entries();
        if entries.len() > MAX_FILES {
            return Err(ErrorKind::ParseFormat);
        }
        let mut i: usize = 0;
        while i < entries.len()
            invariant
                i <= entries.len(),
                entry_views(entries@) == archive.files(),
                big_endian == archive.spec_big_endian(),
                forall|k: int|
                    0 <= k < i ==> #[trigger] file_packable(entry_views(entries@)[k], big_endian),
            decreases entries.len() - i,
        {
            let name_len = byte_len(entries[i].name.as_str());
            assert(entry_views(entries@)[i as int] == (entries[i as int].name@, entries[i as int].data@));
            if name_len > MAX_NAME_BYTES || !check_packable(entries[i].data.as_slice(), big_endian) {
                assert(!file_packable(entry_views(entries@)[i as int], big_endian));
                return Err(ErrorKind::ParseFormat);
            }
            i += 1;
        }
        match writer_from(archive.as_bytes().as_slice()) {
            Some(inner) => {
                proof {
                    let items = archive.files();
                    collected_distinct(items);
                    collected_from_items(items);
                    collected_len(items);
                    let c = collected(items);
                    assert forall|i: int| 0 <= i < c.len() implies #[trigger] file_packable(
                        c[i],
                        big_endian,
                    ) by {
                        let k = choose|k: int| 0 <= k < items.len() && items[k] == c[i];
                        assert(file_packable(items[k], big_endian));
                    }
                    assert(is_pow2(1) && is_pow2(2) && is_pow2(4)) by {
                        reveal_with_fuel(is_pow2, 4);
                    }
                }
                Ok(Writer { inner, big_endian })
            },
            None => {
                proof {
                    assert(false);
                }
                Err(ErrorKind::ParseFormat)
            },
        }
    }

    /// Sets the payload of `name`. A name longer than `MAX_NAME_BYTES`, a
    /// payload that is not packable, or a new file beyond `MAX_FILES` is
    /// refused with `ParseFormat`, and the writer stays as it was.
    pub fn put(&mut self, name: String, data: Vec<u8>) -> (r: Result<(), ErrorKind>)
        ensures
            final(self).big_endian() == old(self).big_endian(),
            final(self).alignment() == old(self).alignment(),
            match r {
                Ok(_) => final(self).files() == upsert(old(self).files(), name@, data@),
                Err(e) => e == ErrorKind::ParseFormat && final(self).files() == old(self).files(),
            },
            r is Ok <==> fits(old(self).files(), old(self).big_endian(), name@, data@),
    {
        proof {
            use_type_invariant(&*self);
        }
        let big_endian = self.is_big_endian();
        if byte_len(name.as_str()) > MAX_NAME_BYTES || !check_packable(data.as_slice(), big_endian)
            || (writer_len(&self.inner) >= MAX_FILES && !writer_has(&self.inner, name.as_str())) {
            return Err(ErrorKind::ParseFormat);
        }
        proof {
            upsert_spec(writer_files(self.inner), name@, data@);
            packable_after_put(writer_files(self.inner), name@, data@, big_endian);
        }
        let mut taken = Writer::blank();
        std::mem::swap(self, &mut taken);
        let mut inner = taken.inner;
        writer_put(&mut inner, name, data);
        *self = Writer { inner, big_endian };
        Ok(())
    }

    /// Removes `name` and hands back its payload; the last file takes its
    /// place.
    pub fn take(&mut self, name: &str) -> (r: Option<Vec<u8>>)
        ensures
            final(self).big_endian() == old(self).big_endian(),
            final(self).alignment() == old(self).alignment(),
            final(self).files() == swap_removed(old(self).files(), name@),
            match r {
                Some(v) => lookup(old(self).files(), name@) == Some(v@),
                None => lookup(old(self).files(), name@) is None,
            },
    {
        proof {
            use_type_invariant(&*self);
            swap_removed_spec(writer_files(self.inner), name@);
            packable_after_take(writer_files(self.inner), name@, writer_big_endian(self.inner));
        }
        let mut taken = Writer::blank();
        std::mem::swap(self, &mut taken);
        let mut inner = taken.inner;
        let payload = writer_take(&mut inner, name);
        *self = Writer { inner, big_endian: taken.big_endian };
        payload
    }

    /// Gives the file called `name` the name `new_name`, and keeps its
    /// payload. Afterwards `name` is gone, `new_name` has what `name` had, and
    /// every other name has what it had before.
    ///
    /// Fails with `UnknownResource` where there is no file called `name`, and
    /// with `ParseFormat` where `new_name` is too long; the writer then stays
    /// as it was.
    pub fn rename(&mut self, name: &str, new_name: String) -> (r: Result<(), ErrorKind>)
        ensures
            final(self).big_endian() == old(self).big_endian(),
            final(self).alignment() == old(self).alignment(),
            match r {
                Ok(_) => {
                    &&& lookup(old(self).files(), name@) matches Some(payload)
                    &&& final(self).files() == upsert(
                        swap_removed(old(self).files(), name@),
                        new_name@,
                        payload,
                    )
                    &&& lookup(final(self).files(), new_name@) == Some(payload)
                    &&& name@ != new_name@ ==> lookup(final(self).files(), name@) is None
                    &&& forall|other: Seq<char>|
                        other != name@ && other != new_name@ ==> lookup(
                            final(self).files(),
                            other,
                        ) == lookup(old(self).files(), other)
                },
                Err(e) => final(self).files() == old(self).files() && (e
                    == ErrorKind::UnknownResource || e == ErrorKind::ParseFormat),
            },
            r == Err::<(), ErrorKind>(ErrorKind::UnknownResource) <==> name_bytes(new_name@)
                <= MAX_NAME_BYTES && lookup(old(self).files(), name@) is None,
            r == Err::<(), ErrorKind>(ErrorKind::ParseFormat) <==> name_bytes(new_name@)
                > MAX_NAME_BYTES,
    {
        proof {
            use_type_invariant(&*self);
        }
        if byte_len(new_name.as_str()) > MAX_NAME_BYTES {
            return Err(ErrorKind::ParseFormat);
        }
        let ghost before = writer_files(self.inner);
        let ghost big = writer_big_endian(self.inner);
        proof {
            swap_removed_spec(before, name@);
            packable_after_take(before, name@, big);
            index_of_spec(before, name@);
        }
        let mut taken = Writer::blank();
        std::mem::swap(self, &mut taken);
        let mut inner = taken.inner;
        let big_endian = taken.big_endian;
        match writer_take(&mut inner, name) {
            Some(payload) => {
                let ghost middle = writer_files(inner);
                proof {
                    upsert_spec(middle, new_name@, payload@);
                    let at = index_of(before, name@);
                    assert(before[at].1 == payload@);
                    assert(file_packable(before[at], big));
                    assert(middle.len() == before.len() - 1);
                    packable_after_put(middle, new_name@, payload@, big);
                }
                writer_put(&mut inner, new_name, payload);
                *self = Writer { inner, big_endian };
                Ok(())
            },
            None => {
                assert(writer_files(inner) == before);
                *self = Writer { inner, big_endian };
                Err(ErrorKind::UnknownResource)
            },
        }
    }

    /// Whether the writer writes big-endian.
    pub fn is_big_endian(&self) -> (r: bool)
        ensures
            r == self.big_endian(),
    {
        proof {
            use_type_invariant(self);
        }
        self.big_endian
    }

    /// Packs the files into an archive and reads the archive back. The
    /// archive that comes back has the writer's byte order and holds the
    /// files of the writer, each name with its payload, and no other name.
    /// `ParseFormat` where the packer gives up, or packs what does not read
    /// back so.
    pub fn pack(self) -> (r: Result<Archive, ErrorKind>)
        ensures
            match r {
                Ok(a) => packed(self.files(), self.big_endian(), self.alignment()) == Some(
                    a.bytes(),
                ) && agrees(a.files(), self.files()) && a.spec_big_endian() == self.big_endian(),
                Err(e) => e == ErrorKind::ParseFormat,
            },
            r is Ok <==> faithful(self.files(), self.big_endian(), self.alignment()),
    {
        proof {
            use_type_invariant(&self);
        }
        let intended = writer_entries(&self.inner);
        let big_endian = self.big_endian;
        let bytes = match writer_pack(self.inner) {
            Some(v) => v,
            None => {
                return Err(ErrorKind::ParseFormat);
            },
        };
        let archive = match Archive::parse(bytes) {
            Ok(a) => a,
            Err(e) => {
                return Err(e);
            },
        };
        archive.known();
        if archive.big_endian() == big_endian && same_files(&archive, &intended) {
            Ok(archive)
        } else {
            Err(ErrorKind::ParseFormat)
        }
    }
}

/// The packer packs these files into bytes that read back as an archive of
/// this byte order with these files.
pub open spec fn faithful(files: Seq<(Seq<char>, Seq<u8>)>, big_endian: bool, alignment: nat) -> bool {
    match packed(files, big_endian, alignment) {
        Some(out) => readable(out) && agrees(contents(out), files) && big_endian == (byte_order(
            out,
        ) == Some(Endian::Big)),
        None => false,
    }
}

/// Whether `a` and `b` hold the same bytes.
pub fn bytes_eq(a: &[u8], b: &[u8]) -> (r: bool)
    ensures
        r == (a@ == b@),
{
    if a.len() != b.len() {
        return false;
    }
    let mut i: usize = 0;
    while i < a.len()
        invariant
            i <= a.len(),
            a.len() == b.len(),
            a@.take(i as int) == b@.take(i as int),
        decreases a.len() - i,
    {
        if a[i] != b[i] {
            return false;
        }
        assert(a@.take(i + 1) == a@.take(i as int).push(a@[i as int]));
        assert(b@.take(i + 1) == b@.take(i as int).push(b@[i as int]));
        i += 1;
    }
    assert(a@ == a@.take(a.len() as int));
    assert(b@ == b@.take(b.len() as int));
    true
}

/// Whether one of `entries` is called `name`.
fn has_entry(entries: &Vec<Entry>, name: &String) -> (r: bool)
    ensures
        r == lookup(entry_views(entries@), name@) is Some,
{
    let ghost files = entry_views(entries@);
    let mut i: usize = 0;
    while i < entries.len()
        invariant
            i <= entries.len(),
            files == entry_views(entries@),
            forall|k: int| 0 <= k < i ==> (#[trigger] files[k]).0 != name@,
        decreases entries.len() - i,
    {
        if entries[i].name == *name {
            proof {
                index_of_spec(files, name@);
                assert(files[i as int].0 == name@);
            }
            return true;
        }
        i += 1;
    }
    proof {
        index_of_spec(files, name@);
        if index_of(files, name@) >= 0 {
            assert(files[index_of(files, name@)].0 != name@);
        }
    }
    false
}

/// Whether an archive holds exactly the files `intended`: each of them under
/// its name, and no file of another name.
fn same_files(archive: &Archive, intended: &Vec<Entry>) -> (r: bool)
    requires
        distinct_keys(entry_views(intended@)),
    ensures
        r == agrees(archive.files(), entry_views(intended@)),
{
    let ghost have = archive.files();
    let ghost want = entry_views(intended@);
    let mut i: usize = 0;
    while i < intended.len()
        invariant
            i <= intended.len(),
            have == archive.files(),
            want == entry_views(intended@),
            distinct_keys(want),
            forall|k: int| 0 <= k < i ==> lookup_last(have, (#[trigger] want[k]).0) == Some(want[k].1),
        decreases intended.len() - i,
    {
        let found = match archive.get(&intended[i].name) {
            Some(data) => bytes_eq(data.as_slice(), intended[i].data.as_slice()),
            None => false,
        };
        assert(want[i as int] == (intended@[i as int].name@, intended@[i as int].data@));
        if !found {
            proof {
                index_of_unique(want, i as int);
                assert(lookup(want, want[i as int].0) == Some(want[i as int].1));
                assert(lookup_last(have, want[i as int].0) != lookup(want, want[i as int].0));
            }
            return false;
        }
        i += 1;
    }
    let entries = archive.entries();
    let mut j: usize = 0;
    while j < entries.len()
        invariant
            j <= entries.len(),
            have == archive.files(),
            entry_views(entries@) == have,
            want == entry_views(intended@),
            distinct_keys(want),
            forall|k: int|
                0 <= k < want.len() ==> lookup_last(have, (#[trigger] want[k]).0) == Some(want[k].1),
            forall|k: int| 0 <= k < j ==> lookup(want, (#[trigger] have[k]).0) is Some,
        decreases entries.len() - j,
    {
        assert(have[j as int].0 == entries@[j as int].name@);
        if !has_entry(intended, &entries[j].name) {
            proof {
                let name = have[j as int].0;
                lookup_last_spec(have, name);
                assert(lookup_last(have, name) is Some);
                assert(lookup_last(have, name) != lookup(want, name));
            }
            return false;
        }
        j += 1;
    }
    proof {
        assert forall|name: Seq<char>| #[trigger] lookup_last(have, name) == lookup(want, name) by {
            index_of_spec(want, name);
            lookup_last_spec(have, name);
            let at = index_of(want, name);
            if at >= 0 {
                assert(want[at].0 == name);
                assert(lookup_last(have, want[at].0) == Some(want[at].1));
            } else if lookup_last(have, name) is Some {
                let k = choose|k: int| 0 <= k < have.len() && (#[trigger] have[k]).0 == name;
                assert(lookup(want, have[k].0) is Some);
            }
        }
    }
    true
}

} // verus!
