//! The open archive and the commands that work on it.
//!
//! A file is named by a location: the names of the nested archives that lead
//! to it, and its own name inside the innermost of them. An edit is applied
//! there, and every archive on the way back up is packed anew around its
//! changed member. The open archive is replaced only when all of that has
//! succeeded.

use crate::archive::{
    byte_order, bytes_eq, contents, faithful, files_packable, fits, guessed_alignment,
    name_bytes, packed, readable, sarc_magic, Archive, Writer, MAX_NAME_BYTES,
};
use crate::assoc::{
    agrees, collected, collected_distinct, collected_lookup, distinct_keys, lookup, lookup_last,
    swap_removed, swap_removed_spec, upsert, upsert_spec,
};
use crate::bytes::{copy_bytes, has_magic, Endian};
use crate::error::ErrorKind;
use crate::paths::{
    backslash, backslash_chars, clean_location, clean_location_of, compresses, compresses_name,
    extension, extension_of, file_name, file_name_of, levels, levels_of, rename_target,
    rename_target_of, slash, slash_chars,
};
use crate::rstb::{calc_size_with_ext, hint};
use crate::stock::{editable_ext, flagged, is_editable_ext, Catalogue};
use crate::text::{
    chars_of, replace, replace_all, string_of, trim_end, trim_end_of, trim_start, trim_start_of,
    views,
};
use crate::tree::Tree;
use crate::view::{create_tree, failure, holds, listed, no_repeats, shown, MAX_DEPTH};
use crate::yaz0::{
    compress, decompress, decompress_if, deflated, inflated, plain, well_formed, yaz0_magic,
};
use vstd::prelude::*;

verus! {

/// What is found by going down from `payload` through the archives named by
/// `rest`: each step opens the payload as an archive, decompressing it first
/// where it is compressed, and takes the file of that name.
pub open spec fn descend(payload: Seq<u8>, rest: Seq<Seq<char>>) -> Result<Seq<u8>, ErrorKind>
    decreases rest.len(),
{
    if rest.len() == 0 {
        Ok(payload)
    } else {
        match opened(payload) {
            Err(e) => Err(e),
            Ok(inner) => match lookup_last(contents(inner), rest[0]) {
                None => Err(ErrorKind::UnknownResource),
                Some(next) => descend(next, rest.drop_first()),
            },
        }
    }
}

/// The bytes of the archive stored in `payload`, decompressed where the
/// payload is compressed.
pub open spec fn opened(payload: Seq<u8>) -> Result<Seq<u8>, ErrorKind> {
    match plain(payload) {
        None => Err(ErrorKind::Compression),
        Some(inner) => if readable(inner) {
            Ok(inner)
        } else {
            Err(ErrorKind::ParseFormat)
        },
    }
}

/// The payload at a location, whose levels are `levels`, in an archive with
/// these files.
pub open spec fn resolve(files: Seq<(Seq<char>, Seq<u8>)>, levels: Seq<Seq<char>>) -> Result<
    Seq<u8>,
    ErrorKind,
> {
    if levels.len() == 0 {
        Err(ErrorKind::UnknownResource)
    } else {
        match lookup_last(files, levels[0]) {
            None => Err(ErrorKind::UnknownResource),
            Some(payload) => descend(payload, levels.drop_first()),
        }
    }
}

/// A change to the files of one archive.
pub enum Edit {
    /// Sets the payload of a name, new or known.
    Put { name: String, data: Vec<u8> },
    /// Removes a name, if it is there.
    Remove { name: String },
    /// Gives the payload of `name` the name `to`.
    Rename { name: String, to: String },
}

/// A change to the files of one archive, as a value of mathematics.
pub ghost enum Change {
    Put { name: Seq<char>, data: Seq<u8> },
    Remove { name: Seq<char> },
    Rename { name: Seq<char>, to: Seq<char> },
}

impl Edit {
    pub open spec fn view(&self) -> Change {
        match self {
            Edit::Put { name, data } => Change::Put { name: name@, data: data@ },
            Edit::Remove { name } => Change::Remove { name: name@ },
            Edit::Rename { name, to } => Change::Rename { name: name@, to: to@ },
        }
    }
}

/// What a change makes of the files of a writer that writes in the given byte
/// order.
pub open spec fn edited(files: Seq<(Seq<char>, Seq<u8>)>, big_endian: bool, change: Change) -> Result<
    Seq<(Seq<char>, Seq<u8>)>,
    ErrorKind,
> {
    match change {
        Change::Put { name, data } => if fits(files, big_endian, name, data) {
            Ok(upsert(files, name, data))
        } else {
            Err(ErrorKind::ParseFormat)
        },
        Change::Remove { name } => Ok(swap_removed(files, name)),
        Change::Rename { name, to } => if name_bytes(to) > MAX_NAME_BYTES {
            Err(ErrorKind::ParseFormat)
        } else {
            match lookup(files, name) {
                None => Err(ErrorKind::UnknownResource),
                Some(payload) => Ok(upsert(swap_removed(files, name), to, payload)),
            }
        },
    }
}

/// What was compressed is a stream that decompresses to `bytes`.
pub open spec fn restores(compressed: Option<Seq<u8>>, bytes: Seq<u8>) -> bool {
    match compressed {
        Some(small) => well_formed(small) && inflated(small) == Some(bytes),
        None => false,
    }
}

/// The bytes under which content is stored under a name: compressed if the
/// name asks for it, provided that the compressed bytes decompress to the
/// content again.
pub open spec fn stored(name: Seq<char>, bytes: Seq<u8>) -> Result<Seq<u8>, ErrorKind> {
    if compresses(name) {
        if bytes.len() <= u32::MAX && restores(deflated(bytes), bytes) {
            Ok(deflated(bytes).unwrap())
        } else {
            Err(ErrorKind::Compression)
        }
    } else {
        Ok(bytes)
    }
}

/// The files of the archive `bytes` after `change` was applied in the archive
/// reached through `owners`. With no owners left the change is applied here;
/// otherwise the first owner is repacked around the change and put back under
/// its name, compressed if its name asks for it.
pub open spec fn changed(bytes: Seq<u8>, owners: Seq<Seq<char>>, change: Change) -> Result<
    Seq<(Seq<char>, Seq<u8>)>,
    ErrorKind,
>
    decreases owners.len(), 0nat,
{
    let files = collected(contents(bytes));
    let big_endian = byte_order(bytes) == Some(Endian::Big);
    if owners.len() == 0 {
        edited(files, big_endian, change)
    } else {
        match lookup_last(contents(bytes), owners[0]) {
            None => Err(ErrorKind::UnknownResource),
            Some(payload) => match opened(payload) {
                Err(e) => Err(e),
                Ok(inner) => match rebuilt(inner, owners.drop_first(), change) {
                    Err(e) => Err(e),
                    Ok(member) => match stored(owners[0], member) {
                        Err(e) => Err(e),
                        Ok(data) => edited(
                            files,
                            big_endian,
                            Change::Put { name: owners[0], data },
                        ),
                    },
                },
            },
        }
    }
}

/// The archive `bytes` packed anew after `change` was applied in the archive
/// reached through `owners`. An archive that holds a file which cannot be
/// packed again is refused before anything is looked up in it, and what is
/// packed counts only if it reads back with the files that went in.
pub open spec fn rebuilt(bytes: Seq<u8>, owners: Seq<Seq<char>>, change: Change) -> Result<
    Seq<u8>,
    ErrorKind,
>
    decreases owners.len(), 1nat,
{
    let big_endian = byte_order(bytes) == Some(Endian::Big);
    if !files_packable(contents(bytes), big_endian) {
        Err(ErrorKind::ParseFormat)
    } else {
        packed_with(bytes, changed(bytes, owners, change))
    }
}

/// The bytes of the archive `bytes` packed anew with `files` in place of its
/// own, if they read back with these files.
pub open spec fn packed_with(bytes: Seq<u8>, files: Result<Seq<(Seq<char>, Seq<u8>)>, ErrorKind>) -> Result<
    Seq<u8>,
    ErrorKind,
> {
    let big_endian = byte_order(bytes) == Some(Endian::Big);
    match files {
        Err(e) => Err(e),
        Ok(f) => if faithful(f, big_endian, guessed_alignment(bytes)) {
            Ok(packed(f, big_endian, guessed_alignment(bytes)).unwrap())
        } else {
            Err(ErrorKind::ParseFormat)
        },
    }
}

/// The bytes of the archive reached from the archive `bytes` through the
/// nested archives named by `owners`.
pub open spec fn reached(bytes: Seq<u8>, owners: Seq<Seq<char>>) -> Result<Seq<u8>, ErrorKind>
    decreases owners.len(),
{
    if owners.len() == 0 {
        Ok(bytes)
    } else {
        match lookup_last(contents(bytes), owners[0]) {
            None => Err(ErrorKind::UnknownResource),
            Some(payload) => match opened(payload) {
                Err(e) => Err(e),
                Ok(inner) => reached(inner, owners.drop_first()),
            },
        }
    }
}

/// What is found under a name in the files of a map: the payload, or the
/// news that there is none.
pub open spec fn found(payload: Option<Seq<u8>>) -> Result<Seq<u8>, ErrorKind> {
    match payload {
        Some(p) => Ok(p),
        None => Err(ErrorKind::UnknownResource),
    }
}

/// The bytes of a newly made empty archive, where one can be made.
pub open spec fn created(big_endian: bool, alignment: nat) -> Option<Seq<u8>> {
    if crate::archive::alignment_ok(alignment as int) && faithful(
        Seq::empty(),
        big_endian,
        alignment,
    ) {
        packed(Seq::empty(), big_endian, alignment)
    } else {
        None
    }
}

/// The view of a result that holds bytes.
pub open spec fn seen(r: Result<Vec<u8>, ErrorKind>) -> Result<Seq<u8>, ErrorKind> {
    match r {
        Ok(v) => Ok(v@),
        Err(e) => Err(e),
    }
}

/// The archive stored in `payload`.
pub fn open_member(payload: &[u8]) -> (r: Result<Archive, ErrorKind>)
    ensures
        match r {
            Ok(a) => opened(payload@) == Ok::<Seq<u8>, ErrorKind>(a.bytes()),
            Err(e) => opened(payload@) == Err::<Seq<u8>, ErrorKind>(e),
        },
{
    match decompress_if(payload) {
        Ok(bytes) => Archive::parse(bytes),
        Err(e) => Err(e),
    }
}

/// Reads the file at `levels` below `root`.
pub fn read_at(root: &Archive, levels: &Vec<String>) -> (r: Result<Vec<u8>, ErrorKind>)
    ensures
        seen(r) == resolve(root.files(), crate::tree::names(levels@)),
{
    let ghost path = crate::tree::names(levels@);
    if levels.len() == 0 {
        return Err(ErrorKind::UnknownResource);
    }
    assert(path[0] == levels@[0]@);
    let mut payload: Vec<u8> = match root.get(&levels[0]) {
        Some(p) => copy_bytes(p.as_slice()),
        None => {
            return Err(ErrorKind::UnknownResource);
        },
    };
    let mut i: usize = 1;
    assert(path.skip(1) =~= path.drop_first());
    while i < levels.len()
        invariant
            1 <= i <= levels.len(),
            path == crate::tree::names(levels@),
            resolve(root.files(), path) == descend(payload@, path.skip(i as int)),
        decreases levels.len() - i,
    {
        proof {
            let rest = path.skip(i as int);
            assert(rest[0] == levels@[i as int]@);
            assert(rest.drop_first() =~= path.skip(i + 1));
        }
        let archive = match open_member(payload.as_slice()) {
            Ok(a) => a,
            Err(e) => {
                return Err(e);
            },
        };
        archive.known();
        payload = match archive.get(&levels[i]) {
            Some(p) => copy_bytes(p.as_slice()),
            None => {
                return Err(ErrorKind::UnknownResource);
            },
        };
        i += 1;
    }
    Ok(payload)
}

/// The levels of a location as the editing commands take it: cleaned of
/// trailing slashes and of the `SARC:` prefix, and cut at each `//`.
pub open spec fn location_levels(location: Seq<char>) -> Seq<Seq<char>> {
    levels(clean_location(location))
}

/// The levels of a location as a lookup takes it: only trailing slashes are
/// dropped before it is cut at each `//`, so a `SARC:` in front belongs to the
/// first level's name.
pub open spec fn lookup_levels(location: Seq<char>) -> Seq<Seq<char>> {
    levels(trim_end(location, slash()))
}

/// Cuts an already trimmed location into its levels.
fn cut_levels(location: &Vec<char>) -> (r: Vec<String>)
    ensures
        crate::tree::names(r@) == levels(location@),
        r.len() >= 1,
{
    let pieces = levels_of(location);
    let mut r: Vec<String> = Vec::new();
    let mut i: usize = 0;
    while i < pieces.len()
        invariant
            i <= pieces.len(),
            r.len() == i,
            forall|k: int| 0 <= k < i ==> (#[trigger] r@[k])@ == pieces@[k]@,
        decreases pieces.len() - i,
    {
        r.push(string_of(&pieces[i]));
        i += 1;
    }
    assert(crate::tree::names(r@) =~= views(pieces@));
    r
}

/// Cuts the location of an editing command into its levels.
pub fn parse_location(location: &str) -> (r: Vec<String>)
    ensures
        crate::tree::names(r@) == location_levels(location@),
        r.len() >= 1,
{
    cut_levels(&clean_location_of(&chars_of(location)))
}

/// Cuts the location of a lookup into its levels.
pub fn parse_lookup(location: &str) -> (r: Vec<String>)
    ensures
        crate::tree::names(r@) == lookup_levels(location@),
        r.len() >= 1,
{
    cut_levels(&trim_end_of(&chars_of(location), &slash_chars()))
}

/// Reads the file at a location in the open archive: its first level is a
/// file of the archive, and each further level a file of the archive stored
/// in the level before. The location is taken as it stands but for trailing
/// slashes: no prefix is dropped from it.
///
/// Fails with `UnknownResource` where a level names no file, with
/// `Compression` where an archive on the way cannot be decompressed, and with
/// `ParseFormat` where it cannot be read.
pub fn open_nested_file(sarc: &Archive, file: &str) -> (r: Result<Vec<u8>, ErrorKind>)
    ensures
        seen(r) == resolve(sarc.files(), lookup_levels(file@)),
{
    let levels = parse_lookup(file);
    read_at(sarc, &levels)
}

/// Applies an edit to a writer.
pub fn apply(writer: &mut Writer, edit: Edit) -> (r: Result<(), ErrorKind>)
    ensures
        final(writer).big_endian() == old(writer).big_endian(),
        final(writer).alignment() == old(writer).alignment(),
        match r {
            Ok(_) => edited(old(writer).files(), old(writer).big_endian(), edit@) == Ok::<
                Seq<(Seq<char>, Seq<u8>)>,
                ErrorKind,
            >(final(writer).files()),
            Err(e) => edited(old(writer).files(), old(writer).big_endian(), edit@) == Err::<
                Seq<(Seq<char>, Seq<u8>)>,
                ErrorKind,
            >(e) && final(writer).files() == old(writer).files(),
        },
{
    match edit {
        Edit::Put { name, data } => writer.put(name, data),
        Edit::Remove { name } => {
            let _ = writer.take(name.as_str());
            Ok(())
        },
        Edit::Rename { name, to } => writer.rename(name.as_str(), to),
    }
}

/// The bytes to store for content under a name: compressed if the name asks
/// for it. What was compressed is decompressed again, and `Compression` is
/// the answer where that does not give the content back.
pub fn store(name: &str, bytes: Vec<u8>) -> (r: Result<Vec<u8>, ErrorKind>)
    ensures
        seen(r) == stored(name@, bytes@),
{
    if compresses_name(&chars_of(name)) {
        let small = match compress(bytes.as_slice()) {
            Ok(s) => s,
            Err(e) => {
                return Err(e);
            },
        };
        match decompress(small.as_slice()) {
            Ok(back) => if bytes_eq(back.as_slice(), bytes.as_slice()) {
                Ok(small)
            } else {
                Err(ErrorKind::Compression)
            },
            Err(e) => Err(e),
        }
    } else {
        Ok(bytes)
    }
}

/// Packs `archive` anew after `edit` was applied in the archive reached
/// through the owners from position `at` on, and reads the result back.
pub fn rebuild(archive: &Archive, owners: &Vec<String>, at: usize, edit: Edit) -> (r: Result<
    Archive,
    ErrorKind,
>)
    requires
        at <= owners.len(),
    ensures
        match r {
            Ok(a) => rebuilt(archive.bytes(), crate::tree::names(owners@).skip(at as int), edit@)
                == Ok::<Seq<u8>, ErrorKind>(a.bytes()),
            Err(e) => rebuilt(archive.bytes(), crate::tree::names(owners@).skip(at as int), edit@)
                == Err::<Seq<u8>, ErrorKind>(e),
        },
    decreases owners.len() - at,
{
    archive.known();
    let ghost rest = crate::tree::names(owners@).skip(at as int);
    let mut writer = match Writer::from_archive(archive) {
        Ok(w) => w,
        Err(e) => {
            return Err(e);
        },
    };
    if at == owners.len() {
        match apply(&mut writer, edit) {
            Ok(_) => {},
            Err(e) => {
                return Err(e);
            },
        }
    } else {
        proof {
            assert(rest[0] == owners@[at as int]@);
            assert(rest.drop_first() =~= crate::tree::names(owners@).skip(at + 1));
        }
        let payload = match archive.get(&owners[at]) {
            Some(p) => p,
            None => {
                return Err(ErrorKind::UnknownResource);
            },
        };
        let inner = match open_member(payload.as_slice()) {
            Ok(a) => a,
            Err(e) => {
                return Err(e);
            },
        };
        let member = match rebuild(&inner, owners, at + 1, edit) {
            Ok(m) => m,
            Err(e) => {
                return Err(e);
            },
        };
        let data = match store(owners[at].as_str(), copy_bytes(member.as_bytes().as_slice())) {
            Ok(d) => d,
            Err(e) => {
                return Err(e);
            },
        };
        match writer.put(owners[at].clone(), data) {
            Ok(_) => {},
            Err(e) => {
                return Err(e);
            },
        }
    }
    writer.pack()
}

/// The archive that is open, with the catalogue of stock files that goes with
/// its byte order.
pub struct OpenSarc {
    archive: Archive,
    catalogue: Catalogue,
}

/// What the open archive shows.
pub struct SarcView {
    /// The names of the files that count as modified, nested ones included.
    pub modded: Vec<String>,
    /// The tree of the files.
    pub sarc: Tree,
    /// Whether the archive is big-endian.
    pub be: bool,
}

impl OpenSarc {
    #[verifier::type_invariant]
    spec fn inv(self) -> bool {
        self.catalogue.wiiu() == self.archive.spec_big_endian()
    }

    /// The bytes of the open archive.
    pub closed spec fn bytes(&self) -> Seq<u8> {
        self.archive.bytes()
    }

    /// The named files of the open archive.
    pub closed spec fn files(&self) -> Seq<(Seq<char>, Seq<u8>)> {
        self.archive.files()
    }

    /// Whether the open archive is big-endian.
    pub closed spec fn big_endian(&self) -> bool {
        self.archive.spec_big_endian()
    }

    /// The open archive.
    pub fn archive(&self) -> (r: &Archive)
        ensures
            r.bytes() == self.bytes(),
            r.files() == self.files(),
            r.spec_big_endian() == self.big_endian(),
            readable(self.bytes()),
            self.files() == contents(self.bytes()),
            self.big_endian() == (byte_order(self.bytes()) == Some(Endian::Big)),
    {
        self.archive.known();
        &self.archive
    }

    /// Adopts an archive: the catalogue is chosen by its byte order.
    pub fn adopt(archive: Archive) -> (r: OpenSarc)
        ensures
            r.bytes() == archive.bytes(),
            r.files() == archive.files(),
            r.big_endian() == archive.spec_big_endian(),
    {
        let catalogue = Catalogue::for_byte_order(archive.big_endian());
        OpenSarc { archive, catalogue }
    }

    /// Opens the archive in `data`, which may be Yaz0-compressed.
    pub fn open(data: &[u8]) -> (r: Result<OpenSarc, ErrorKind>)
        ensures
            match r {
                Ok(s) => opened(data@) == Ok::<Seq<u8>, ErrorKind>(s.bytes()),
                Err(e) => opened(data@) == Err::<Seq<u8>, ErrorKind>(e),
            },
    {
        match open_member(data) {
            Ok(archive) => Ok(OpenSarc::adopt(archive)),
            Err(e) => Err(e),
        }
    }

    /// Makes an empty archive with the given byte order and minimum
    /// alignment, and opens it. `ParseFormat` where the alignment is no power
    /// of two or too large, and where the packer gives up or packs what cannot
    /// be read again.
    pub fn create(big_endian: bool, alignment: usize) -> (r: Result<OpenSarc, ErrorKind>)
        ensures
            match r {
                Ok(s) => created(big_endian, alignment as nat) == Some(s.bytes()) && s.big_endian()
                    == big_endian && forall|name: Seq<char>| #[trigger]
                    lookup_last(s.files(), name) is None,
                Err(e) => e == ErrorKind::ParseFormat && created(big_endian, alignment as nat)
                    is None,
            },
    {
        let writer = match Writer::new(big_endian, alignment) {
            Ok(w) => w,
            Err(e) => {
                return Err(e);
            },
        };
        match writer.pack() {
            Ok(archive) => {
                assert forall|name: Seq<char>| #[trigger]
                    lookup_last(archive.files(), name) is None by {
                    assert(lookup(Seq::<(Seq<char>, Seq<u8>)>::empty(), name) is None);
                }
                Ok(OpenSarc::adopt(archive))
            },
            Err(e) => Err(e),
        }
    }

    /// `v` is what the archive shows: every nested archive opens, none is
    /// nested deeper than 32 levels, the tree is one of names
    /// only and has exactly the chains of display names of the files, the list exactly the names that
    /// count as modified, each once, and the byte order is the archive's.
    pub open spec fn shows(&self, v: SarcView) -> bool {
        &&& failure(self.files(), 32) is None
        &&& v.be == self.big_endian()
        &&& v.sarc.plain()
        &&& v.sarc.shape().unique()
        &&& forall|path: Seq<Seq<char>>| #[trigger]
            v.sarc.shape().has_path(path) <==> shown(self.files(), 32, path)
        &&& no_repeats(v.modded@)
        &&& forall|name: Seq<char>| #[trigger]
            holds(v.modded@, name) <==> listed(
                self.files(),
                self.big_endian(),
                32,
                name,
            )
    }

    /// What the archive shows: the tree of its files, the names of the
    /// modified ones, and its byte order. Fails with the failure met first
    /// among the nested archives.
    pub fn view(&self) -> (r: Result<SarcView, ErrorKind>)
        ensures
            match r {
                Ok(v) => self.shows(v),
                Err(e) => failure(self.files(), 32) == Some(e),
            },
    {
        proof {
            use_type_invariant(self);
        }
        match create_tree(&self.archive, &self.catalogue, MAX_DEPTH) {
            Ok((sarc, modded)) => Ok(SarcView { modded, sarc, be: self.archive.big_endian() }),
            Err(e) => Err(e),
        }
    }

    /// Opens `archive` in place of what is open, if it can be shown, and
    /// gives what it shows. Where it cannot, what was open stays open.
    pub fn replace(&mut self, archive: Archive) -> (r: Result<SarcView, ErrorKind>)
        ensures
            match r {
                Ok(v) => final(self).bytes() == archive.bytes() && final(self).files()
                    == archive.files() && final(self).big_endian() == archive.spec_big_endian()
                    && final(self).shows(v),
                Err(e) => *final(self) == *old(self) && failure(
                    archive.files(),
                    32,
                ) == Some(e),
            },
    {
        let candidate = OpenSarc::adopt(archive);
        match candidate.view() {
            Ok(v) => {
                *self = candidate;
                Ok(v)
            },
            Err(e) => Err(e),
        }
    }

    /// Applies `edit` at the place `owners` lead to, packs every archive on
    /// the way back up, and opens the result in place of what was open, once
    /// it is known that it can be shown. On any failure what was open stays
    /// open, unchanged.
    pub fn modify(&mut self, owners: &Vec<String>, edit: Edit) -> (r: Result<SarcView, ErrorKind>)
        ensures
            outcome(*old(self), *final(self), r, crate::tree::names(owners@), edit@),
    {
        assert(crate::tree::names(owners@).skip(0) =~= crate::tree::names(owners@));
        match rebuild(&self.archive, owners, 0, edit) {
            Ok(archive) => {
                archive.known();
                self.replace(archive)
            },
            Err(e) => Err(e),
        }
    }
}

/// The archives that lead to the file at a location: all levels but the last.
pub open spec fn owners_of(location: Seq<char>) -> Seq<Seq<char>> {
    location_levels(location).drop_last()
}

/// The name of the file at a location inside the archive that holds it: the
/// last level.
pub open spec fn leaf_of(location: Seq<char>) -> Seq<char> {
    location_levels(location).last()
}

/// Why the archive `packed` is not opened: the failure of packing it, or
/// else the failure met first when it is shown, 32 levels deep.
pub open spec fn refused(packed: Result<Seq<u8>, ErrorKind>) -> Option<ErrorKind> {
    match packed {
        Err(e) => Some(e),
        Ok(bytes) => failure(contents(bytes), 32),
    }
}

/// What a command that asks for `change` at `owners` leaves behind: on
/// success the open archive is the one packed anew around the change, and
/// the result is what it shows; on failure the open archive is what it was.
/// The command fails where the archive cannot be packed anew, and where the
/// new archive cannot be shown.
pub open spec fn outcome(
    before: OpenSarc,
    after: OpenSarc,
    r: Result<SarcView, ErrorKind>,
    owners: Seq<Seq<char>>,
    change: Change,
) -> bool {
    match r {
        Ok(v) => rebuilt(before.bytes(), owners, change) == Ok::<Seq<u8>, ErrorKind>(
            after.bytes(),
        ) && after.shows(v),
        Err(e) => after == before && refused(rebuilt(before.bytes(), owners, change)) == Some(e),
    }
}

/// A name with `/` for every `\`.
pub open spec fn normalized(name: Seq<char>) -> Seq<char> {
    replace_all(name, backslash(), slash())
}

/// The files of a writer after the first `n` of `items` were put into it, each
/// under its normalized name.
pub open spec fn put_all(
    files: Seq<(Seq<char>, Seq<u8>)>,
    big_endian: bool,
    items: Seq<(Seq<char>, Seq<u8>)>,
    n: int,
) -> Result<Seq<(Seq<char>, Seq<u8>)>, ErrorKind>
    decreases n,
{
    if n <= 0 {
        Ok(files)
    } else {
        match put_all(files, big_endian, items, n - 1) {
            Err(e) => Err(e),
            Ok(sofar) => edited(
                sofar,
                big_endian,
                Change::Put { name: normalized(items[n - 1].0), data: items[n - 1].1 },
            ),
        }
    }
}

/// The bytes of the archive `bytes` after the files of a folder were put into
/// it.
pub open spec fn updated(bytes: Seq<u8>, items: Seq<(Seq<char>, Seq<u8>)>) -> Result<
    Seq<u8>,
    ErrorKind,
> {
    let big_endian = byte_order(bytes) == Some(Endian::Big);
    if !files_packable(contents(bytes), big_endian) {
        Err(ErrorKind::ParseFormat)
    } else {
        packed_with(
            bytes,
            put_all(collected(contents(bytes)), big_endian, items, items.len() as int),
        )
    }
}

/// The archive `bytes` packed anew as it is.
pub open spec fn repacked(bytes: Seq<u8>) -> Result<Seq<u8>, ErrorKind> {
    let big_endian = byte_order(bytes) == Some(Endian::Big);
    if !files_packable(contents(bytes), big_endian) {
        Err(ErrorKind::ParseFormat)
    } else {
        packed_with(bytes, Ok(collected(contents(bytes))))
    }
}

/// The bytes written when the archive `bytes` is saved as `file`: the archive
/// packed anew, compressed if the name asks for it.
pub open spec fn saved(bytes: Seq<u8>, file: Seq<char>) -> Result<Seq<u8>, ErrorKind> {
    match repacked(bytes) {
        Err(e) => Err(e),
        Ok(out) => stored(file, out),
    }
}

/// The files as they are written out: each under its name without leading
/// slashes.
pub open spec fn extracted(files: Seq<(Seq<char>, Seq<u8>)>) -> Seq<(Seq<char>, Seq<u8>)> {
    Seq::new(files.len(), |i: int| (trim_start(files[i].0, slash()), files[i].1))
}

/// The views of files given by name and content.
pub open spec fn item_views(items: Seq<(String, Vec<u8>)>) -> Seq<(Seq<char>, Seq<u8>)> {
    Seq::new(items.len(), |i: int| (items[i].0@, items[i].1@))
}

/// What is told about one file of the open archive.
pub struct FileMeta {
    /// The file's name without its directories.
    pub file: String,
    /// The size hint the size table would get for the file.
    pub rstb: Option<u32>,
    /// Whether the file counts as modified.
    pub modified: bool,
    /// The length of the file's content.
    pub size: usize,
    /// Whether the file can be edited as text.
    pub is_yaml: bool,
}

/// The extension of a name, empty where it has none.
pub open spec fn ext_or_empty(name: Seq<char>) -> Seq<char> {
    match extension(name) {
        Some(ext) => ext,
        None => Seq::empty(),
    }
}

/// Packs an archive anew and reads the result back. The archive that comes
/// back gives every name the payload it has in `archive`.
pub fn repack(archive: &Archive) -> (r: Result<Archive, ErrorKind>)
    ensures
        match r {
            Ok(a) => repacked(archive.bytes()) == Ok::<Seq<u8>, ErrorKind>(a.bytes())
                && a.spec_big_endian() == archive.spec_big_endian() && forall|name: Seq<char>| #[trigger]
                lookup_last(a.files(), name) == lookup_last(archive.files(), name),
            Err(e) => repacked(archive.bytes()) == Err::<Seq<u8>, ErrorKind>(e),
        },
{
    archive.known();
    let writer = match Writer::from_archive(archive) {
        Ok(w) => w,
        Err(e) => {
            return Err(e);
        },
    };
    match writer.pack() {
        Ok(a) => {
            proof {
                assert forall|name: Seq<char>| #[trigger]
                    lookup_last(a.files(), name) == lookup_last(archive.files(), name) by {
                    collected_lookup(archive.files(), name);
                }
            }
            Ok(a)
        },
        Err(e) => Err(e),
    }
}

/// Takes the last level off a location.
fn split_leaf(levels: Vec<String>) -> (r: (Vec<String>, String))
    requires
        levels.len() >= 1,
    ensures
        crate::tree::names(r.0@) == crate::tree::names(levels@).drop_last(),
        r.1@ == crate::tree::names(levels@).last(),
{
    let mut owners = levels;
    let ghost all = crate::tree::names(owners@);
    let leaf = owners.pop().unwrap();
    assert(crate::tree::names(owners@) =~= all.drop_last());
    (owners, leaf)
}

impl OpenSarc {
    /// Puts `data` into the archive at `location`, as a new file or in place
    /// of the file that is there. Afterwards the location leads to `data`.
    pub fn add_file(&mut self, location: &str, data: Vec<u8>) -> (r: Result<SarcView, ErrorKind>)
        ensures
            outcome(
                *old(self),
                *final(self),
                r,
                owners_of(location@),
                Change::Put { name: leaf_of(location@), data: data@ },
            ),
            r is Ok ==> file_put(
                old(self).files(),
                final(self).files(),
                owners_of(location@),
                leaf_of(location@),
                data@,
            ),
            r is Ok ==> resolve(final(self).files(), location_levels(location@)) == Ok::<
                Seq<u8>,
                ErrorKind,
            >(data@),
    {
        let ghost before = self.bytes();
        let ghost payload = data@;
        self.archive.known();
        let levels = parse_location(location);
        assert(owners_of(location@).push(leaf_of(location@)) =~= location_levels(location@));
        let (owners, name) = split_leaf(levels);
        let r = self.modify(&owners, Edit::Put { name, data });
        self.archive.known();
        proof {
            if r is Ok {
                put_is_found(
                    before,
                    self.bytes(),
                    owners_of(location@),
                    leaf_of(location@),
                    payload,
                );
            }
        }
        r
    }

    /// Removes the file at `location`, if it is there. Afterwards the location
    /// leads to nothing, and the files beside it are what they were.
    pub fn delete_file(&mut self, location: &str) -> (r: Result<SarcView, ErrorKind>)
        ensures
            outcome(
                *old(self),
                *final(self),
                r,
                owners_of(location@),
                Change::Remove { name: leaf_of(location@) },
            ),
            r is Ok ==> file_gone(
                old(self).files(),
                final(self).files(),
                owners_of(location@),
                leaf_of(location@),
            ),
            r is Ok ==> resolve(final(self).files(), location_levels(location@)) == Err::<
                Seq<u8>,
                ErrorKind,
            >(ErrorKind::UnknownResource),
    {
        let ghost before = self.bytes();
        self.archive.known();
        let levels = parse_location(location);
        assert(owners_of(location@).push(leaf_of(location@)) =~= location_levels(location@));
        let (owners, name) = split_leaf(levels);
        let r = self.modify(&owners, Edit::Remove { name });
        self.archive.known();
        proof {
            if r is Ok {
                removed_is_gone(before, self.bytes(), owners_of(location@), leaf_of(location@));
            }
        }
        r
    }

    /// Gives the file at `location` the name `new_name`, in the directory it
    /// is in. Afterwards the new location leads to the payload the old one led
    /// to, and the old one to nothing. `UnknownResource` where there is no
    /// file at the location.
    pub fn rename_file(&mut self, location: &str, new_name: &str) -> (r: Result<SarcView, ErrorKind>)
        ensures
            outcome(
                *old(self),
                *final(self),
                r,
                owners_of(location@),
                Change::Rename {
                    name: leaf_of(location@),
                    to: rename_target(leaf_of(location@), new_name@),
                },
            ),
            r is Ok ==> file_moved(
                old(self).files(),
                final(self).files(),
                owners_of(location@),
                leaf_of(location@),
                rename_target(leaf_of(location@), new_name@),
            ),
            r is Ok ==> resolve(old(self).files(), location_levels(location@)) is Ok,
    {
        let ghost before = self.bytes();
        self.archive.known();
        let levels = parse_location(location);
        assert(owners_of(location@).push(leaf_of(location@)) =~= location_levels(location@));
        let (owners, name) = split_leaf(levels);
        let to = string_of(&rename_target_of(&chars_of(name.as_str()), &chars_of(new_name)));
        let r = self.modify(&owners, Edit::Rename { name, to });
        self.archive.known();
        proof {
            if r is Ok {
                renamed_is_moved(
                    before,
                    self.bytes(),
                    owners_of(location@),
                    leaf_of(location@),
                    rename_target(leaf_of(location@), new_name@),
                );
            }
        }
        r
    }

    /// Puts every file of a folder into the archive, under its path relative
    /// to the folder with `/` for every `\`, in place of a file of that name
    /// or as a new one. Afterwards every name has what the folder gives it, or
    /// else what it had. On any failure what was open stays open, unchanged.
    pub fn update_folder(&mut self, items: &Vec<(String, Vec<u8>)>) -> (r: Result<SarcView, ErrorKind>)
        ensures
            match r {
                Ok(v) => updated(old(self).bytes(), item_views(items@)) == Ok::<Seq<u8>, ErrorKind>(
                    final(self).bytes(),
                ) && final(self).shows(v),
                Err(e) => *final(self) == *old(self) && refused(
                    updated(old(self).bytes(), item_views(items@)),
                ) == Some(e),
            },
            r is Ok ==> forall|name: Seq<char>| #[trigger]
                lookup_last(final(self).files(), name) == over(
                    lookup_last(folder_files(item_views(items@)), name),
                    lookup_last(old(self).files(), name),
                ),
    {
        self.archive.known();
        let ghost bytes0 = self.archive.bytes();
        let ghost start = collected(self.archive.files());
        let ghost big = self.archive.spec_big_endian();
        let ghost views = item_views(items@);
        let mut writer = match Writer::from_archive(&self.archive) {
            Ok(w) => w,
            Err(e) => {
                return Err(e);
            },
        };
        let mut i: usize = 0;
        while i < items.len()
            invariant
                i <= items.len(),
                *self == *old(self),
                bytes0 == self.bytes(),
                start == collected(contents(bytes0)),
                big == (byte_order(bytes0) == Some(Endian::Big)),
                files_packable(contents(bytes0), big),
                views == item_views(items@),
                writer.big_endian() == big,
                writer.alignment() == guessed_alignment(bytes0),
                put_all(start, big, views, i as int) == Ok::<
                    Seq<(Seq<char>, Seq<u8>)>,
                    ErrorKind,
                >(writer.files()),
            decreases items.len() - i,
        {
            let name = string_of(
                &replace(&chars_of(items[i].0.as_str()), &backslash_chars(), &slash_chars()),
            );
            let data = copy_bytes(items[i].1.as_slice());
            assert(views[i as int] == (items@[i as int].0@, items@[i as int].1@));
            let ghost sofar = writer.files();
            let ghost change = Change::Put { name: normalized(views[i as int].0), data: views[i as int].1 };
            assert(name@ == normalized(views[i as int].0));
            assert(put_all(start, big, views, i + 1) == edited(sofar, big, change));
            match writer.put(name, data) {
                Ok(_) => {},
                Err(e) => {
                    proof {
                        assert(edited(sofar, big, change) == Err::<
                            Seq<(Seq<char>, Seq<u8>)>,
                            ErrorKind,
                        >(e));
                        put_all_stops(start, big, views, i + 1, items.len() as int);
                    }
                    return Err(e);
                },
            }
            i += 1;
        }
        let ghost before = self.archive.files();
        match writer.pack() {
            Ok(archive) => {
                proof {
                    collected_distinct(before);
                    assert(views.take(views.len() as int) =~= views);
                    assert(folder_files(views).take(views.len() as int) =~= folder_files(views));
                    assert forall|name: Seq<char>| #[trigger]
                        lookup_last(archive.files(), name) == over(
                            lookup_last(folder_files(views), name),
                            lookup_last(before, name),
                        ) by {
                        put_all_lookup(start, big, views, views.len() as int, name);
                        collected_lookup(before, name);
                    }
                }
                archive.known();
                self.replace(archive)
            },
            Err(e) => Err(e),
        }
    }

    /// The bytes to write when the archive is saved as `file`: the archive
    /// packed anew, Yaz0-compressed if the name asks for it.
    pub fn save(&self, file: &str) -> (r: Result<Vec<u8>, ErrorKind>)
        ensures
            seen(r) == saved(self.bytes(), file@),
    {
        match repack(&self.archive) {
            Ok(archive) => store(file, copy_bytes(archive.as_bytes().as_slice())),
            Err(e) => Err(e),
        }
    }

    /// The files of the archive as they are written out below a folder: each
    /// with its name, leading slashes left out, as its path.
    pub fn extract_all(&self) -> (r: Vec<(String, Vec<u8>)>)
        ensures
            item_views(r@) == extracted(self.files()),
    {
        let entries = self.archive.entries();
        let ghost files = self.archive.files();
        let mut r: Vec<(String, Vec<u8>)> = Vec::new();
        let mut i: usize = 0;
        while i < entries.len()
            invariant
                i <= entries.len(),
                crate::archive::entry_views(entries@) == files,
                r.len() == i,
                forall|k: int| 0 <= k < i ==> (#[trigger] r@[k]).0@ == trim_start(files[k].0, slash())
                    && r@[k].1@ == files[k].1,
            decreases entries.len() - i,
        {
            assert(files[i as int] == (entries@[i as int].name@, entries@[i as int].data@));
            let path = string_of(
                &trim_start_of(&chars_of(entries[i].name.as_str()), &slash_chars()),
            );
            r.push((path, copy_bytes(entries[i].data.as_slice())));
            i += 1;
        }
        assert(item_views(r@) =~= extracted(files));
        r
    }

    /// The content of the file at `location`.
    pub fn extract_file(&self, location: &str) -> (r: Result<Vec<u8>, ErrorKind>)
        ensures
            seen(r) == resolve(self.files(), lookup_levels(location@)),
    {
        open_nested_file(&self.archive, location)
    }

    /// What there is to tell about the file at `location`, which is looked
    /// up as it stands but for trailing slashes: its name without
    /// directories, the size hint for its content on the archive's platform,
    /// whether it counts as modified, how long its content is, and whether it
    /// can be edited as text.
    pub fn get_file_meta(&self, location: &str) -> (r: Result<FileMeta, ErrorKind>)
        ensures
            match r {
                Ok(meta) => resolve(self.files(), lookup_levels(location@)) matches Ok(data)
                    && described(meta, lookup_levels(location@).last(), data, self.big_endian()),
                Err(e) => resolve(self.files(), lookup_levels(location@)) == Err::<
                    Seq<u8>,
                    ErrorKind,
                >(e),
            },
    {
        proof {
            use_type_invariant(self);
        }
        let levels = parse_lookup(location);
        let data = match read_at(&self.archive, &levels) {
            Ok(d) => d,
            Err(e) => {
                return Err(e);
            },
        };
        let leaf = chars_of(levels[levels.len() - 1].as_str());
        let ext = match extension_of(&leaf) {
            Some(e) => string_of(&e),
            None => String::new(),
        };
        let endian = if self.archive.big_endian() {
            Endian::Big
        } else {
            Endian::Little
        };
        let bare = string_of(&trim_start_of(&leaf, &slash_chars()));
        Ok(
            FileMeta {
                file: string_of(&file_name_of(&leaf)),
                rstb: calc_size_with_ext(data.as_slice(), ext.as_str(), endian),
                modified: self.catalogue.is_modified(bare.as_str(), data.as_slice()),
                size: data.len(),
                is_yaml: is_editable_ext(ext.as_str()),
            },
        )
    }
}

/// `meta` describes the file called `name` with content `data` in an archive
/// of the given byte order.
pub open spec fn described(meta: FileMeta, name: Seq<char>, data: Seq<u8>, big_endian: bool) -> bool {
    let endian = if big_endian {
        Endian::Big
    } else {
        Endian::Little
    };
    &&& meta.file@ == file_name(name)
    &&& meta.rstb == hint(data, ext_or_empty(name), endian)
    &&& meta.modified == flagged(big_endian, trim_start(name, slash()), data)
    &&& meta.size == data.len()
    &&& meta.is_yaml == editable_ext(ext_or_empty(name))
}

/// An archive that can be read is not a Yaz0 stream, so it is stored as it
/// is where it is stored plain.
pub proof fn archive_is_plain(bytes: Seq<u8>)
    requires
        readable(bytes),
    ensures
        plain(bytes) == Some(bytes),
        opened(bytes) == Ok::<Seq<u8>, ErrorKind>(bytes),
{
    assert(has_magic(bytes, 0, sarc_magic()));
    assert(bytes.subrange(0, 4)[0] == 0x53u8);
    if has_magic(bytes, 0, yaz0_magic()) {
        assert(bytes.subrange(0, 4)[0] == 0x59u8);
    }
}

/// What stands stored under a name opens as the archive that was stored.
pub proof fn stored_opens(name: Seq<char>, bytes: Seq<u8>)
    requires
        readable(bytes),
        stored(name, bytes) is Ok,
    ensures
        opened(stored(name, bytes).unwrap()) == Ok::<Seq<u8>, ErrorKind>(bytes),
{
    if compresses(name) {
        let small = deflated(bytes).unwrap();
        assert(well_formed(small));
        assert(plain(small) == Some(bytes));
    } else {
        archive_is_plain(bytes);
    }
}

/// The file at a location is the file of its last level in the archive that
/// the levels before lead to.
pub proof fn resolve_through(bytes: Seq<u8>, owners: Seq<Seq<char>>, leaf: Seq<char>)
    ensures
        resolve(contents(bytes), owners.push(leaf)) == match reached(bytes, owners) {
            Err(e) => Err(e),
            Ok(inner) => found(lookup_last(contents(inner), leaf)),
        },
    decreases owners.len(),
{
    let levels = owners.push(leaf);
    if owners.len() == 0 {
        assert(levels.drop_first() =~= Seq::<Seq<char>>::empty());
    } else {
        let rest = owners.drop_first();
        assert(levels[0] == owners[0]);
        assert(levels.drop_first() =~= rest.push(leaf));
        match lookup_last(contents(bytes), owners[0]) {
            None => {},
            Some(payload) => {
                match opened(payload) {
                    Err(_) => {},
                    Ok(inner) => {
                        resolve_through(inner, rest, leaf);
                        assert(rest.push(leaf)[0] == if rest.len() == 0 {
                            leaf
                        } else {
                            rest[0]
                        });
                    },
                }
            },
        }
    }
}

/// After a change has been applied at `owners` and every archive on the way
/// packed anew, the files of the archive at `owners` are the changed files:
/// each name there has the payload the change gave it.
pub proof fn edit_reaches(
    old_bytes: Seq<u8>,
    new_bytes: Seq<u8>,
    owners: Seq<Seq<char>>,
    change: Change,
    leaf: Seq<char>,
)
    requires
        rebuilt(old_bytes, owners, change) == Ok::<Seq<u8>, ErrorKind>(new_bytes),
    ensures
        readable(new_bytes),
        reached(old_bytes, owners) is Ok,
        edited_at(old_bytes, owners, change) is Ok,
        resolve(contents(new_bytes), owners.push(leaf)) == found(
            lookup(edited_at(old_bytes, owners, change).unwrap(), leaf),
        ),
    decreases owners.len(),
{
    let big_endian = byte_order(old_bytes) == Some(Endian::Big);
    let files = changed(old_bytes, owners, change).unwrap();
    assert(faithful(files, big_endian, guessed_alignment(old_bytes)));
    assert(agrees(contents(new_bytes), files));
    if owners.len() == 0 {
        assert(owners.push(leaf).drop_first() =~= Seq::<Seq<char>>::empty());
        assert(lookup_last(contents(new_bytes), leaf) == lookup(files, leaf));
    } else {
        let rest = owners.drop_first();
        let levels = owners.push(leaf);
        assert(levels[0] == owners[0]);
        assert(levels.drop_first() =~= rest.push(leaf));
        let payload = lookup_last(contents(old_bytes), owners[0]).unwrap();
        let inner = opened(payload).unwrap();
        let member = rebuilt(inner, rest, change).unwrap();
        let data = stored(owners[0], member).unwrap();
        edit_reaches(inner, member, rest, change, leaf);
        stored_opens(owners[0], member);
        collected_distinct(contents(old_bytes));
        upsert_spec(collected(contents(old_bytes)), owners[0], data);
        assert(lookup_last(contents(new_bytes), owners[0]) == lookup(files, owners[0]));
        assert(lookup(files, owners[0]) == Some(data));
        // from the member on, the way down is the way down in the member
        resolve_through(member, rest, leaf);
        assert(descend(data, rest.push(leaf)) == resolve(contents(member), rest.push(leaf))) by {
            assert(rest.push(leaf).len() > 0);
        }
    }
}

/// The files of the archive at `owners` after `change` was applied there.
pub open spec fn edited_at(bytes: Seq<u8>, owners: Seq<Seq<char>>, change: Change) -> Result<
    Seq<(Seq<char>, Seq<u8>)>,
    ErrorKind,
> {
    match reached(bytes, owners) {
        Err(e) => Err(e),
        Ok(inner) => edited(
            collected(contents(inner)),
            byte_order(inner) == Some(Endian::Big),
            change,
        ),
    }
}

/// Every file beside those named keeps what it had: a location with the
/// same owners and another last level leads to the same payload, or to none,
/// as before.
pub open spec fn others_kept(
    before: Seq<(Seq<char>, Seq<u8>)>,
    after: Seq<(Seq<char>, Seq<u8>)>,
    owners: Seq<Seq<char>>,
    first: Seq<char>,
    second: Seq<char>,
) -> bool {
    forall|other: Seq<char>|
        other != first && other != second ==> #[trigger] resolve(after, owners.push(other))
            == resolve(before, owners.push(other))
}

/// The file `leaf` at `owners` holds `data`, and every other file there what
/// it held before.
pub open spec fn file_put(
    before: Seq<(Seq<char>, Seq<u8>)>,
    after: Seq<(Seq<char>, Seq<u8>)>,
    owners: Seq<Seq<char>>,
    leaf: Seq<char>,
    data: Seq<u8>,
) -> bool {
    &&& resolve(after, owners.push(leaf)) == Ok::<Seq<u8>, ErrorKind>(data)
    &&& others_kept(before, after, owners, leaf, leaf)
}

/// There is no file `leaf` at `owners`, and every other file there holds what
/// it held before.
pub open spec fn file_gone(
    before: Seq<(Seq<char>, Seq<u8>)>,
    after: Seq<(Seq<char>, Seq<u8>)>,
    owners: Seq<Seq<char>>,
    leaf: Seq<char>,
) -> bool {
    &&& resolve(after, owners.push(leaf)) == Err::<Seq<u8>, ErrorKind>(ErrorKind::UnknownResource)
    &&& others_kept(before, after, owners, leaf, leaf)
}

/// The file that was `leaf` at `owners` is `target` there now: `target` holds
/// the payload that `leaf` held, `leaf` is gone unless it is `target` itself,
/// and every other file holds what it held before.
pub open spec fn file_moved(
    before: Seq<(Seq<char>, Seq<u8>)>,
    after: Seq<(Seq<char>, Seq<u8>)>,
    owners: Seq<Seq<char>>,
    leaf: Seq<char>,
    target: Seq<char>,
) -> bool {
    &&& resolve(before, owners.push(leaf)) is Ok
    &&& resolve(after, owners.push(target)) == resolve(before, owners.push(leaf))
    &&& target != leaf ==> resolve(after, owners.push(leaf)) == Err::<Seq<u8>, ErrorKind>(
        ErrorKind::UnknownResource,
    )
    &&& others_kept(before, after, owners, leaf, target)
}

/// What a location led to before a change is what its last level had in the
/// collected files of the archive its owners lead to.
proof fn before_change(bytes: Seq<u8>, owners: Seq<Seq<char>>, leaf: Seq<char>)
    requires
        reached(bytes, owners) is Ok,
    ensures
        resolve(contents(bytes), owners.push(leaf)) == found(
            lookup(collected(contents(reached(bytes, owners).unwrap())), leaf),
        ),
{
    resolve_through(bytes, owners, leaf);
    collected_lookup(contents(reached(bytes, owners).unwrap()), leaf);
}

/// After a file was put at a location, the location leads to what was put,
/// and its neighbours to what they led to before.
pub proof fn put_is_found(
    old_bytes: Seq<u8>,
    new_bytes: Seq<u8>,
    owners: Seq<Seq<char>>,
    leaf: Seq<char>,
    data: Seq<u8>,
)
    requires
        rebuilt(old_bytes, owners, Change::Put { name: leaf, data }) == Ok::<Seq<u8>, ErrorKind>(
            new_bytes,
        ),
    ensures
        file_put(contents(old_bytes), contents(new_bytes), owners, leaf, data),
{
    let change = Change::Put { name: leaf, data };
    edit_reaches(old_bytes, new_bytes, owners, change, leaf);
    let had = collected(contents(reached(old_bytes, owners).unwrap()));
    collected_distinct(contents(reached(old_bytes, owners).unwrap()));
    upsert_spec(had, leaf, data);
    assert forall|other: Seq<char>| other != leaf implies #[trigger] resolve(
        contents(new_bytes),
        owners.push(other),
    ) == resolve(contents(old_bytes), owners.push(other)) by {
        edit_reaches(old_bytes, new_bytes, owners, change, other);
        before_change(old_bytes, owners, other);
    }
}

/// After a file was removed at a location, the location leads to nothing,
/// and its neighbours to what they led to before.
pub proof fn removed_is_gone(
    old_bytes: Seq<u8>,
    new_bytes: Seq<u8>,
    owners: Seq<Seq<char>>,
    leaf: Seq<char>,
)
    requires
        rebuilt(old_bytes, owners, Change::Remove { name: leaf }) == Ok::<Seq<u8>, ErrorKind>(
            new_bytes,
        ),
    ensures
        file_gone(contents(old_bytes), contents(new_bytes), owners, leaf),
{
    let change = Change::Remove { name: leaf };
    edit_reaches(old_bytes, new_bytes, owners, change, leaf);
    let had = collected(contents(reached(old_bytes, owners).unwrap()));
    collected_distinct(contents(reached(old_bytes, owners).unwrap()));
    swap_removed_spec(had, leaf);
    assert forall|other: Seq<char>| other != leaf implies #[trigger] resolve(
        contents(new_bytes),
        owners.push(other),
    ) == resolve(contents(old_bytes), owners.push(other)) by {
        edit_reaches(old_bytes, new_bytes, owners, change, other);
        before_change(old_bytes, owners, other);
    }
}

/// After a file was renamed, exactly one of the two locations leads to a
/// file: the new one, to the very payload the old one led to, and the old
/// one to nothing, unless the two are one and the same. Every other file
/// among its neighbours is what it was.
pub proof fn renamed_is_moved(
    old_bytes: Seq<u8>,
    new_bytes: Seq<u8>,
    owners: Seq<Seq<char>>,
    leaf: Seq<char>,
    target: Seq<char>,
)
    requires
        rebuilt(old_bytes, owners, Change::Rename { name: leaf, to: target }) == Ok::<
            Seq<u8>,
            ErrorKind,
        >(new_bytes),
    ensures
        file_moved(contents(old_bytes), contents(new_bytes), owners, leaf, target),
{
    let change = Change::Rename { name: leaf, to: target };
    edit_reaches(old_bytes, new_bytes, owners, change, leaf);
    edit_reaches(old_bytes, new_bytes, owners, change, target);
    let inner = reached(old_bytes, owners).unwrap();
    let had = collected(contents(inner));
    collected_distinct(contents(inner));
    let payload = lookup(had, leaf).unwrap();
    swap_removed_spec(had, leaf);
    upsert_spec(swap_removed(had, leaf), target, payload);
    before_change(old_bytes, owners, leaf);
    assert forall|other: Seq<char>| other != leaf && other != target implies #[trigger] resolve(
        contents(new_bytes),
        owners.push(other),
    ) == resolve(contents(old_bytes), owners.push(other)) by {
        edit_reaches(old_bytes, new_bytes, owners, change, other);
        before_change(old_bytes, owners, other);
    }
}

/// The files of a folder under the names they get in an archive.
pub open spec fn folder_files(items: Seq<(Seq<char>, Seq<u8>)>) -> Seq<(Seq<char>, Seq<u8>)> {
    Seq::new(items.len(), |i: int| (normalized(items[i].0), items[i].1))
}

/// What a name has after the files of a folder were put over the files of an
/// archive: what the folder gives it, or else what the archive had for it.
pub open spec fn over(above: Option<Seq<u8>>, below: Option<Seq<u8>>) -> Option<Seq<u8>> {
    match above {
        Some(data) => Some(data),
        None => below,
    }
}

/// After the first `n` files of a folder were put into a map, every name has
/// what the last of those files with its name holds, or else what it had.
pub proof fn put_all_lookup(
    files: Seq<(Seq<char>, Seq<u8>)>,
    big_endian: bool,
    items: Seq<(Seq<char>, Seq<u8>)>,
    n: int,
    name: Seq<char>,
)
    requires
        distinct_keys(files),
        0 <= n <= items.len(),
        put_all(files, big_endian, items, n) is Ok,
    ensures
        distinct_keys(put_all(files, big_endian, items, n).unwrap()),
        lookup(put_all(files, big_endian, items, n).unwrap(), name) == over(
            lookup_last(folder_files(items).take(n), name),
            lookup(files, name),
        ),
    decreases n,
{
    if n > 0 {
        let sofar = put_all(files, big_endian, items, n - 1).unwrap();
        put_all_lookup(files, big_endian, items, n - 1, name);
        let key = normalized(items[n - 1].0);
        upsert_spec(sofar, key, items[n - 1].1);
        let upto = folder_files(items).take(n);
        assert(upto.drop_last() =~= folder_files(items).take(n - 1));
        assert(upto.last() == (key, items[n - 1].1));
    } else {
        assert(folder_files(items).take(0) =~= Seq::empty());
    }
}

/// Once a put has failed, the failure stands whatever follows.
pub proof fn put_all_stops(
    files: Seq<(Seq<char>, Seq<u8>)>,
    big_endian: bool,
    items: Seq<(Seq<char>, Seq<u8>)>,
    at: int,
    n: int,
)
    requires
        0 <= at <= n,
        put_all(files, big_endian, items, at) is Err,
    ensures
        put_all(files, big_endian, items, n) == put_all(files, big_endian, items, at),
    decreases n - at,
{
    if at < n {
        put_all_stops(files, big_endian, items, at, n - 1);
    }
}

} // verus!
