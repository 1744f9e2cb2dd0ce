//! Documents that are edited as text: AAMP parameter archives, BYML documents
//! and MSBT message tables.
//!
//! What stands here is what is decided about such a document: which format
//! and byte order a buffer has, that a document keeps both when its edited
//! text is taken back, and where and in what form it is saved.
//!
//! Turning a binary into text and text into a binary is the work of `roead`.
//! A document goes both ways from here, once its layout was checked. The
//! text of an AAMP archive is written with the names of a table that
//! `roead` keeps for the whole process: `StockNames` stands for that table,
//! and the names that an archive asks for are looked at before the text is
//! made. Message tables are turned by a library of their own: for them the
//! caller makes the text and the binary.

use crate::aamp::gathered;
use crate::archive::{byte_len, name_bytes};
use crate::byml::{check_sound, sound};
use crate::bytes::{copy_bytes, has_magic, magic_at};
use crate::error::ErrorKind;
use crate::nesting::{check_shallow, shallow};
use crate::paths::sarc_prefix;
use crate::sarc::{location_levels, parse_location, seen, store, stored};
use crate::text::{
    append_chars, chars_of, decimal, decimal_of, has_prefix, starts_with, string_of,
};
use crate::yaz0::{decompress_if, plain};
use std::sync::Arc;
use vstd::prelude::*;

verus! {

/// The byte order of a document.
#[derive(Debug, Clone, Copy, PartialEq, Eq, Structural)]
pub enum YamlEndian {
    Big,
    Little,
}

/// The format of a document.
#[derive(Debug, Clone, Copy, PartialEq, Eq, Structural)]
pub enum Format {
    Aamp,
    Byml,
    Msbt,
}

impl Format {
    /// The short name of the format, as it is shown to the user.
    pub fn name(&self) -> (r: &'static str)
        ensures
            r@ == self.spec_name(),
    {
        match self {
            Format::Aamp => "aamp",
            Format::Byml => "byml",
            Format::Msbt => "msbt",
        }
    }

    pub open spec fn spec_name(&self) -> Seq<char> {
        match self {
            Format::Aamp => "aamp"@,
            Format::Byml => "byml"@,
            Format::Msbt => "msbt"@,
        }
    }
}

/// `"AAMP"`
pub open spec fn aamp_magic() -> Seq<u8> {
    seq![0x41u8, 0x41u8, 0x4Du8, 0x50u8]
}

/// `"MsgS"`, the first half of the MSBT magic `"MsgStdBn"`.
pub open spec fn msbt_magic_head() -> Seq<u8> {
    seq![0x4Du8, 0x73u8, 0x67u8, 0x53u8]
}

/// `"tdBn"`, the second half of the MSBT magic.
pub open spec fn msbt_magic_tail() -> Seq<u8> {
    seq![0x74u8, 0x64u8, 0x42u8, 0x6Eu8]
}

/// The format and byte order of a buffer. The first rule that fits decides:
/// the AAMP magic makes an AAMP document, always little-endian; `BY` or `YB`
/// at the start a BYML document, big-endian or little-endian; the MSBT magic a
/// message table, whose byte order mark at offset 8 is `FE FF` for big-endian
/// and `FF FE` for little-endian. A message table with any other mark is
/// refused with `ParseFormat`; a buffer that no rule fits is not of a known
/// format.
pub open spec fn detected(data: Seq<u8>) -> Result<(Format, YamlEndian), ErrorKind> {
    if has_magic(data, 0, aamp_magic()) {
        Ok((Format::Aamp, YamlEndian::Little))
    } else if data.len() >= 2 && data[0] == 0x42 && data[1] == 0x59 {
        Ok((Format::Byml, YamlEndian::Big))
    } else if data.len() >= 2 && data[0] == 0x59 && data[1] == 0x42 {
        Ok((Format::Byml, YamlEndian::Little))
    } else if has_magic(data, 0, msbt_magic_head()) && has_magic(data, 4, msbt_magic_tail()) {
        if data.len() >= 10 && data[8] == 0xFE && data[9] == 0xFF {
            Ok((Format::Msbt, YamlEndian::Big))
        } else if data.len() >= 10 && data[8] == 0xFF && data[9] == 0xFE {
            Ok((Format::Msbt, YamlEndian::Little))
        } else {
            Err(ErrorKind::ParseFormat)
        }
    } else {
        Err(ErrorKind::NotAKnownFormat)
    }
}

/// Finds the format and byte order of a buffer.
pub fn detect(data: &[u8]) -> (r: Result<(Format, YamlEndian), ErrorKind>)
    ensures
        r == detected(data@),
{
    let aamp: [u8; 4] = [0x41u8, 0x41u8, 0x4Du8, 0x50u8];
    let head: [u8; 4] = [0x4Du8, 0x73u8, 0x67u8, 0x53u8];
    let tail: [u8; 4] = [0x74u8, 0x64u8, 0x42u8, 0x6Eu8];
    assert(aamp@ =~= aamp_magic());
    assert(head@ =~= msbt_magic_head());
    assert(tail@ =~= msbt_magic_tail());
    if magic_at(data, 0, aamp) {
        Ok((Format::Aamp, YamlEndian::Little))
    } else if data.len() >= 2 && data[0] == 0x42 && data[1] == 0x59 {
        Ok((Format::Byml, YamlEndian::Big))
    } else if data.len() >= 2 && data[0] == 0x59 && data[1] == 0x42 {
        Ok((Format::Byml, YamlEndian::Little))
    } else if magic_at(data, 0, head) && magic_at(data, 4, tail) {
        if data.len() >= 10 && data[8] == 0xFE && data[9] == 0xFF {
            Ok((Format::Msbt, YamlEndian::Big))
        } else if data.len() >= 10 && data[8] == 0xFF && data[9] == 0xFE {
            Ok((Format::Msbt, YamlEndian::Little))
        } else {
            Err(ErrorKind::ParseFormat)
        }
    } else {
        Err(ErrorKind::NotAKnownFormat)
    }
}

/// The YAML text that `roead` writes for the BYML document it reads from
/// `binary`; none where it reads no document.
pub uninterp spec fn byml_text(binary: Seq<u8>) -> Option<Seq<char>>;

/// The BYML binary of a version that `roead` writes, in the given byte
/// order, for the document it reads from YAML text; none where it reads no
/// document, or one that its writer refuses: one whose root holds no nodes
/// and is not null.
pub uninterp spec fn byml_binary(text: Seq<char>, big_endian: bool, version: u16) -> Option<
    Seq<u8>,
>;

/// The AAMP binary that `roead` writes for the parameter archive it reads
/// from YAML text; none where it reads none or cannot write it.
pub uninterp spec fn aamp_binary(text: Seq<char>) -> Option<Seq<u8>>;

/// Whether `roead` reads a parameter archive from `binary`.
pub uninterp spec fn aamp_reads(binary: Seq<u8>) -> bool;

/// Calls `roead::aamp::ParameterIO::from_binary` and tells whether it read an
/// archive. The reader is handed sound archives only: in others it may
/// overrun its string buffer, take bytes for text that are none, or not
/// come to an end.
#[verifier::external_body]
fn aamp_is_read(binary: &[u8]) -> (r: bool)
    requires
        crate::aamp::sound(binary@),
    ensures
        r == aamp_reads(binary@),
{
    roead::aamp::ParameterIO::from_binary(binary).is_ok()
}

/// Calls `roead::byml::Byml::from_binary` and, on the document read,
/// `Byml::to_text`. The reader is handed sound documents only: in others it
/// may overrun its string buffer, wrap its offsets or not come to an end.
/// The text is a function of the binary alone: maps are written with their
/// keys in order.
#[verifier::external_body]
fn byml_to_text(binary: &[u8]) -> (r: Option<String>)
    requires
        sound(binary@),
    ensures
        match r {
            Some(t) => byml_text(binary@) == Some(t@),
            None => byml_text(binary@) is None,
        },
{
    let doc = roead::byml::Byml::from_binary(binary).ok()?;
    Some(doc.to_text())
}

/// Calls `roead::byml::Byml::from_text` and, on the document read,
/// `Byml::write` into a buffer, with the byte order and the version given;
/// the writer takes the versions 1 to 7. The reader is handed shallow text
/// only: it goes down the levels of a text without counting them.
#[verifier::external_body]
fn byml_from_text(text: &str, big_endian: bool, version: u16) -> (r: Option<Vec<u8>>)
    requires
        shallow(text@),
        1 <= version <= 7,
    ensures
        match r {
            Some(b) => byml_binary(text@, big_endian, version) == Some(b@),
            None => byml_binary(text@, big_endian, version) is None,
        },
{
    let endian = if big_endian { roead::Endian::Big } else { roead::Endian::Little };
    let doc = roead::byml::Byml::from_text(text).ok()?;
    let mut out: Vec<u8> = Vec::new();
    doc.write(&mut std::io::Cursor::new(&mut out), endian, version).ok()?;
    Some(out)
}

/// Calls `roead::aamp::ParameterIO::from_text` and, on the archive read,
/// `ParameterIO::write` into a buffer. Names are hashed, never looked up, so the binary
/// is a function of the text alone. The reader is handed shallow text only:
/// it goes down the levels of a text without counting them.
#[verifier::external_body]
fn aamp_from_text(text: &str) -> (r: Option<Vec<u8>>)
    requires
        shallow(text@),
    ensures
        match r {
            Some(b) => aamp_binary(text@) == Some(b@),
            None => aamp_binary(text@) is None,
        },
{
    let doc = roead::aamp::ParameterIO::from_text(text).ok()?;
    let mut out: Vec<u8> = Vec::new();
    doc.write(std::io::Cursor::new(&mut out)).ok()?;
    Some(out)
}

/// The BYML binary of a version that `roead` writes, in the given byte
/// order, for the document it reads from `binary`; none where it reads no
/// document.
pub uninterp spec fn byml_rewritten(binary: Seq<u8>, big_endian: bool, version: u16) -> Option<
    Seq<u8>,
>;

/// The AAMP binary that `roead` writes for the parameter archive it reads
/// from `binary`; none where it reads none or cannot write it.
pub uninterp spec fn aamp_rewritten(binary: Seq<u8>) -> Option<Seq<u8>>;

/// Calls `roead::byml::Byml::from_binary` and, on the document read,
/// `Byml::write` into a buffer, with the byte order and the version given;
/// the writer takes the versions 1 to 7. The reader is handed sound
/// documents only.
#[verifier::external_body]
fn byml_rewrite(binary: &[u8], big_endian: bool, version: u16) -> (r: Option<Vec<u8>>)
    requires
        sound(binary@),
        1 <= version <= 7,
    ensures
        match r {
            Some(b) => byml_rewritten(binary@, big_endian, version) == Some(b@),
            None => byml_rewritten(binary@, big_endian, version) is None,
        },
{
    let endian = if big_endian { roead::Endian::Big } else { roead::Endian::Little };
    let doc = roead::byml::Byml::from_binary(binary).ok()?;
    let mut out: Vec<u8> = Vec::new();
    doc.write(&mut std::io::Cursor::new(&mut out), endian, version).ok()?;
    Some(out)
}

/// Calls `roead::aamp::ParameterIO::from_binary` and, on the archive read,
/// `ParameterIO::write` into a buffer. The reader is handed sound archives
/// only.
#[verifier::external_body]
fn aamp_rewrite(binary: &[u8]) -> (r: Option<Vec<u8>>)
    requires
        crate::aamp::sound(binary@),
    ensures
        match r {
            Some(b) => aamp_rewritten(binary@) == Some(b@),
            None => aamp_rewritten(binary@) is None,
        },
{
    let doc = roead::aamp::ParameterIO::from_binary(binary).ok()?;
    let mut out: Vec<u8> = Vec::new();
    doc.write(std::io::Cursor::new(&mut out)).ok()?;
    Some(out)
}

/// A binary of this format can be read as far as this library reads it: a
/// BYML document and an AAMP archive are sound, and `roead` reads them. Of a
/// message table nothing is asked here.
pub open spec fn legible(format: Format, binary: Seq<u8>) -> bool {
    match format {
        Format::Byml => sound(binary) && byml_text(binary) is Some,
        Format::Aamp => crate::aamp::sound(binary) && aamp_reads(binary),
        Format::Msbt => true,
    }
}

/// Decides `legible`.
pub fn check_legible(format: Format, binary: &[u8]) -> (r: bool)
    ensures
        r == legible(format, binary@),
{
    match format {
        Format::Byml => check_sound(binary) && byml_to_text(binary).is_some(),
        Format::Aamp => crate::aamp::check_sound(binary) && aamp_is_read(binary),
        Format::Msbt => true,
    }
}

/// The version of BYML in which documents are written.
pub const BYML_VERSION: u16 = 2;

/// The binary that edited text turns into for a document of this format and
/// byte order, where this library turns it: BYML and AAMP text that is
/// shallow.
pub open spec fn rewritten(text: Seq<char>, format: Format, endian: YamlEndian) -> Option<Seq<u8>> {
    if !shallow(text) {
        None
    } else {
        match format {
            Format::Byml => byml_binary(text, endian == YamlEndian::Big, 2),
            Format::Aamp => aamp_binary(text),
            Format::Msbt => None,
        }
    }
}

/// The binary in the form that `roead` writes it: a message table as it is.
pub open spec fn reformed(format: Format, endian: YamlEndian, content: Seq<u8>) -> Option<Seq<u8>> {
    match format {
        Format::Byml => byml_rewritten(content, endian == YamlEndian::Big, 2),
        Format::Aamp => aamp_rewritten(content),
        Format::Msbt => Some(content),
    }
}

/// What becomes of a buffer that is opened as a document: its format and
/// byte order are found; a BYML or AAMP document has to be one that can be
/// read, is read and written anew, and what was written has to be of the
/// same format and byte order and one that can be read. The document is
/// what was written. `ParseFormat` where one of these fails.
pub open spec fn taken_in(content: Seq<u8>) -> Result<(Format, YamlEndian, Seq<u8>), ErrorKind> {
    match detected(content) {
        Err(e) => Err(e),
        Ok((format, endian)) => if !legible(format, content) {
            Err(ErrorKind::ParseFormat)
        } else {
            match reformed(format, endian, content) {
                None => Err(ErrorKind::ParseFormat),
                Some(binary) => if fits_document(Some(binary), format, endian) {
                    Ok((format, endian, binary))
                } else {
                    Err(ErrorKind::ParseFormat)
                },
            }
        },
    }
}

/// What a document is, as a value of mathematics.
pub open spec fn parts(doc: Yaml) -> (Format, YamlEndian, Seq<u8>) {
    (doc.spec_format(), doc.spec_endian(), doc.bytes())
}

/// The view of the result of opening a document.
pub open spec fn opened_as(r: Result<Yaml, ErrorKind>) -> Result<
    (Format, YamlEndian, Seq<u8>),
    ErrorKind,
> {
    match r {
        Ok(doc) => Ok(parts(doc)),
        Err(e) => Err(e),
    }
}

/// The view of a binary that may be missing.
pub open spec fn bytes_of(edited: Option<Vec<u8>>) -> Option<Seq<u8>> {
    match edited {
        Some(binary) => Some(binary@),
        None => None,
    }
}

/// The document that is open: its binary form, with the format and byte order
/// that the binary shows.
pub struct Yaml {
    format: Format,
    endian: YamlEndian,
    binary: Vec<u8>,
}

/// Where a document is saved.
pub enum SaveTarget {
    /// To the file of that name.
    Disk,
    /// Into the open archive, at the location with these levels.
    Archive { levels: Vec<String> },
}

impl Yaml {
    #[verifier::type_invariant]
    spec fn inv(self) -> bool {
        &&& detected(self.binary@) == Ok::<(Format, YamlEndian), ErrorKind>(
            (self.format, self.endian),
        )
        &&& legible(self.format, self.binary@)
    }

    /// The binary form of the document.
    pub closed spec fn bytes(&self) -> Seq<u8> {
        self.binary@
    }

    /// The format of the document.
    pub closed spec fn spec_format(&self) -> Format {
        self.format
    }

    /// The byte order of the document.
    pub closed spec fn spec_endian(&self) -> YamlEndian {
        self.endian
    }

    /// Opens the document in `data`, which may be Yaz0-compressed. The
    /// document is kept in the form in which it is written anew.
    ///
    /// Fails with `Compression` where compressed content cannot be
    /// decompressed, with `NotAKnownFormat` where the content is of none of
    /// the three formats, and with `ParseFormat` where a message table has no
    /// valid byte order mark or a BYML or AAMP document cannot be read or
    /// written anew.
    pub fn from_binary(data: &[u8]) -> (r: Result<Yaml, ErrorKind>)
        ensures
            match plain(data@) {
                Some(content) => opened_as(r) == taken_in(content),
                None => r matches Err(e) && e == ErrorKind::Compression,
            },
    {
        let content = match decompress_if(data) {
            Ok(b) => b,
            Err(e) => {
                return Err(e);
            },
        };
        let (format, endian) = match detect(content.as_slice()) {
            Ok(found) => found,
            Err(e) => {
                return Err(e);
            },
        };
        if !check_legible(format, content.as_slice()) {
            return Err(ErrorKind::ParseFormat);
        }
        let big_endian = match endian {
            YamlEndian::Big => true,
            YamlEndian::Little => false,
        };
        let written = match format {
            Format::Byml => byml_rewrite(content.as_slice(), big_endian, BYML_VERSION),
            Format::Aamp => aamp_rewrite(content.as_slice()),
            Format::Msbt => Some(content),
        };
        let binary = match written {
            Some(b) => b,
            None => {
                return Err(ErrorKind::ParseFormat);
            },
        };
        match detect(binary.as_slice()) {
            Ok((again, order)) => {
                if again == format && order == endian && check_legible(format, binary.as_slice()) {
                    Ok(Yaml { format, endian, binary })
                } else {
                    Err(ErrorKind::ParseFormat)
                }
            },
            Err(_) => Err(ErrorKind::ParseFormat),
        }
    }

    /// The text of the document, as `roead` writes it. An AAMP archive is
    /// written with the names that the table of the process has for it: the
    /// names are looked at first, and where one of them is not fit to be
    /// written, there is no text. The text of a message table is not made
    /// here.
    pub fn to_text(&self, names: &mut StockNames) -> (r: Option<String>)
        ensures
            grown(old(names).held(), final(names).held()),
            match self.spec_format() {
                Format::Byml => r matches Some(text) && byml_text(self.bytes()) == Some(text@)
                    && final(names).held() == old(names).held(),
                Format::Aamp => (r is None ==> !names_fit(
                    final(names).held(),
                    gathered(self.bytes()),
                )) && (names_fit(old(names).held(), gathered(self.bytes())) && covered(
                    old(names).held(),
                    gathered(self.bytes()),
                ) ==> r is Some),
                Format::Msbt => r is None && final(names).held() == old(names).held(),
            },
    {
        proof {
            use_type_invariant(self);
        }
        match self.format {
            Format::Byml => byml_to_text(self.binary.as_slice()),
            Format::Aamp => {
                let wanted = crate::aamp::gather(self.binary.as_slice());
                if names.check_names(&wanted) {
                    aamp_to_text(names, self.binary.as_slice())
                } else {
                    None
                }
            },
            Format::Msbt => None,
        }
    }

    /// The format of the document.
    pub fn format(&self) -> (r: Format)
        ensures
            r == self.spec_format(),
            detected(self.bytes()) == Ok::<(Format, YamlEndian), ErrorKind>(
                (self.spec_format(), self.spec_endian()),
            ),
    {
        proof {
            use_type_invariant(self);
        }
        self.format
    }

    /// The byte order of the document, in which an edited version is to be
    /// written.
    pub fn endian(&self) -> (r: YamlEndian)
        ensures
            r == self.spec_endian(),
    {
        self.endian
    }

    /// Whether the document is big-endian.
    pub fn is_big_endian(&self) -> (r: bool)
        ensures
            r == (self.spec_endian() == YamlEndian::Big),
    {
        match self.endian {
            YamlEndian::Big => true,
            YamlEndian::Little => false,
        }
    }

    /// The binary form of the document.
    pub fn to_binary(&self) -> (r: Vec<u8>)
        ensures
            r@ == self.bytes(),
    {
        copy_bytes(self.binary.as_slice())
    }

    /// Takes the edited document back, as the binary that its text was turned
    /// into, or as nothing where the text could not be read. The document
    /// keeps its format and byte order: a binary of another format or byte
    /// order, and a BYML or AAMP binary that cannot be read, is refused like
    /// unreadable text, with `ParseText`, and the document stays as it was.
    /// Text that turns into the very binary of the document is always taken,
    /// and leaves the document as it is.
    pub fn take_binary(&mut self, edited: Option<Vec<u8>>) -> (r: Result<(), ErrorKind>)
        ensures
            final(self).spec_format() == old(self).spec_format(),
            final(self).spec_endian() == old(self).spec_endian(),
            match r {
                Ok(_) => edited matches Some(binary) && final(self).bytes() == binary@,
                Err(e) => e == ErrorKind::ParseText && *final(self) == *old(self),
            },
            r is Ok <==> fits_document(
                bytes_of(edited),
                old(self).spec_format(),
                old(self).spec_endian(),
            ),
            bytes_of(edited) == Some(old(self).bytes()) ==> r is Ok && final(self).bytes() == old(
                self,
            ).bytes(),
    {
        proof {
            use_type_invariant(&*self);
        }
        let binary = match edited {
            Some(b) => b,
            None => {
                return Err(ErrorKind::ParseText);
            },
        };
        match detect(binary.as_slice()) {
            Ok((format, endian)) => {
                if format == self.format && endian == self.endian && check_legible(
                    format,
                    binary.as_slice(),
                ) {
                    *self = Yaml { format, endian, binary };
                    Ok(())
                } else {
                    Err(ErrorKind::ParseText)
                }
            },
            Err(_) => Err(ErrorKind::ParseText),
        }
    }

    /// Takes the edited text of a BYML or AAMP document back: the text is
    /// turned into a binary in the document's byte order, and the binary is
    /// taken if it fits the document. The document keeps its format and byte
    /// order. `ParseText` where the text is not shallow or cannot be read,
    /// where what it turns into is of another format or byte order or cannot
    /// be read, and for a message table: then the document stays as it was. Text that turns
    /// into the very binary of the document, as the document's own text does
    /// where the text form loses nothing, is always taken and leaves the
    /// binary as it is.
    pub fn update(&mut self, text: &str) -> (r: Result<(), ErrorKind>)
        ensures
            final(self).spec_format() == old(self).spec_format(),
            final(self).spec_endian() == old(self).spec_endian(),
            match r {
                Ok(_) => rewritten(text@, old(self).spec_format(), old(self).spec_endian())
                    == Some(final(self).bytes()),
                Err(e) => e == ErrorKind::ParseText && *final(self) == *old(self),
            },
            r is Ok <==> fits_document(
                rewritten(text@, old(self).spec_format(), old(self).spec_endian()),
                old(self).spec_format(),
                old(self).spec_endian(),
            ),
            rewritten(text@, old(self).spec_format(), old(self).spec_endian()) == Some(
                old(self).bytes(),
            ) ==> r is Ok && final(self).bytes() == old(self).bytes(),
    {
        let edited = if !check_shallow(text) {
            None
        } else {
            match self.format {
                Format::Byml => byml_from_text(text, self.is_big_endian(), BYML_VERSION),
                Format::Aamp => aamp_from_text(text),
                Format::Msbt => None,
            }
        };
        self.take_binary(edited)
    }

    /// The bytes to save for a file called `file`: the binary form,
    /// Yaz0-compressed if the name asks for it.
    pub fn payload_for(&self, file: &str) -> (r: Result<Vec<u8>, ErrorKind>)
        ensures
            seen(r) == stored(file@, self.bytes()),
    {
        store(file, self.to_binary())
    }
}

/// What comes back from the editor is a binary of the given format and byte
/// order that can be shown again.
pub open spec fn fits_document(edited: Option<Seq<u8>>, format: Format, endian: YamlEndian) -> bool {
    match edited {
        Some(binary) => detected(binary) == Ok::<(Format, YamlEndian), ErrorKind>(
            (format, endian),
        ) && legible(format, binary),
        None => false,
    }
}

/// Whether a save goes into the open archive: the name given begins with
/// `SARC:`.
pub open spec fn into_archive(file: Seq<char>) -> bool {
    starts_with(file, sarc_prefix())
}

/// Where a document saved as `file` goes: into the open archive, at the
/// location that follows the prefix, if the name begins with `SARC:`; else to
/// disk.
pub fn save_target(file: &str) -> (r: SaveTarget)
    ensures
        match r {
            SaveTarget::Disk => !into_archive(file@),
            SaveTarget::Archive { levels } => into_archive(file@) && crate::tree::names(levels@)
                == location_levels(file@),
        },
{
    let prefix = vec!['S', 'A', 'R', 'C', ':'];
    assert(prefix@ =~= sarc_prefix());
    if has_prefix(&chars_of(file), &prefix) {
        SaveTarget::Archive { levels: parse_location(file) }
    } else {
        SaveTarget::Disk
    }
}

#[verifier::external_type_specification]
#[verifier::external_body]
pub struct ExNameTable<'a>(roead::aamp::NameTable<'a>);

/// The names a table of AAMP names knows, by hash.
pub uninterp spec fn known_names(t: roead::aamp::NameTable<'static>) -> Map<u32, Seq<char>>;

/// The hash of an AAMP name, as `roead::aamp::hash_name` computes it.
pub uninterp spec fn aamp_hash(name: Seq<char>) -> u32;

/// The table of parameter names that `roead` keeps for the whole process,
/// and from which it names what it writes as text. There is one such table;
/// every `StockNames` stands for it, so what was learnt through one holds
/// only as long as no other is used.
pub struct StockNames {
    table: Arc<roead::aamp::NameTable<'static>>,
}

/// Calls `roead::aamp::get_default_name_table` for the process-wide table.
#[verifier::external_body]
fn stock_table() -> (r: Arc<roead::aamp::NameTable<'static>>) {
    Arc::clone(&**roead::aamp::get_default_name_table())
}

/// Calls `NameTable::get_name` for a hash at a position, with the hash itself
/// in the place of the parent's: the table finds a parent's name only where
/// the hash is known, and then answers at once, so it never guesses from a
/// parent. A known hash is found; for an unknown one the table may find a
/// name among its numbered patterns, tried up to the position after the one
/// given, that has the hash, and then keeps it.
#[verifier::external_body]
fn names_probe(t: &mut StockNames, hash: u32, index: usize) -> (r: Option<String>)
    requires
        index <= 1,
    ensures
        match r {
            Some(name) => known_names(*final(t).table) == known_names(*old(t).table).insert(
                hash,
                name@,
            ) && (if known_names(*old(t).table).contains_key(hash) {
                known_names(*old(t).table)[hash] == name@
            } else {
                aamp_hash(name@) == hash
            }),
            None => known_names(*final(t).table) == known_names(*old(t).table) && !known_names(
                *old(t).table,
            ).contains_key(hash),
        },
{
    t.table.get_name(hash, index, hash).map(|name| name.to_string())
}

/// Calls `NameTable::add_name`: the name is kept under its hash unless the
/// hash has a name already.
#[verifier::external_body]
fn names_add(t: &mut StockNames, name: String)
    ensures
        known_names(*final(t).table) == with_name(known_names(*old(t).table), name@),
{
    t.table.add_name(name);
}

/// Calls `roead::aamp::ParameterIO::from_binary` and, on the archive read,
/// `ParameterIO::to_text`, which names lists, objects and parameters from
/// the process-wide table: the table that `t` stands for. A name that the
/// table lacks it guesses from the name of what the thing stands in, in a
/// buffer of 256 bytes that gives way under a name of 129 to 255 bytes, and
/// keeps what it finds, which is up to six bytes longer. The archive is at
/// most nine names deep, so with names of at most 74 bytes none comes to be
/// longer than 128. The names are keys of the text, which is bounded for
/// tame ones. Nothing is said of the text: it depends on the table.
#[verifier::external_body]
fn aamp_to_text(t: &mut StockNames, binary: &[u8]) -> (r: Option<String>)
    requires
        crate::aamp::sound(binary@),
        names_fit(known_names(*old(t).table), gathered(binary@)),
    ensures
        r is Some <==> aamp_reads(binary@),
        grown(known_names(*old(t).table), known_names(*final(t).table)),
{
    let doc = roead::aamp::ParameterIO::from_binary(binary).ok()?;
    Some(doc.to_text())
}

/// The longest name, in bytes, from which the text of an archive is made.
pub const MAX_NAME: usize = 74;

/// A character that is written as it is in every style of scalar.
pub open spec fn tame_char(c: char) -> bool {
    c != '\n' && c != '\r' && c != '"' && c != '\'' && c != '\\' && c != '\t'
}

/// A name is fit to be written: it is no longer than the longest, all its
/// characters are tame, and it does not begin with a space.
pub open spec fn fit(name: Seq<char>) -> bool {
    &&& name_bytes(name) <= MAX_NAME
    &&& forall|i: int| 0 <= i < name.len() ==> tame_char(#[trigger] name[i])
    &&& (name.len() > 0 ==> name[0] != ' ')
}

/// The name that a table has for a hash, if it has one, is fit.
pub open spec fn fits(held: Map<u32, Seq<char>>, hash: u32) -> bool {
    held.contains_key(hash) ==> fit(held[hash])
}

/// Every name that the table has for one of `names` is fit.
pub open spec fn names_fit(held: Map<u32, Seq<char>>, names: Seq<u32>) -> bool {
    forall|i: int| 0 <= i < names.len() ==> fits(held, #[trigger] names[i])
}

/// The table has a name for each of `names`.
pub open spec fn covered(held: Map<u32, Seq<char>>, names: Seq<u32>) -> bool {
    forall|i: int| 0 <= i < names.len() ==> held.contains_key(#[trigger] names[i])
}

/// A table has grown: what it held it holds.
pub open spec fn grown(before: Map<u32, Seq<char>>, after: Map<u32, Seq<char>>) -> bool {
    forall|hash: u32| #[trigger]
        before.contains_key(hash) ==> after.contains_key(hash) && after[hash] == before[hash]
}

/// Decides `fit`.
pub fn check_fit(name: &str) -> (r: bool)
    ensures
        r == fit(name@),
{
    if byte_len(name) > MAX_NAME {
        return false;
    }
    let chars = chars_of(name);
    let mut i: usize = 0;
    while i < chars.len()
        invariant
            i <= chars.len(),
            chars@ == name@,
            forall|k: int| 0 <= k < i ==> tame_char(#[trigger] name@[k]),
        decreases chars.len() - i,
    {
        let c = chars[i];
        if c == '\n' || c == '\r' || c == '"' || c == '\'' || c == '\\' || c == '\t' {
            assert(!tame_char(name@[i as int]));
            return false;
        }
        i += 1;
    }
    chars.len() == 0 || chars[0] != ' '
}

/// A table after a name was added: the name stands under its hash unless
/// another stood there.
pub open spec fn with_name(names: Map<u32, Seq<char>>, name: Seq<char>) -> Map<u32, Seq<char>> {
    if names.contains_key(aamp_hash(name)) {
        names
    } else {
        names.insert(aamp_hash(name), name)
    }
}

/// `File` followed by the number `i`.
pub open spec fn file_name(i: nat) -> Seq<char> {
    seq!['F', 'i', 'l', 'e'] + decimal(i)
}

/// A table after the names `File0`, `File1`, ... up to `n` names were added.
pub open spec fn with_files(names: Map<u32, Seq<char>>, n: nat) -> Map<u32, Seq<char>>
    decreases n,
{
    if n == 0 {
        names
    } else {
        with_name(with_files(names, (n - 1) as nat), file_name((n - 1) as nat))
    }
}

/// The hash of `File1`, by which a table is known to have the file names.
pub const FILE_NAMES_PROBE: u32 = 1596346337;

/// How many file names are added.
pub const FILE_NAMES: u32 = 10000;

impl StockNames {
    /// The names the table holds, by hash.
    pub closed spec fn held(&self) -> Map<u32, Seq<char>> {
        known_names(*self.table)
    }

    /// The table of the process.
    pub fn open() -> (r: StockNames) {
        StockNames { table: stock_table() }
    }

    /// The name the table has for a hash. A table that has none may find
    /// one among its numbered patterns, and then keeps it.
    pub fn name_of(&mut self, hash: u32) -> (r: Option<String>)
        ensures
            match r {
                Some(name) => final(self).held() == old(self).held().insert(hash, name@) && (old(
                    self,
                ).held().contains_key(hash) ==> old(self).held()[hash] == name@),
                None => final(self).held() == old(self).held() && !old(self).held().contains_key(
                    hash,
                ),
            },
    {
        names_probe(self, hash, 0)
    }

    /// Looks at the name the table has for each of `names`: whether each is
    /// fit. The table may come to know more names by being asked.
    pub fn check_names(&mut self, names: &Vec<u32>) -> (r: bool)
        ensures
            r == names_fit(final(self).held(), names@),
            grown(old(self).held(), final(self).held()),
            covered(old(self).held(), names@) ==> final(self).held() == old(self).held(),
    {
        let ghost before = self.held();
        let mut i: usize = 0;
        while i < names.len()
            invariant
                i <= names.len(),
                before == old(self).held(),
                grown(before, self.held()),
                covered(before, names@) ==> self.held() == before,
                forall|k: int| 0 <= k < i ==> fits(self.held(), #[trigger] names@[k]),
            decreases names.len() - i,
        {
            let ghost now = self.held();
            let probed = names_probe(self, names[i], 0);
            proof {
                if covered(before, names@) {
                    assert(before.contains_key(names@[i as int]));
                    if probed is Some {
                        assert(self.held() =~= now);
                    }
                }
            }
            assert(grown(before, self.held())) by {
                assert forall|hash: u32| #[trigger] before.contains_key(hash) implies self.held().contains_key(
                    hash,
                ) && self.held()[hash] == before[hash] by {
                    assert(now.contains_key(hash) && now[hash] == before[hash]);
                }
            }
            match probed {
                Some(name) => {
                    if !check_fit(name.as_str()) {
                        assert(!fits(self.held(), names@[i as int]));
                        return false;
                    }
                    assert forall|k: int| 0 <= k < i + 1 implies fits(
                        self.held(),
                        #[trigger] names@[k],
                    ) by {
                        if k < i {
                            assert(fits(now, names@[k]));
                        }
                    }
                },
                None => {},
            }
            i += 1;
        }
        true
    }

    /// Makes sure the table knows the names `File0` to `File9999`. A table
    /// that has a name for the hash of `File1` is left as it is. Any other
    /// table is asked for that hash: if it finds a name for it among its own
    /// patterns it keeps that name and nothing else is added; if not, the
    /// names are added one by one, each under its hash unless the hash has a
    /// name.
    pub fn init_file_names(&mut self)
        ensures
            old(self).held().contains_key(FILE_NAMES_PROBE) ==> final(self).held() == old(
                self,
            ).held(),
            !old(self).held().contains_key(FILE_NAMES_PROBE) ==> final(self).held() == with_files(
                old(self).held(),
                FILE_NAMES as nat,
            ) || exists|name: Seq<char>| #[trigger]
                final(self).held() == old(self).held().insert(FILE_NAMES_PROBE, name),
    {
        let ghost before = self.held();
        match names_probe(self, FILE_NAMES_PROBE, 0) {
            Some(name) => {
                assert(before.contains_key(FILE_NAMES_PROBE) ==> before.insert(
                    FILE_NAMES_PROBE,
                    name@,
                ) =~= before);
                return ;
            },
            None => {},
        }
        let mut i: u32 = 0;
        while i < FILE_NAMES
            invariant
                i <= FILE_NAMES,
                self.held() == with_files(before, i as nat),
            decreases FILE_NAMES - i,
        {
            let mut name = vec!['F', 'i', 'l', 'e'];
            assert(name@ =~= seq!['F', 'i', 'l', 'e']);
            append_chars(&mut name, &decimal_of(i));
            names_add(self, string_of(&name));
            i += 1;
        }
    }
}

/// Makes sure the table of the process knows the names `File0` to
/// `File9999`.
pub fn init_name_table(table: &mut StockNames)
    ensures
        old(table).held().contains_key(FILE_NAMES_PROBE) ==> final(table).held() == old(
            table,
        ).held(),
        !old(table).held().contains_key(FILE_NAMES_PROBE) ==> final(table).held() == with_files(
            old(table).held(),
            FILE_NAMES as nat,
        ) || exists|name: Seq<char>| #[trigger]
            final(table).held() == old(table).held().insert(FILE_NAMES_PROBE, name),
{
    table.init_file_names()
}

} // verus!
