//! The mathematical model of a PAK archive: what its bytes mean, what a
//! lookup and an extraction give, and which bytes stand for a list of
//! files.

use crate::error::{IoErrorKind, QError};
use crate::pak::Header;
use crate::wire::{i32_from_le, i32_to_le};
use vstd::prelude::*;

verus! {

/// Size of the header, in bytes.
pub const HEADER_SIZE: usize = 12;

/// Size of one directory entry, in bytes.
pub const DIR_ENTRY_SIZE: usize = 64;

/// Size of the name field of a directory entry, in bytes.
pub const NAME_SIZE: usize = 56;

/// The four bytes that every archive starts with: `PACK` in ASCII.
pub open spec fn magic() -> Seq<u8> {
    seq![0x50u8, 0x41u8, 0x43u8, 0x4Bu8]
}

/// `n` is where the name in `field` ends: at its first zero byte, or at the
/// end of the field where no byte is zero.
pub open spec fn name_ends_at(field: Seq<u8>, n: int) -> bool {
    &&& 0 <= n <= field.len()
    &&& forall|i: int| 0 <= i < n ==> field[i] != 0
    &&& n < field.len() ==> field[n] == 0
}

/// The number of bytes of `field` that belong to the name.
pub open spec fn name_end(field: Seq<u8>) -> int {
    choose|n: int| name_ends_at(field, n)
}

/// The name that `field` holds: its bytes up to the first zero byte, one
/// character for each. A field without a zero byte is a name of full length.
pub open spec fn decoded_name(field: Seq<u8>) -> Seq<char> {
    Seq::new(name_end(field) as nat, |i: int| field[i] as char)
}

/// The byte that stands for `c` in a name field: the low eight bits of its
/// code point.
pub open spec fn byte_of_char(c: char) -> u8 {
    ((c as u32) % 256) as u8
}

/// The name field for `name`: one byte for each of the first 56
/// characters, then zero bytes up to the size of the field.
pub open spec fn encoded_name(name: Seq<char>) -> Seq<u8> {
    Seq::new(
        NAME_SIZE as nat,
        |i: int|
            if i < name.len() {
                byte_of_char(name[i])
            } else {
                0u8
            },
    )
}

/// What a directory entry says: the raw name field, and where the member's
/// content starts and how long it is.
#[verifier::ext_equal]
pub struct EntryModel {
    pub name: Seq<u8>,
    pub position: int,
    pub length: int,
}

impl EntryModel {
    /// The entry that the first 64 bytes of `b` spell.
    pub open spec fn parse(b: Seq<u8>) -> EntryModel {
        EntryModel {
            name: b.subrange(0, 56),
            position: i32_from_le(b.subrange(56, 60)),
            length: i32_from_le(b.subrange(60, 64)),
        }
    }

    /// The 64 bytes that stand for this entry in a file.
    pub open spec fn encoding(self) -> Seq<u8> {
        self.name + i32_to_le(self.position) + i32_to_le(self.length)
    }

    /// The name field has its size and both numbers fit the 32 bits that
    /// the format gives them.
    pub open spec fn wf(self) -> bool {
        &&& self.name.len() == NAME_SIZE
        &&& i32::MIN <= self.position <= i32::MAX
        &&& i32::MIN <= self.length <= i32::MAX
    }

    /// The name of the member, decoded.
    pub open spec fn name_str(self) -> Seq<char> {
        decoded_name(self.name)
    }
}

/// A file by its name and its content.
#[verifier::ext_equal]
pub struct FileModel {
    pub name: Seq<char>,
    pub content: Seq<u8>,
}

/// An open archive: the name it goes by, its directory in file order, and
/// all the bytes of the file.
#[verifier::ext_equal]
pub struct PakModel {
    pub name: Seq<char>,
    pub directory: Seq<EntryModel>,
    pub data: Seq<u8>,
}

/// What a read of `length` bytes at `position` gives. Nothing is read for a
/// length of zero, so such a read succeeds wherever it starts.
pub open spec fn read_range(data: Seq<u8>, position: int, length: int) -> Result<Seq<u8>, QError> {
    if position < 0 || length < 0 {
        Err(QError::IoError(IoErrorKind::InvalidInput))
    } else if length == 0 {
        Ok(Seq::empty())
    } else if position + length > data.len() {
        Err(QError::IoError(IoErrorKind::UnexpectedEof))
    } else {
        Ok(data.subrange(position, position + length))
    }
}

/// The entries that `bytes` spell, 64 bytes each; bytes at the end that do
/// not make up a whole entry are left out.
pub open spec fn entries_of(bytes: Seq<u8>) -> Seq<EntryModel> {
    Seq::new(
        (bytes.len() / 64) as nat,
        |k: int| EntryModel::parse(bytes.subrange(64 * k, 64 * k + 64)),
    )
}

/// The number of whole entries in a directory of `dir_length` bytes.
pub open spec fn entry_count(dir_length: int) -> int {
    dir_length / 64
}

/// The directory that the header `h` points to in `data`.
pub open spec fn parse_directory(data: Seq<u8>, h: Header) -> Result<Seq<EntryModel>, QError> {
    match read_range(data, h.dir_offset as int, 64 * entry_count(h.dir_length as int)) {
        Ok(bytes) => Ok(entries_of(bytes)),
        Err(e) => Err(e),
    }
}

/// What opening the file with the bytes `data` gives, where `name` is the
/// last component of its path, if the path has one.
pub open spec fn open_archive(name: Option<Seq<char>>, data: Seq<u8>) -> Result<PakModel, QError> {
    match name {
        None => Err(QError::BadFileName),
        Some(n) => match Header::parse(data) {
            Err(e) => Err(e),
            Ok(h) => match parse_directory(data, h) {
                Err(e) => Err(e),
                Ok(directory) => Ok(PakModel { name: n, directory, data }),
            },
        },
    }
}

/// The header and the directory of an archive agree with each other and
/// with the size of the file.
pub open spec fn valid_archive(data: Seq<u8>) -> bool {
    &&& Header::parse(data) matches Ok(h)
    &&& h.dir_offset >= HEADER_SIZE
    &&& h.dir_length >= 0
    &&& h.dir_length % 64 == 0
    &&& h.dir_offset + h.dir_length <= data.len()
}

/// Some entry of `dir` goes by `name`.
pub open spec fn has_member(dir: Seq<EntryModel>, name: Seq<char>) -> bool {
    exists|i: int| 0 <= i < dir.len() && (#[trigger] dir[i]).name_str() == name
}

/// Entry `i` of `dir` is the first one that goes by `name`.
pub open spec fn is_first_match(dir: Seq<EntryModel>, name: Seq<char>, i: int) -> bool {
    &&& 0 <= i < dir.len()
    &&& dir[i].name_str() == name
    &&& forall|j: int| 0 <= j < i ==> (#[trigger] dir[j]).name_str() != name
}

/// The index of the first entry of `dir` that goes by `name`.
pub open spec fn first_match(dir: Seq<EntryModel>, name: Seq<char>) -> int {
    choose|i: int| is_first_match(dir, name, i)
}

impl PakModel {
    /// The content of the member `name`: that of the first entry with this
    /// name.
    pub open spec fn read_file(self, name: Seq<char>) -> Result<Seq<u8>, QError> {
        if has_member(self.directory, name) {
            let e = self.directory[first_match(self.directory, name)];
            read_range(self.data, e.position, e.length)
        } else {
            Err(QError::FileNotFound)
        }
    }

    /// `files` and `failure` are what an extraction gives: the members in
    /// directory order, each with the content that a lookup of its name
    /// gives, up to the first one that cannot be read, and the error of that
    /// one.
    pub open spec fn extracts_to(self, files: Seq<FileModel>, failure: Option<QError>) -> bool {
        &&& files.len() <= self.directory.len()
        &&& forall|k: int|
            0 <= k < files.len() ==> {
                &&& (#[trigger] files[k]).name == self.directory[k].name_str()
                &&& self.read_file(self.directory[k].name_str()) == Ok::<Seq<u8>, QError>(
                    files[k].content,
                )
            }
        &&& match failure {
            None => files.len() == self.directory.len(),
            Some(e) => files.len() < self.directory.len() && self.read_file(
                self.directory[files.len() as int].name_str(),
            ) == Err::<Seq<u8>, QError>(e),
        }
    }
}

/// The number of content bytes of `files`.
pub open spec fn contents_len(files: Seq<FileModel>) -> int
    decreases files.len(),
{
    if files.len() == 0 {
        0
    } else {
        contents_len(files.drop_last()) + files.last().content.len()
    }
}

/// The contents of `files`, one after the other.
pub open spec fn contents(files: Seq<FileModel>) -> Seq<u8>
    decreases files.len(),
{
    if files.len() == 0 {
        Seq::empty()
    } else {
        contents(files.drop_last()) + files.last().content
    }
}

/// Where the content of file `i` starts in the archive made of `files`.
pub open spec fn position_of(files: Seq<FileModel>, i: int) -> int {
    HEADER_SIZE + contents_len(files.take(i))
}

/// The directory entry of file `i` in the archive made of `files`.
pub open spec fn entry_for(files: Seq<FileModel>, i: int) -> EntryModel {
    EntryModel {
        name: encoded_name(files[i].name),
        position: position_of(files, i),
        length: files[i].content.len() as int,
    }
}

/// The directory of the archive made of `files`: one entry for each file,
/// in the order of the files.
pub open spec fn directory_for(files: Seq<FileModel>) -> Seq<EntryModel> {
    Seq::new(files.len(), |i: int| entry_for(files, i))
}

/// The bytes of a directory: those of its entries, one after the other.
pub open spec fn directory_bytes(dir: Seq<EntryModel>) -> Seq<u8>
    decreases dir.len(),
{
    if dir.len() == 0 {
        Seq::empty()
    } else {
        directory_bytes(dir.drop_last()) + dir.last().encoding()
    }
}

/// Every position and length in the archive made of `files` fits the
/// signed 32 bits that the format gives it.
pub open spec fn archive_fits(files: Seq<FileModel>) -> bool {
    &&& HEADER_SIZE + contents_len(files) <= i32::MAX
    &&& DIR_ENTRY_SIZE * files.len() <= i32::MAX
}

/// The header of the archive made of `files`: the directory follows the
/// contents.
pub open spec fn header_for(files: Seq<FileModel>) -> Header {
    Header {
        dir_offset: (HEADER_SIZE + contents_len(files)) as i32,
        dir_length: (DIR_ENTRY_SIZE * files.len()) as i32,
    }
}

/// The bytes of the archive made of `files`: the header, the contents, the
/// directory.
pub open spec fn archive_bytes(files: Seq<FileModel>) -> Seq<u8> {
    header_for(files).encoding() + contents(files) + directory_bytes(directory_for(files))
}

/// The archive that is made of `files` and goes by `name`.
pub open spec fn archive_of(files: Seq<FileModel>, name: Seq<char>) -> PakModel {
    PakModel { name, directory: directory_for(files), data: archive_bytes(files) }
}

} // verus!
