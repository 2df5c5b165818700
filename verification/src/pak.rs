//! PAK file. A PAK file is an archive format for storing game content
//! files: a header of twelve bytes, the contents of the member files one
//! after the other, and a directory of fixed-size entries.

use crate::error::{IoErrorKind, QError, QResult};
use crate::laws::{
    lemma_contents_len_take, lemma_contents_step, lemma_created_archive_valid,
    lemma_directory_step, lemma_first_match, lemma_name_end,
};
use crate::model::{
    archive_bytes, archive_fits, archive_of, byte_of_char, contents, contents_len,
    directory_bytes, directory_for, encoded_name, entries_of, entry_count, entry_for, has_member,
    magic, name_end, open_archive, read_range, valid_archive, EntryModel, FileModel, PakModel,
    DIR_ENTRY_SIZE, HEADER_SIZE, NAME_SIZE,
};
use crate::text::{chars_of, decimal, decimal_string, string_of};
use crate::wire::{i32_from_le, i32_to_le, lemma_le_len, put_i32, read_i32, write_i32};
use vstd::prelude::*;
use vstd::slice::{slice_subrange, slice_to_vec};
use vstd::string::StringExecFns;

verus! {

/// The header of an archive: where its directory starts and how many bytes
/// the directory takes.
#[derive(Debug, Clone, Copy, PartialEq, Eq, Structural)]
pub struct Header {
    pub dir_offset: i32,
    pub dir_length: i32,
}

impl Header {
    /// The twelve bytes that stand for this header in a file.
    pub open spec fn encoding(self) -> Seq<u8> {
        magic() + i32_to_le(self.dir_offset as int) + i32_to_le(self.dir_length as int)
    }

    /// What the start of a file says: a header, or the reason why there is
    /// none.
    pub open spec fn parse(b: Seq<u8>) -> Result<Header, QError> {
        if b.len() < 4 || b.subrange(0, 4) != magic() {
            Err(QError::BadMagicBytes)
        } else if b.len() < 12 {
            Err(QError::IoError(IoErrorKind::UnexpectedEof))
        } else {
            Ok(
                Header {
                    dir_offset: i32_from_le(b.subrange(4, 8)) as i32,
                    dir_length: i32_from_le(b.subrange(8, 12)) as i32,
                },
            )
        }
    }

    /// Reads a header from the first twelve bytes of `bytes`.
    pub fn read(bytes: &[u8]) -> (r: QResult<Header>)
        ensures
            r == Header::parse(bytes@),
            bytes@.len() >= 4 && bytes@.subrange(0, 4) != magic() ==> r == Err::<Header, QError>(
                QError::BadMagicBytes,
            ),
    {
        if bytes.len() < 4 || bytes[0] != 0x50 || bytes[1] != 0x41 || bytes[2] != 0x43 || bytes[3]
            != 0x4B {
            proof {
                if bytes@.len() >= 4 {
                    let p = bytes@.subrange(0, 4);
                    assert(p[0] == bytes@[0] && p[1] == bytes@[1] && p[2] == bytes@[2] && p[3]
                        == bytes@[3]);
                }
            }
            return Err(QError::BadMagicBytes);
        }
        assert(bytes@.subrange(0, 4) =~= magic());
        let off = match read_i32(bytes, 4) {
            Some(v) => v,
            None => { return Err(QError::IoError(IoErrorKind::UnexpectedEof)); },
        };
        let len = match read_i32(bytes, 8) {
            Some(v) => v,
            None => { return Err(QError::IoError(IoErrorKind::UnexpectedEof)); },
        };
        Ok(Header { dir_offset: off, dir_length: len })
    }

    /// Appends the twelve bytes of this header to `out`.
    pub fn write(&self, out: &mut Vec<u8>)
        ensures
            final(out)@ == old(out)@ + self.encoding(),
            self.encoding().len() == 12,
    {
        out.push(0x50);
        out.push(0x41);
        out.push(0x43);
        out.push(0x4B);
        write_i32(out, self.dir_offset);
        write_i32(out, self.dir_length);
        proof {
            lemma_le_len(self.dir_offset as int);
            lemma_le_len(self.dir_length as int);
        }
        assert(out@ =~= old(out)@ + self.encoding());
    }
}

/// An entry in the directory of a PAK file. Each entry has a name, a
/// position (offset) from the beginning of the file and a length.
#[derive(Clone, Copy)]
pub struct DirectoryEntry {
    pub name: [u8; 56],
    pub position: i32,
    pub length: i32,
}

impl View for DirectoryEntry {
    type V = EntryModel;

    open spec fn view(&self) -> EntryModel {
        EntryModel {
            name: self.name@,
            position: self.position as int,
            length: self.length as int,
        }
    }
}

impl DeepView for DirectoryEntry {
    type V = EntryModel;

    open spec fn deep_view(&self) -> EntryModel {
        self@
    }
}

impl DirectoryEntry {
    /// Reads an entry from the first 64 bytes of `bytes`.
    pub fn read(bytes: &[u8]) -> (r: QResult<DirectoryEntry>)
        ensures
            match r {
                Ok(e) => bytes@.len() >= 64 && e@ == EntryModel::parse(bytes@),
                Err(e) => bytes@.len() < 64 && e == QError::IoError(IoErrorKind::UnexpectedEof),
            },
    {
        if bytes.len() < DIR_ENTRY_SIZE {
            return Err(QError::IoError(IoErrorKind::UnexpectedEof));
        }
        let mut name: [u8; 56] = [0u8; 56];
        let mut i: usize = 0;
        while i < NAME_SIZE
            invariant
                i <= 56,
                bytes@.len() >= 64,
                forall|j: int| 0 <= j < i ==> name@[j] == bytes@[j],
            decreases 56 - i,
        {
            name[i] = bytes[i];
            i += 1;
        }
        assert(name@ =~= bytes@.subrange(0, 56));
        let position = match read_i32(bytes, 56) {
            Some(v) => v,
            None => { return Err(QError::IoError(IoErrorKind::UnexpectedEof)); },
        };
        let length = match read_i32(bytes, 60) {
            Some(v) => v,
            None => { return Err(QError::IoError(IoErrorKind::UnexpectedEof)); },
        };
        Ok(DirectoryEntry { name, position, length })
    }

    /// Appends the 64 bytes of this entry to `out`.
    pub fn write(&self, out: &mut Vec<u8>)
        ensures
            final(out)@ == old(out)@ + self@.encoding(),
            self@.encoding().len() == 64,
    {
        out.extend_from_slice(&self.name);
        write_i32(out, self.position);
        write_i32(out, self.length);
        proof {
            lemma_le_len(self.position as int);
            lemma_le_len(self.length as int);
        }
        assert(out@ =~= old(out)@ + self@.encoding());
    }

    /// The number of bytes of the name field that belong to the name.
    pub fn name_len(&self) -> (n: usize)
        ensures
            n == name_end(self.name@),
            n <= 56,
    {
        let mut i: usize = 0;
        while i < NAME_SIZE && self.name[i] != 0
            invariant
                i <= 56,
                forall|j: int| 0 <= j < i ==> self.name@[j] != 0,
            decreases 56 - i,
        {
            i += 1;
        }
        proof {
            lemma_name_end(self.name@, i as int);
        }
        i
    }

    /// The name of the file. Length is limited to 56 bytes.
    pub fn name_str(&self) -> (s: String)
        ensures
            s@ == self@.name_str(),
    {
        let n: usize = self.name_len();
        let mut chars: Vec<char> = Vec::new();
        let mut i: usize = 0;
        while i < n
            invariant
                i <= n <= 56,
                chars@.len() == i,
                forall|j: int| 0 <= j < i ==> chars@[j] == self.name@[j] as char,
            decreases n - i,
        {
            chars.push(self.name[i] as char);
            i += 1;
        }
        assert(chars@ =~= self@.name_str());
        string_of(&chars)
    }

    /// This entry for a reader: its name as text, and its two numbers in
    /// decimal.
    pub fn debug_string(&self) -> (s: String)
        ensures
            s@ == "DirectoryEntry { name: "@ + self@.name_str() + ", position: "@ + decimal(
                self@.position,
            ) + ", length: "@ + decimal(self@.length) + " }"@,
    {
        let mut s: String = String::from_str("DirectoryEntry { name: ");
        s.append(self.name_str().as_str());
        s.append(", position: ");
        s.append(decimal_string(self.position).as_str());
        s.append(", length: ");
        s.append(decimal_string(self.length).as_str());
        s.append(" }");
        s
    }

    /// Whether the name of this entry is `name`, character for character.
    pub fn has_name(&self, name: &Vec<char>) -> (b: bool)
        ensures
            b == (self@.name_str() == name@),
    {
        let n: usize = self.name_len();
        if name.len() != n {
            return false;
        }
        let mut i: usize = 0;
        while i < n
            invariant
                i <= n <= 56,
                name@.len() == n,
                n == name_end(self.name@),
                forall|j: int| 0 <= j < i ==> name@[j] == self.name@[j] as char,
            decreases n - i,
        {
            if name[i] != self.name[i] as char {
                assert(self@.name_str()[i as int] != name@[i as int]);
                return false;
            }
            i += 1;
        }
        assert(self@.name_str() =~= name@);
        true
    }
}

/// The name field that stands for `name` in a directory entry: one byte
/// for each character, and nothing of what lies beyond 56 characters.
pub fn create_file_name(name: &str) -> (buf: [u8; 56])
    ensures
        buf@ == encoded_name(name@),
{
    let chars: Vec<char> = chars_of(name);
    let mut buf: [u8; 56] = [0u8; 56];
    let mut i: usize = 0;
    while i < NAME_SIZE && i < chars.len()
        invariant
            i <= 56,
            i <= chars@.len(),
            chars@ == name@,
            forall|j: int| 0 <= j < i ==> buf@[j] == byte_of_char(name@[j]),
            forall|j: int| i <= j < 56 ==> buf@[j] == 0u8,
        decreases 56 - i,
    {
        let code: u32 = chars[i] as u32;
        buf[i] = (code % 256) as u8;
        i += 1;
    }
    assert(buf@ =~= encoded_name(name@));
    buf
}

/// A file by its name and its content: what goes into an archive, and what
/// comes out of one.
#[derive(Debug)]
pub struct MemberFile {
    pub name: String,
    pub content: Vec<u8>,
}

impl View for MemberFile {
    type V = FileModel;

    open spec fn view(&self) -> FileModel {
        FileModel { name: self.name@, content: self.content@ }
    }
}

impl DeepView for MemberFile {
    type V = FileModel;

    open spec fn deep_view(&self) -> FileModel {
        self@
    }
}

/// What an extraction gives: the members that were read, in directory
/// order, and the error that ended it early, if one did.
#[derive(Debug)]
pub struct Extraction {
    pub files: Vec<MemberFile>,
    pub failure: Option<QError>,
}

/// A Quake 1 PAK file. Stores a list of directory entries and allows
/// reading single files or extracting the whole archive.
pub struct PakFile {
    name: String,
    directory: Vec<DirectoryEntry>,
    data: Vec<u8>,
}

impl View for PakFile {
    type V = PakModel;

    closed spec fn view(&self) -> PakModel {
        PakModel { name: self.name@, directory: self.directory.deep_view(), data: self.data@ }
    }
}

/// A result with the bytes it holds as a sequence.
pub open spec fn bytes_model(r: QResult<Vec<u8>>) -> Result<Seq<u8>, QError> {
    match r {
        Ok(v) => Ok(v@),
        Err(e) => Err(e),
    }
}

/// A result with the archive it holds as its model.
pub open spec fn pak_model(r: QResult<PakFile>) -> Result<PakModel, QError> {
    match r {
        Ok(p) => Ok(p@),
        Err(e) => Err(e),
    }
}

/// A name, if there is one, as a sequence of characters.
pub open spec fn name_model(name: Option<String>) -> Option<Seq<char>> {
    match name {
        Some(n) => Some(n@),
        None => None,
    }
}

/// Reads `length` bytes of `data`, from `position` on.
fn read_at(data: &[u8], position: i32, length: i32) -> (r: QResult<Vec<u8>>)
    ensures
        bytes_model(r) == read_range(data@, position as int, length as int),
{
    if position < 0 || length < 0 {
        return Err(QError::IoError(IoErrorKind::InvalidInput));
    }
    if length == 0 {
        let empty: Vec<u8> = Vec::new();
        assert(empty@ =~= Seq::<u8>::empty());
        return Ok(empty);
    }
    let start: usize = position as usize;
    let count: usize = length as usize;
    if data.len() < count || start > data.len() - count {
        return Err(QError::IoError(IoErrorKind::UnexpectedEof));
    }
    Ok(slice_to_vec(&data[start..start + count]))
}

/// `std::path::Path::file_name`, then `OsStr::to_str`: the last component
/// of `path`, where the path has one that is valid Unicode. What counts as
/// a component depends on the platform, so nothing is claimed of the
/// result.
#[verifier::external_body]
fn final_component(path: &str) -> (name: Option<String>) {
    let name = std::path::Path::new(path).file_name()?;
    Some(name.to_str()?.to_owned())
}

impl PakFile {
    /// Opens the archive whose bytes are `data` under the name `name`, the
    /// last component of its path. Does not read any of the content files,
    /// just stores the directory entries.
    pub fn open(name: Option<String>, data: Vec<u8>) -> (r: QResult<PakFile>)
        ensures
            pak_model(r) == open_archive(name_model(name), data@),
            name is Some && valid_archive(data@) ==> r is Ok,
            r matches Ok(pak) ==> (valid_archive(data@) ==> DIR_ENTRY_SIZE * pak@.directory.len()
                == Header::parse(data@)->Ok_0.dir_length),
    {
        let name = match name {
            Some(n) => n,
            None => { return Err(QError::BadFileName); },
        };
        let header = match Header::read(data.as_slice()) {
            Ok(h) => h,
            Err(e) => { return Err(e); },
        };
        let file_count: i32 = if header.dir_length >= 0 {
            header.dir_length / 64
        } else {
            -1
        };
        assert(header.dir_length >= 0 ==> file_count == entry_count(header.dir_length as int));
        assert(header.dir_length < 0 ==> entry_count(header.dir_length as int) < 0);
        if header.dir_offset < 0 || file_count < 0 {
            return Err(QError::IoError(IoErrorKind::InvalidInput));
        }
        let mut entries: Vec<DirectoryEntry> = Vec::new();
        if file_count == 0 {
            assert(entries.deep_view() =~= entries_of(Seq::<u8>::empty()));
            return Ok(PakFile { name, directory: entries, data });
        }
        let start: usize = header.dir_offset as usize;
        let count: usize = file_count as usize;
        if data.len() < 64 * count || start > data.len() - 64 * count {
            return Err(QError::IoError(IoErrorKind::UnexpectedEof));
        }
        let ghost bytes = data@.subrange(start as int, start + 64 * count);
        let mut k: usize = 0;
        while k < count
            invariant
                k <= count,
                start + 64 * count <= data@.len() <= usize::MAX,
                bytes == data@.subrange(start as int, start + 64 * count),
                entries@.len() == k,
                forall|j: int| 0 <= j < k ==> (#[trigger] entries@[j])@ == entries_of(bytes)[j],
            decreases count - k,
        {
            let at: usize = start + 64 * k;
            let slice = slice_subrange(data.as_slice(), at, at + 64);
            assert(slice@ =~= bytes.subrange(64 * k, 64 * k + 64));
            match DirectoryEntry::read(slice) {
                Ok(entry) => {
                    entries.push(entry);
                },
                Err(e) => {
                    return Err(e);
                },
            }
            k += 1;
        }
        assert(entries.deep_view() =~= entries_of(bytes));
        Ok(PakFile { name, directory: entries, data })
    }

    /// Reads the .PAK file that lies at `path` and has the bytes `data`.
    /// The archive goes by the last component of the path, and a path
    /// without one is refused. Apart from that the result is that of
    /// [`PakFile::open`].
    pub fn read(path: &str, data: Vec<u8>) -> (r: QResult<PakFile>)
        ensures
            pak_model(r) == open_archive(None, data@) || exists|name: Seq<char>|
                pak_model(r) == open_archive(Some(name), data@),
    {
        let name = final_component(path);
        let r = PakFile::open(name, data);
        proof {
            if name is Some {
                assert(pak_model(r) == open_archive(Some(name->0@), data@));
            }
        }
        r
    }

    /// The name that the archive goes by.
    pub fn name(&self) -> (name: &str)
        ensures
            name@ == self@.name,
    {
        self.name.as_str()
    }

    /// The directory entries, in file order.
    pub fn directory(&self) -> (directory: &[DirectoryEntry])
        ensures
            directory.deep_view() == self@.directory,
    {
        self.directory.as_slice()
    }

    /// All the bytes of the archive file.
    pub fn data(&self) -> (data: &[u8])
        ensures
            data@ == self@.data,
    {
        self.data.as_slice()
    }

    /// Reads the contents of a file with the given name to a `Vec<u8>`.
    /// Of several entries with this name the first one counts.
    pub fn read_file(&self, name: &str) -> (r: QResult<Vec<u8>>)
        ensures
            bytes_model(r) == self@.read_file(name@),
            !has_member(self@.directory, name@) ==> r == Err::<Vec<u8>, QError>(
                QError::FileNotFound,
            ),
    {
        let chars: Vec<char> = chars_of(name);
        let mut i: usize = 0;
        while i < self.directory.len()
            invariant
                i <= self.directory@.len(),
                chars@ == name@,
                forall|j: int| 0 <= j < i ==> (#[trigger] self@.directory[j]).name_str() != name@,
            decreases self.directory@.len() - i,
        {
            let entry = &self.directory[i];
            if entry.has_name(&chars) {
                proof {
                    lemma_first_match(self@.directory, name@, i as int);
                }
                return read_at(self.data.as_slice(), entry.position, entry.length);
            }
            i += 1;
        }
        Err(QError::FileNotFound)
    }

    /// Extracts the contents of this PAK file: every member in directory
    /// order, with the content that a lookup of its name gives. The first
    /// member that cannot be read ends the extraction; those before it are
    /// still handed out.
    pub fn extract_to(&self) -> (extraction: Extraction)
        ensures
            self@.extracts_to(extraction.files.deep_view(), extraction.failure),
    {
        let mut files: Vec<MemberFile> = Vec::new();
        let mut i: usize = 0;
        while i < self.directory.len()
            invariant
                i <= self.directory@.len(),
                files@.len() == i,
                forall|k: int|
                    0 <= k < i ==> {
                        &&& (#[trigger] files@[k])@.name == self@.directory[k].name_str()
                        &&& self@.read_file(self@.directory[k].name_str()) == Ok::<
                            Seq<u8>,
                            QError,
                        >(files@[k]@.content)
                    },
            decreases self.directory@.len() - i,
        {
            let name: String = self.directory[i].name_str();
            match self.read_file(name.as_str()) {
                Ok(content) => {
                    files.push(MemberFile { name, content });
                },
                Err(e) => {
                    return Extraction { files, failure: Some(e) };
                },
            }
            i += 1;
        }
        Extraction { files, failure: None }
    }
}

/// Whether `files` can go into one archive: whether every position and
/// length of it fits the signed 32 bits that the format gives it.
pub fn fits_archive(files: &Vec<MemberFile>) -> (b: bool)
    ensures
        b == archive_fits(files.deep_view()),
{
    let ghost fs = files.deep_view();
    if files.len() > 0x1ff_ffff {
        return false;
    }
    let mut total: usize = HEADER_SIZE;
    let mut i: usize = 0;
    while i < files.len()
        invariant
            i <= files@.len(),
            fs == files.deep_view(),
            total == HEADER_SIZE + contents_len(fs.take(i as int)),
            total <= i32::MAX,
        decreases files@.len() - i,
    {
        let len: usize = files[i].content.len();
        proof {
            lemma_contents_step(fs, i as int);
            lemma_contents_len_take(fs, i + 1);
        }
        if len > 0x7fff_ffff - total {
            return false;
        }
        total += len;
        i += 1;
    }
    assert(fs.take(i as int) =~= fs);
    true
}

/// Creates a PAK file from the given files, in their order, and gives it
/// the name `name`. The archive is laid out as header, contents, directory;
/// each entry takes the first 56 characters of its file's name.
pub fn create_pak(files: &Vec<MemberFile>, name: &str) -> (pak: PakFile)
    requires
        archive_fits(files.deep_view()),
    ensures
        pak@ == archive_of(files.deep_view(), name@),
        pak@.directory.len() == files@.len(),
        valid_archive(pak@.data),
        Header::parse(pak@.data) matches Ok(h) && h.dir_offset == HEADER_SIZE + contents_len(
            files.deep_view(),
        ) && h.dir_length == DIR_ENTRY_SIZE * pak@.directory.len(),
{
    let ghost fs = files.deep_view();
    let mut directory_offset: i32 = 12;
    let mut directory_length: i32 = 0;
    let mut out: Vec<u8> = Vec::new();
    // Write magic bytes, then move ahead to the file section
    out.push(0x50);
    out.push(0x41);
    out.push(0x43);
    out.push(0x4B);
    let mut pad: usize = 0;
    while pad < 8
        invariant
            pad <= 8,
            out@.len() == 4 + pad,
            out@.subrange(0, 4) == magic(),
        decreases 8 - pad,
    {
        out.push(0);
        pad += 1;
        assert(out@.subrange(0, 4) =~= magic());
    }
    let ghost gap = out@;
    let mut directory_entries: Vec<DirectoryEntry> = Vec::new();
    let mut i: usize = 0;
    while i < files.len()
        invariant
            i <= files@.len(),
            fs == files.deep_view(),
            archive_fits(fs),
            gap.len() == 12,
            out@ == gap + contents(fs.take(i as int)),
            directory_offset == HEADER_SIZE + contents_len(fs.take(i as int)),
            directory_length == DIR_ENTRY_SIZE * i,
            directory_entries@.len() == i,
            forall|j: int|
                0 <= j < i ==> (#[trigger] directory_entries@[j])@ == entry_for(fs, j),
        decreases files@.len() - i,
    {
        let file = &files[i];
        let file_len: usize = file.content.len();
        proof {
            lemma_contents_step(fs, i as int);
            lemma_contents_len_take(fs, i as int);
            lemma_contents_len_take(fs, i + 1);
            assert(fs[i as int].content.len() == file_len);
        }
        let file_name = create_file_name(file.name.as_str());

        let pak_entry = DirectoryEntry {
            name: file_name,
            length: file_len as i32,
            position: directory_offset,
        };
        directory_entries.push(pak_entry);

        // Write the content to the PAK file
        out.extend_from_slice(file.content.as_slice());
        assert(out@ =~= gap + contents(fs.take(i + 1)));

        // Move the offset and total length forward
        directory_offset += file_len as i32;
        directory_length += 64;
        i += 1;
    }
    assert(fs.take(i as int) =~= fs);
    assert(directory_entries.deep_view() =~= directory_for(fs));
    let ghost dir = directory_for(fs);

    // Write the directory entries
    let mut k: usize = 0;
    while k < directory_entries.len()
        invariant
            k <= directory_entries@.len(),
            directory_entries.deep_view() == dir,
            out@ == gap + contents(fs) + directory_bytes(dir.take(k as int)),
        decreases directory_entries@.len() - k,
    {
        proof {
            lemma_directory_step(dir, k as int);
        }
        directory_entries[k].write(&mut out);
        assert(out@ =~= gap + contents(fs) + directory_bytes(dir.take(k + 1)));
        k += 1;
    }
    assert(dir.take(k as int) =~= dir);

    // Write the rest of the header
    put_i32(&mut out, 4, directory_offset);
    put_i32(&mut out, 8, directory_length);
    assert(out@ =~= archive_bytes(fs)) by {
        assert(gap.subrange(0, 4) == magic());
    }

    proof {
        lemma_created_archive_valid(fs);
    }

    // Assemble the struct
    PakFile { name: name.to_owned(), directory: directory_entries, data: out }
}

} // verus!
