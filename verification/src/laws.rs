//! What holds of every archive: facts about the layout that the functions
//! of this library rest on, and the laws that relate them to each other.

use crate::error::QError;
use crate::model::{
    archive_bytes, archive_fits, archive_of, byte_of_char, contents, contents_len, decoded_name,
    directory_bytes, directory_for, encoded_name, entries_of, entry_count, first_match,
    has_member, header_for, is_first_match, magic, name_end, name_ends_at,
    open_archive, parse_directory, valid_archive, EntryModel, FileModel, PakModel,
    DIR_ENTRY_SIZE, HEADER_SIZE, NAME_SIZE,
};
use crate::pak::Header;
use crate::wire::{i32_to_le, lemma_i32_le_round_trip};
use vstd::prelude::*;

verus! {

/// A file that begins with the bytes of a header reads as that header.
pub proof fn lemma_header_round_trip(h: Header, rest: Seq<u8>)
    ensures
        h.encoding().len() == HEADER_SIZE,
        Header::parse(h.encoding() + rest) == Ok::<Header, QError>(h),
{
    lemma_i32_le_round_trip(h.dir_offset as int);
    lemma_i32_le_round_trip(h.dir_length as int);
    let b = h.encoding() + rest;
    assert(b.subrange(0, 4) =~= magic());
    assert(b.subrange(4, 8) =~= i32_to_le(h.dir_offset as int));
    assert(b.subrange(8, 12) =~= i32_to_le(h.dir_length as int));
}

/// Whatever follows them, four bytes other than the signature are refused
/// as bad magic bytes.
pub proof fn lemma_bad_magic(prefix: Seq<u8>, rest: Seq<u8>)
    requires
        prefix.len() == 4,
        prefix != magic(),
    ensures
        Header::parse(prefix + rest) == Err::<Header, QError>(QError::BadMagicBytes),
        forall|name: Seq<char>|
            #[trigger] open_archive(Some(name), prefix + rest) == Err::<PakModel, QError>(
                QError::BadMagicBytes,
            ),
{
    assert((prefix + rest).subrange(0, 4) =~= prefix);
}

/// A name ends in one place only.
pub proof fn lemma_name_end(field: Seq<u8>, n: int)
    requires
        name_ends_at(field, n),
    ensures
        name_end(field) == n,
{
    let m = name_end(field);
    assert(name_ends_at(field, m));
    if m < n {
        assert(field[m] != 0);
    } else if n < m {
        assert(field[n] != 0);
    }
}

/// One more file adds its content at the end of the contents.
pub proof fn lemma_contents_step(files: Seq<FileModel>, i: int)
    requires
        0 <= i < files.len(),
    ensures
        contents(files.take(i + 1)) == contents(files.take(i)) + files[i].content,
        contents_len(files.take(i + 1)) == contents_len(files.take(i)) + files[i].content.len(),
{
    let t = files.take(i + 1);
    assert(t.drop_last() =~= files.take(i));
    assert(t.last() == files[i]);
}

/// The contents are as long as the files together.
pub proof fn lemma_contents_len(files: Seq<FileModel>)
    ensures
        contents(files).len() == contents_len(files),
        contents_len(files) >= 0,
    decreases files.len(),
{
    if files.len() > 0 {
        lemma_contents_len(files.drop_last());
    }
}

/// The first files of a list are no longer than the whole list.
pub proof fn lemma_contents_len_take(files: Seq<FileModel>, i: int)
    requires
        0 <= i <= files.len(),
    ensures
        0 <= contents_len(files.take(i)) <= contents_len(files),
    decreases files.len() - i,
{
    lemma_contents_len(files.take(i));
    if i < files.len() {
        lemma_contents_step(files, i);
        lemma_contents_len(files.take(i + 1));
        lemma_contents_len_take(files, i + 1);
    } else {
        assert(files.take(i) =~= files);
    }
}

/// One more entry adds its 64 bytes at the end of the directory.
pub proof fn lemma_directory_step(dir: Seq<EntryModel>, k: int)
    requires
        0 <= k < dir.len(),
    ensures
        directory_bytes(dir.take(k + 1)) == directory_bytes(dir.take(k)) + dir[k].encoding(),
{
    let t = dir.take(k + 1);
    assert(t.drop_last() =~= dir.take(k));
    assert(t.last() == dir[k]);
}

/// The first entry that goes by a name is one entry only.
pub proof fn lemma_first_match(dir: Seq<EntryModel>, name: Seq<char>, i: int)
    requires
        is_first_match(dir, name, i),
    ensures
        has_member(dir, name),
        first_match(dir, name) == i,
{
    let m = first_match(dir, name);
    assert(is_first_match(dir, name, m));
    if m < i {
        assert(dir[m].name_str() != name);
    } else if i < m {
        assert(dir[i].name_str() != name);
    }
}

/// A name that a directory entry can hold without loss: at most 56
/// characters, each of them one byte wide and none of them NUL. Every
/// ASCII name of at most 56 bytes without a NUL is one.
pub open spec fn storable_name(name: Seq<char>) -> bool {
    &&& name.len() <= NAME_SIZE
    &&& forall|i: int| 0 <= i < name.len() ==> 0 < (#[trigger] name[i]) as u32 && (name[i] as u32) < 256
}

/// No two of `files` have the same name.
pub open spec fn distinct_names(files: Seq<FileModel>) -> bool {
    forall|i: int, j: int|
        0 <= i < j < files.len() ==> (#[trigger] files[i]).name != (#[trigger] files[j]).name
}

/// A character that is one byte wide and not NUL comes back from its byte.
pub proof fn lemma_char_round_trip(c: char)
    requires
        0 < c as u32,
        (c as u32) < 256,
    ensures
        byte_of_char(c) != 0,
        byte_of_char(c) as char == c,
{
}

/// A storable name comes back from its name field as it went in.
pub proof fn lemma_name_round_trip(name: Seq<char>)
    requires
        storable_name(name),
    ensures
        encoded_name(name).len() == NAME_SIZE,
        name_end(encoded_name(name)) == name.len(),
        decoded_name(encoded_name(name)) == name,
{
    let field = encoded_name(name);
    assert forall|i: int| 0 <= i < name.len() implies field[i] != 0 && field[i] as char
        == name[i] by {
        lemma_char_round_trip(name[i]);
    }
    assert(name_ends_at(field, name.len() as int));
    lemma_name_end(field, name.len() as int);
    assert(decoded_name(field) =~= name);
}

/// The 64 bytes of an entry, whatever follows them, read as that entry.
pub proof fn lemma_entry_round_trip(e: EntryModel, rest: Seq<u8>)
    requires
        e.wf(),
    ensures
        e.encoding().len() == DIR_ENTRY_SIZE,
        EntryModel::parse(e.encoding() + rest) == e,
{
    lemma_i32_le_round_trip(e.position);
    lemma_i32_le_round_trip(e.length);
    let b = e.encoding() + rest;
    assert(b.subrange(0, 56) =~= e.name);
    assert(b.subrange(56, 60) =~= i32_to_le(e.position));
    assert(b.subrange(60, 64) =~= i32_to_le(e.length));
}

/// The bytes of a directory take 64 bytes for each entry, and read as the
/// entries that they were made of.
pub proof fn lemma_directory_round_trip(dir: Seq<EntryModel>)
    requires
        forall|k: int| 0 <= k < dir.len() ==> (#[trigger] dir[k]).wf(),
    ensures
        directory_bytes(dir).len() == DIR_ENTRY_SIZE * dir.len(),
        entries_of(directory_bytes(dir)) == dir,
    decreases dir.len(),
{
    let bytes = directory_bytes(dir);
    if dir.len() == 0 {
        assert(entries_of(bytes) =~= dir);
    } else {
        let front = dir.drop_last();
        let last = dir.last();
        assert forall|k: int| 0 <= k < front.len() implies (#[trigger] front[k]).wf() by {
            assert(front[k] == dir[k]);
        }
        lemma_directory_round_trip(front);
        lemma_entry_round_trip(last, Seq::empty());
        let fb = directory_bytes(front);
        assert(bytes.len() == 64 * dir.len());
        assert forall|k: int| 0 <= k < dir.len() implies entries_of(bytes)[k] == dir[k] by {
            if k < front.len() {
                assert(bytes.subrange(64 * k, 64 * k + 64) =~= fb.subrange(64 * k, 64 * k + 64));
                assert(entries_of(fb)[k] == front[k]);
            } else {
                assert(bytes.subrange(64 * k, 64 * k + 64) =~= last.encoding() + Seq::<u8>::empty());
            }
        }
        assert(entries_of(bytes) =~= dir);
    }
}

/// The content of file `i` lies in the contents where the files before it
/// end.
pub proof fn lemma_content_at(files: Seq<FileModel>, i: int)
    requires
        0 <= i < files.len(),
    ensures
        0 <= contents_len(files.take(i)),
        contents_len(files.take(i)) + files[i].content.len() <= contents(files).len(),
        contents(files).subrange(
            contents_len(files.take(i)),
            contents_len(files.take(i)) + files[i].content.len(),
        ) == files[i].content,
    decreases files.len(),
{
    let front = files.drop_last();
    lemma_contents_len(front);
    lemma_contents_len(files);
    if i == files.len() - 1 {
        assert(files.take(i) =~= front);
        assert(contents(files).subrange(
            contents_len(front),
            contents_len(front) + files[i].content.len(),
        ) =~= files[i].content);
    } else {
        lemma_content_at(front, i);
        assert(front.take(i) =~= files.take(i));
        assert(front[i] == files[i]);
        let a = contents_len(files.take(i));
        let b = a + files[i].content.len();
        assert(contents(files).subrange(a, b) =~= contents(front).subrange(a, b));
    }
}

/// In the archive made of files that fit, every entry is well formed.
pub proof fn lemma_directory_wf(files: Seq<FileModel>)
    requires
        archive_fits(files),
    ensures
        directory_for(files).len() == files.len(),
        forall|k: int| 0 <= k < files.len() ==> (#[trigger] directory_for(files)[k]).wf(),
        forall|k: int|
            0 <= k < files.len() ==> HEADER_SIZE <= (#[trigger] directory_for(files)[k]).position,
{
    assert forall|k: int| 0 <= k < files.len() implies (#[trigger] directory_for(files)[k]).wf()
        && HEADER_SIZE <= directory_for(files)[k].position by {
        lemma_contents_len_take(files, k);
        lemma_contents_len_take(files, k + 1);
        lemma_contents_step(files, k);
    }
}

/// The archive made of files that fit is valid: its header says where the
/// directory lies, and that it takes 64 bytes for each file.
pub proof fn lemma_created_archive_valid(files: Seq<FileModel>)
    requires
        archive_fits(files),
    ensures
        valid_archive(archive_bytes(files)),
        Header::parse(archive_bytes(files)) == Ok::<Header, QError>(header_for(files)),
        header_for(files).dir_offset == HEADER_SIZE + contents_len(files),
        header_for(files).dir_length == DIR_ENTRY_SIZE * directory_for(files).len(),
        archive_bytes(files).len() == HEADER_SIZE + contents_len(files) + DIR_ENTRY_SIZE
            * files.len(),
{
    let h = header_for(files);
    let dir = directory_for(files);
    let rest = contents(files) + directory_bytes(dir);
    lemma_contents_len(files);
    assert(directory_bytes(dir).len() == 64 * files.len()) by {
        lemma_directory_wf(files);
        lemma_directory_round_trip(dir);
    }
    lemma_header_round_trip(h, rest);
    assert(archive_bytes(files) =~= h.encoding() + rest);
    assert(rest.len() == contents_len(files) + 64 * files.len());
}

/// Opening the bytes of the archive made of `files` gives that archive
/// again: the same directory over the same bytes.
pub proof fn lemma_reopen(files: Seq<FileModel>, name: Seq<char>)
    requires
        archive_fits(files),
    ensures
        open_archive(Some(name), archive_bytes(files)) == Ok::<PakModel, QError>(
            archive_of(files, name),
        ),
{
    let data = archive_bytes(files);
    let h = header_for(files);
    let dir = directory_for(files);
    lemma_created_archive_valid(files);
    lemma_contents_len(files);
    lemma_directory_wf(files);
    lemma_directory_round_trip(dir);
    lemma_header_round_trip(h, Seq::empty());
    let off = h.dir_offset as int;
    let n = files.len() as int;
    assert(entry_count(h.dir_length as int) == n);
    if n == 0 {
        assert(entries_of(Seq::<u8>::empty()) =~= dir);
    } else {
        assert(data.subrange(off, off + 64 * n) =~= directory_bytes(dir));
    }
    assert(parse_directory(data, h) == Ok::<Seq<EntryModel>, QError>(dir));
}

/// A valid archive opens, and its directory has one entry for each 64
/// bytes that the header announces.
pub proof fn lemma_valid_archive_opens(name: Seq<char>, data: Seq<u8>)
    requires
        valid_archive(data),
    ensures
        open_archive(Some(name), data) is Ok,
        DIR_ENTRY_SIZE * open_archive(Some(name), data)->Ok_0.directory.len() == Header::parse(
            data,
        )->Ok_0.dir_length,
{
}

/// A name that no entry goes by is not found.
pub proof fn lemma_lookup_failure(pak: PakModel, name: Seq<char>)
    requires
        !has_member(pak.directory, name),
    ensures
        pak.read_file(name) == Err::<Seq<u8>, QError>(QError::FileNotFound),
{
}

/// Round trip: files with storable names, no two of them alike, come out
/// of the archive made of them as they went in, name for name and byte for
/// byte, and in the same order.
pub proof fn lemma_round_trip(files: Seq<FileModel>, name: Seq<char>)
    requires
        archive_fits(files),
        distinct_names(files),
        forall|i: int| 0 <= i < files.len() ==> storable_name((#[trigger] files[i]).name),
    ensures
        archive_of(files, name).extracts_to(files, None),
        open_archive(Some(name), archive_bytes(files)) matches Ok(pak) && pak.extracts_to(
            files,
            None,
        ),
{
    lemma_reopen(files, name);
    let pak = archive_of(files, name);
    let dir = pak.directory;
    lemma_directory_wf(files);
    lemma_contents_len(files);
    assert forall|k: int| 0 <= k < files.len() implies (#[trigger] dir[k]).name_str()
        == files[k].name by {
        lemma_name_round_trip(files[k].name);
    }
    assert forall|k: int| 0 <= k < files.len() implies pak.read_file(dir[k].name_str()) == Ok::<
        Seq<u8>,
        QError,
    >((#[trigger] files[k]).content) by {
        let wanted = dir[k].name_str();
        assert forall|j: int| 0 <= j < k implies (#[trigger] dir[j]).name_str() != wanted by {
            assert(files[j].name != files[k].name);
        }
        lemma_first_match(dir, wanted, k);
        lemma_content_at(files, k);
        lemma_contents_len_take(files, k);
        let a = contents_len(files.take(k));
        let len = files[k].content.len() as int;
        lemma_header_round_trip(header_for(files), Seq::empty());
        if len == 0 {
            assert(files[k].content =~= Seq::<u8>::empty());
        } else {
            assert(pak.data.subrange(12 + a, 12 + a + len) =~= contents(files).subrange(
                a,
                a + len,
            ));
        }
    }
}

/// What lies beyond 56 characters leaves no trace in the name field: two
/// names that agree up to there get the same field.
pub proof fn lemma_name_truncated(name: Seq<char>)
    requires
        name.len() >= NAME_SIZE,
    ensures
        encoded_name(name) == encoded_name(name.take(NAME_SIZE as int)),
{
    assert(encoded_name(name) =~= encoded_name(name.take(NAME_SIZE as int)));
}

/// An archive extracts in one way only: the files that come out and the
/// error that ends the extraction are determined by the archive.
pub proof fn lemma_extraction_unique(
    pak: PakModel,
    files: Seq<FileModel>,
    failure: Option<QError>,
    other_files: Seq<FileModel>,
    other_failure: Option<QError>,
)
    requires
        pak.extracts_to(files, failure),
        pak.extracts_to(other_files, other_failure),
    ensures
        files == other_files,
        failure == other_failure,
{
    let n = files.len() as int;
    let m = other_files.len() as int;
    if n < m {
        assert(other_files[n].name == pak.directory[n].name_str());
    } else if m < n {
        assert(files[m].name == pak.directory[m].name_str());
    }
    assert forall|k: int| 0 <= k < n implies files[k] == other_files[k] by {
        assert(files[k].name == other_files[k].name);
        assert(files[k].content == other_files[k].content);
    }
    assert(files =~= other_files);
}

} // verus!
