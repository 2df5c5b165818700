use quake_files::pak::{
    create_file_name, fits_archive, DirectoryEntry, Extraction, Header, MemberFile,
};
use quake_files::{create_pak, IoErrorKind, PakFile, QError};

const PAK0: &str = "Id1/PAK0.PAK";

fn file(name: &str, content: &[u8]) -> MemberFile {
    MemberFile { name: name.to_string(), content: content.to_vec() }
}

fn name_field(name: &[u8]) -> [u8; 56] {
    let mut field = [0u8; 56];
    field[..name.len()].copy_from_slice(name);
    field
}

/// An archive put together by hand: header, content, directory.
fn archive(content: &[u8], entries: &[DirectoryEntry]) -> Vec<u8> {
    let mut out = Vec::new();
    let header = Header {
        dir_offset: 12 + content.len() as i32,
        dir_length: 64 * entries.len() as i32,
    };
    header.write(&mut out);
    out.extend_from_slice(content);
    for entry in entries {
        entry.write(&mut out);
    }
    out
}

#[test]
fn read_pak() {
    let mut files = Vec::new();
    for i in 0..339 {
        files.push(file(&format!("maps/e1m{}.bsp", i), &[i as u8; 5]));
    }
    let data = create_pak(&files, PAK0).data().to_vec();
    let pak = PakFile::read(PAK0, data).unwrap();
    assert_eq!(pak.directory().len(), 339);
    assert_eq!(pak.name(), "PAK0.PAK");
}

#[test]
fn scenario_two_files() {
    let files = vec![file("a.txt", b"abc"), file("b.bin", b"")];
    let pak = create_pak(&files, "out.pak");
    assert_eq!(pak.data().len(), 12 + 3 + 0 + 128);
    let header = Header::read(pak.data()).unwrap();
    assert_eq!(header.dir_offset, 15);
    assert_eq!(header.dir_length, 128);
    let dir = pak.directory();
    assert_eq!(dir.len(), 2);
    assert_eq!(dir[0].name_str(), "a.txt");
    assert_eq!(dir[0].position, 12);
    assert_eq!(dir[0].length, 3);
    assert_eq!(dir[1].name_str(), "b.bin");
    assert_eq!(dir[1].position, 15);
    assert_eq!(dir[1].length, 0);
}

#[test]
fn created_archive_bytes_are_exact() {
    let files = vec![file("a.txt", b"abc"), file("b.bin", b"")];
    let pak = create_pak(&files, "out.pak");
    let mut expected = Vec::new();
    expected.extend_from_slice(b"PACK");
    expected.extend_from_slice(&[15, 0, 0, 0, 128, 0, 0, 0]);
    expected.extend_from_slice(b"abc");
    expected.extend_from_slice(&name_field(b"a.txt"));
    expected.extend_from_slice(&[12, 0, 0, 0, 3, 0, 0, 0]);
    expected.extend_from_slice(&name_field(b"b.bin"));
    expected.extend_from_slice(&[15, 0, 0, 0, 0, 0, 0, 0]);
    assert_eq!(pak.data(), &expected[..]);
    assert_eq!(pak.name(), "out.pak");
}

#[test]
fn created_archive_keeps_the_whole_name_given() {
    let pak = create_pak(&Vec::new(), "some/dir/out.pak");
    assert_eq!(pak.name(), "some/dir/out.pak");
    assert_eq!(pak.directory().len(), 0);
    assert_eq!(pak.data(), &[0x50, 0x41, 0x43, 0x4B, 12, 0, 0, 0, 0, 0, 0, 0][..]);
}

#[test]
fn round_trip_reproduces_every_file() {
    let files = vec![
        file("progs.dat", &[1, 2, 3, 4, 5]),
        file("empty", b""),
        file("gfx.wad", &[0xff; 300]),
        file("a-name-of-exactly-fifty-six-bytes-which-fills-the-field!", b"full"),
    ];
    assert_eq!(files[3].name.len(), 56);
    let created = create_pak(&files, "id1.pak");
    let reopened = PakFile::read("games/id1.pak", created.data().to_vec()).unwrap();
    for pak in [&created, &reopened] {
        let Extraction { files: out, failure } = pak.extract_to();
        assert_eq!(failure, None);
        assert_eq!(out.len(), files.len());
        for (a, b) in out.iter().zip(files.iter()) {
            assert_eq!(a.name, b.name);
            assert_eq!(a.content, b.content);
        }
    }
}

#[test]
fn reopened_archive_has_the_directory_that_was_written() {
    let files = vec![file("x", b"0123456789"), file("y", b"ab")];
    let created = create_pak(&files, "p.pak");
    let reopened = PakFile::open(Some("p.pak".to_string()), created.data().to_vec()).unwrap();
    assert_eq!(reopened.directory().len(), created.directory().len());
    for (a, b) in reopened.directory().iter().zip(created.directory().iter()) {
        assert_eq!(a.name, b.name);
        assert_eq!(a.position, b.position);
        assert_eq!(a.length, b.length);
    }
    assert_eq!(reopened.directory()[1].position, 22);
    let header = Header::read(reopened.data()).unwrap();
    assert_eq!(header.dir_length as usize, 64 * reopened.directory().len());
    assert_eq!(header.dir_offset, 24);
    assert_eq!(reopened.data(), created.data());
}

#[test]
fn entry_count_equals_number_of_files() {
    for n in [0usize, 1, 2, 17] {
        let files: Vec<MemberFile> =
            (0..n).map(|i| file(&format!("f{}", i), &vec![7u8; i])).collect();
        let pak = create_pak(&files, "n.pak");
        assert_eq!(pak.directory().len(), n);
        let header = Header::read(pak.data()).unwrap();
        assert_eq!(header.dir_length as usize, 64 * n);
    }
}

#[test]
fn header_read_parses_little_endian_fields() {
    let bytes = [0x50, 0x41, 0x43, 0x4B, 0x78, 0x56, 0x34, 0x12, 0xc0, 0xbd, 0xf0, 0xff, 9, 9];
    let header = Header::read(&bytes).unwrap();
    assert_eq!(header.dir_offset, 0x12345678);
    assert_eq!(header.dir_length, -1_000_000);
}

#[test]
fn header_read_rejects_any_other_signature() {
    let rest = [15u8, 0, 0, 0, 128, 0, 0, 0];
    for prefix in [*b"PACk", *b"pack", *b"KCAP", *b"WAD2", [0, 0, 0, 0], *b"PAC\0"] {
        let mut bytes = prefix.to_vec();
        bytes.extend_from_slice(&rest);
        assert_eq!(Header::read(&bytes), Err(QError::BadMagicBytes));
        assert_eq!(Header::read(&prefix), Err(QError::BadMagicBytes));
        let opened = PakFile::open(Some("x.pak".to_string()), bytes);
        assert_eq!(opened.err(), Some(QError::BadMagicBytes));
    }
}

#[test]
fn header_read_of_short_input() {
    assert_eq!(Header::read(b""), Err(QError::BadMagicBytes));
    assert_eq!(Header::read(b"PAC"), Err(QError::BadMagicBytes));
    let eof = Err(QError::IoError(IoErrorKind::UnexpectedEof));
    assert_eq!(Header::read(b"PACK"), eof);
    assert_eq!(Header::read(b"PACK\x0c\0\0\0\0\0\0"), eof);
    assert_eq!(
        Header::read(b"PACK\x0c\0\0\0\0\0\0\0"),
        Ok(Header { dir_offset: 12, dir_length: 0 })
    );
}

#[test]
fn header_write_emits_twelve_bytes() {
    let mut out = vec![0xaa];
    Header { dir_offset: 15, dir_length: 128 }.write(&mut out);
    assert_eq!(out, [0xaa, 0x50, 0x41, 0x43, 0x4B, 15, 0, 0, 0, 128, 0, 0, 0]);
    let mut out = Vec::new();
    Header { dir_offset: -2, dir_length: i32::MAX }.write(&mut out);
    assert_eq!(out, [0x50, 0x41, 0x43, 0x4B, 0xfe, 0xff, 0xff, 0xff, 0xff, 0xff, 0xff, 0x7f]);
    assert_eq!(Header::read(&out), Ok(Header { dir_offset: -2, dir_length: i32::MAX }));
}

#[test]
fn entry_read_takes_sixty_four_bytes() {
    let mut bytes = name_field(b"maps/start.bsp").to_vec();
    bytes.extend_from_slice(&[0x0c, 0, 0, 0, 0x00, 0x01, 0, 0]);
    bytes.push(0x77);
    let entry = DirectoryEntry::read(&bytes).unwrap();
    assert_eq!(entry.name, name_field(b"maps/start.bsp"));
    assert_eq!(entry.name_str(), "maps/start.bsp");
    assert_eq!(entry.name_len(), 14);
    assert_eq!(entry.position, 12);
    assert_eq!(entry.length, 256);
    let short = DirectoryEntry::read(&bytes[..63]);
    assert_eq!(short.err(), Some(QError::IoError(IoErrorKind::UnexpectedEof)));
}

#[test]
fn entry_write_emits_sixty_four_bytes() {
    let entry = DirectoryEntry { name: name_field(b"a.txt"), position: 12, length: -1 };
    let mut out = Vec::new();
    entry.write(&mut out);
    assert_eq!(out.len(), 64);
    assert_eq!(&out[..56], &name_field(b"a.txt")[..]);
    assert_eq!(&out[56..], &[12, 0, 0, 0, 0xff, 0xff, 0xff, 0xff][..]);
    let back = DirectoryEntry::read(&out).unwrap();
    assert_eq!(back.name, entry.name);
    assert_eq!(back.position, 12);
    assert_eq!(back.length, -1);
}

#[test]
fn name_without_terminator_is_a_full_length_name() {
    let entry = DirectoryEntry { name: [b'x'; 56], position: 0, length: 0 };
    assert_eq!(entry.name_len(), 56);
    assert_eq!(entry.name_str(), "x".repeat(56));
    let full: Vec<char> = "x".repeat(56).chars().collect();
    assert!(entry.has_name(&full));
    let shorter: Vec<char> = "x".repeat(55).chars().collect();
    assert!(!entry.has_name(&shorter));
}

#[test]
fn name_ends_at_the_first_zero_byte() {
    let mut field = name_field(b"ab");
    field[3] = b'c';
    let entry = DirectoryEntry { name: field, position: 0, length: 0 };
    assert_eq!(entry.name_str(), "ab");
    let empty = DirectoryEntry { name: [0; 56], position: 0, length: 0 };
    assert_eq!(empty.name_str(), "");
    assert_eq!(empty.name_len(), 0);
}

#[test]
fn name_bytes_decode_one_character_each() {
    let entry = DirectoryEntry { name: name_field(&[b'a', 0xe9, 0xff]), position: 0, length: 0 };
    assert_eq!(entry.name_str(), "a\u{e9}\u{ff}");
}

#[test]
fn file_name_is_padded_with_zero_bytes() {
    assert_eq!(create_file_name("a.txt"), name_field(b"a.txt"));
    assert_eq!(create_file_name(""), [0u8; 56]);
}

#[test]
fn file_name_is_cut_after_fifty_six_characters() {
    let long = "0123456789".repeat(6);
    let field = create_file_name(&long);
    assert_eq!(&field[..], &long.as_bytes()[..56]);
    let exact = "y".repeat(56);
    assert_eq!(create_file_name(&exact), [b'y'; 56]);
}

#[test]
fn file_name_maps_each_character_to_one_byte() {
    let field = create_file_name("\u{e9}\u{20ac}z");
    assert_eq!(field, name_field(&[0xe9, 0xac, b'z']));
}

#[test]
fn entry_debug_string_is_exact() {
    let entry = DirectoryEntry { name: name_field(b"a.txt"), position: 12, length: 3 };
    assert_eq!(entry.debug_string(), "DirectoryEntry { name: a.txt, position: 12, length: 3 }");
    let entry = DirectoryEntry { name: name_field(b""), position: -2147483648, length: 0 };
    assert_eq!(
        entry.debug_string(),
        "DirectoryEntry { name: , position: -2147483648, length: 0 }"
    );
}

#[test]
fn open_without_a_file_name_fails() {
    let data = create_pak(&Vec::new(), "x").data().to_vec();
    assert_eq!(PakFile::open(None, data.clone()).err(), Some(QError::BadFileName));
    assert_eq!(PakFile::open(None, Vec::new()).err(), Some(QError::BadFileName));
    assert_eq!(PakFile::read("..", data.clone()).err(), Some(QError::BadFileName));
    assert_eq!(PakFile::read("", data).err(), Some(QError::BadFileName));
}

#[test]
fn read_takes_the_last_component_of_the_path() {
    let data = create_pak(&Vec::new(), "x").data().to_vec();
    let pak = PakFile::read("games/id1/pak1.pak", data.clone()).unwrap();
    assert_eq!(pak.name(), "pak1.pak");
    let pak = PakFile::read("pak1.pak", data).unwrap();
    assert_eq!(pak.name(), "pak1.pak");
}

#[test]
fn open_counts_whole_entries_only() {
    let entry = DirectoryEntry { name: name_field(b"one"), position: 12, length: 1 };
    let mut data = Vec::new();
    Header { dir_offset: 13, dir_length: 64 + 63 }.write(&mut data);
    data.push(b'!');
    entry.write(&mut data);
    data.extend_from_slice(&[0u8; 63]);
    let pak = PakFile::open(Some("p".to_string()), data).unwrap();
    assert_eq!(pak.directory().len(), 1);
    assert_eq!(pak.read_file("one"), Ok(vec![b'!']));
}

#[test]
fn open_fails_on_a_directory_beyond_the_end() {
    let eof = Some(QError::IoError(IoErrorKind::UnexpectedEof));
    let mut data = Vec::new();
    Header { dir_offset: 12, dir_length: 64 }.write(&mut data);
    data.extend_from_slice(&[0u8; 63]);
    assert_eq!(PakFile::open(Some("p".to_string()), data.clone()).err(), eof);
    data.push(0);
    assert_eq!(PakFile::open(Some("p".to_string()), data).unwrap().directory().len(), 1);
    let mut data = Vec::new();
    Header { dir_offset: 1000, dir_length: 64 }.write(&mut data);
    assert_eq!(PakFile::open(Some("p".to_string()), data).err(), eof);
}

#[test]
fn open_fails_on_negative_header_fields() {
    let invalid = Some(QError::IoError(IoErrorKind::InvalidInput));
    let mut data = Vec::new();
    Header { dir_offset: -1, dir_length: 0 }.write(&mut data);
    assert_eq!(PakFile::open(Some("p".to_string()), data).err(), invalid);
    let mut data = Vec::new();
    Header { dir_offset: 12, dir_length: -64 }.write(&mut data);
    assert_eq!(PakFile::open(Some("p".to_string()), data).err(), invalid);
}

#[test]
fn open_of_an_empty_directory_reads_nothing() {
    let mut data = Vec::new();
    Header { dir_offset: 5000, dir_length: 63 }.write(&mut data);
    let pak = PakFile::open(Some("p".to_string()), data).unwrap();
    assert_eq!(pak.directory().len(), 0);
}

#[test]
fn read_file_of_an_absent_name_is_not_found() {
    let pak = create_pak(&vec![file("a.txt", b"abc")], "p.pak");
    assert_eq!(pak.read_file("b.txt"), Err(QError::FileNotFound));
    assert_eq!(pak.read_file("a.tx"), Err(QError::FileNotFound));
    assert_eq!(pak.read_file("A.TXT"), Err(QError::FileNotFound));
    assert_eq!(pak.read_file(""), Err(QError::FileNotFound));
    assert_eq!(pak.read_file("a.txt"), Ok(b"abc".to_vec()));
    let empty = create_pak(&Vec::new(), "e.pak");
    assert_eq!(empty.read_file("a.txt"), Err(QError::FileNotFound));
}

#[test]
fn read_file_takes_the_first_entry_of_a_name() {
    let files = vec![file("same", b"first"), file("other", b"--"), file("same", b"second!")];
    let pak = create_pak(&files, "p.pak");
    assert_eq!(pak.read_file("same"), Ok(b"first".to_vec()));
    let Extraction { files: out, failure } = pak.extract_to();
    assert_eq!(failure, None);
    assert_eq!(out.len(), 3);
    assert_eq!(out[2].name, "same");
    assert_eq!(out[2].content, b"first");
    assert_eq!(out[1].content, b"--");
}

#[test]
fn read_file_fails_on_entries_that_point_outside() {
    let entries = [
        DirectoryEntry { name: name_field(b"long"), position: 12, length: 2000 },
        DirectoryEntry { name: name_field(b"far"), position: 100_000, length: 1 },
        DirectoryEntry { name: name_field(b"before"), position: -1, length: 1 },
        DirectoryEntry { name: name_field(b"less"), position: 12, length: -1 },
        DirectoryEntry { name: name_field(b"nothing"), position: 100_000, length: 0 },
        DirectoryEntry { name: name_field(b"whole"), position: 0, length: 16 + 6 * 64 },
    ];
    let pak = PakFile::open(Some("p".to_string()), archive(b"abcd", &entries)).unwrap();
    let eof = Err(QError::IoError(IoErrorKind::UnexpectedEof));
    let invalid = Err(QError::IoError(IoErrorKind::InvalidInput));
    assert_eq!(pak.read_file("long"), eof);
    assert_eq!(pak.read_file("far"), eof);
    assert_eq!(pak.read_file("before"), invalid);
    assert_eq!(pak.read_file("less"), invalid);
    assert_eq!(pak.read_file("nothing"), Ok(Vec::new()));
    assert_eq!(pak.read_file("whole"), Ok(pak.data().to_vec()));
}

#[test]
fn extraction_stops_at_the_first_failure() {
    let entries = [
        DirectoryEntry { name: name_field(b"ok"), position: 12, length: 2 },
        DirectoryEntry { name: name_field(b"bad"), position: 12, length: 9999 },
        DirectoryEntry { name: name_field(b"late"), position: 14, length: 2 },
    ];
    let pak = PakFile::open(Some("p".to_string()), archive(b"abcd", &entries)).unwrap();
    let Extraction { files, failure } = pak.extract_to();
    assert_eq!(failure, Some(QError::IoError(IoErrorKind::UnexpectedEof)));
    assert_eq!(files.len(), 1);
    assert_eq!(files[0].name, "ok");
    assert_eq!(files[0].content, b"ab");
    assert_eq!(pak.read_file("late"), Ok(b"cd".to_vec()));
}

#[test]
fn long_names_collide_after_truncation() {
    let first = format!("{}{}", "n".repeat(56), "-one");
    let second = format!("{}{}", "n".repeat(56), "-two");
    let pak = create_pak(&vec![file(&first, b"1"), file(&second, b"2")], "p.pak");
    assert_eq!(pak.directory()[0].name, pak.directory()[1].name);
    assert_eq!(pak.read_file(&"n".repeat(56)), Ok(b"1".to_vec()));
    assert_eq!(pak.read_file(&first), Err(QError::FileNotFound));
}

#[test]
fn small_files_fit_an_archive() {
    assert!(fits_archive(&Vec::new()));
    assert!(fits_archive(&vec![file("a", &[0u8; 1000]), file("b", b"")]));
}

#[test]
fn contents_beyond_the_signed_range_do_not_fit() {
    let mut big = MemberFile { name: "big".to_string(), content: vec![0u8; 0x7fff_fff4] };
    assert!(!fits_archive(&vec![file("small", b"."), big]));
    big = MemberFile { name: "big".to_string(), content: vec![0u8; 0x7fff_fff3] };
    let files = vec![big];
    assert!(fits_archive(&files));
    let files = vec![files.into_iter().next().unwrap(), file("one more", b".")];
    assert!(!fits_archive(&files));
}
