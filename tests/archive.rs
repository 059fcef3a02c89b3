use rdss::{
    Binary, BinaryError, Compiler, CompilerBuilderError, CompilerError, Field, File, Format,
    Header, Loader, LoaderError, SourceFile, Version,
};

fn source(path: &str, content: &[u8]) -> SourceFile {
    SourceFile { path: path.to_string(), content: content.to_vec() }
}

fn two_files() -> Vec<SourceFile> {
    vec![source("a.txt", b"hello"), source("b.bin", &[0xFF, 0x00, 0x10])]
}

/// Header (33 bytes) plus the entry count (4 bytes).
const TOC_START: usize = 37;

fn loaded(archive: &[u8]) -> Loader {
    let mut loader = Loader::new("assets.rass");
    loader.load(archive).unwrap();
    loader
}

#[test]
fn scenario_two_files() {
    let archive = Compiler::pack(&two_files()).unwrap();
    let mut pos: usize = 0;
    let format = Format::deserialize(&archive, &mut pos).unwrap();
    assert_eq!(format.files.len(), 2);
    assert_eq!(format.files[0].path, "a.txt");
    assert_eq!((format.files[0].offset, format.files[0].size), (0, 5));
    assert_eq!(format.files[1].path, "b.bin");
    assert_eq!((format.files[1].offset, format.files[1].size), (5, 3));
    assert_eq!(pos, TOC_START + 2 * 25);
    assert_eq!(archive.len(), pos + 8);
    assert_eq!(&archive[pos..], &[b'h', b'e', b'l', b'l', b'o', 0xFF, 0x00, 0x10]);

    let loader = loaded(&archive);
    assert_eq!(loader.read("a.txt", &archive).unwrap(), "hello");
    assert_eq!(loader.read_raw("b.bin", &archive).unwrap(), vec![0xFF, 0x00, 0x10]);
}

#[test]
fn header_bytes_are_fixed() {
    let archive = Compiler::pack(&Vec::new()).unwrap();
    let mut expected = b"RASS".to_vec();
    expected.push(0);
    expected.extend_from_slice(b"github.com/levilovie/rdss");
    expected.extend_from_slice(&[0, 1, 0]);
    expected.extend_from_slice(&[0, 0, 0, 0]);
    assert_eq!(archive, expected);
}

#[test]
fn round_trip_binary_and_empty_files() {
    let sources = vec![
        source("empty", b""),
        source("dir/bytes.bin", &[0, 159, 146, 150, 0xFF]),
        source("dir/sub/also_empty", b""),
        source("z.txt", b"last"),
    ];
    let archive = Compiler::pack(&sources).unwrap();
    let loader = loaded(&archive);
    for s in &sources {
        assert_eq!(loader.read_raw(&s.path, &archive).unwrap(), s.content);
    }
}

#[test]
fn text_round_trip_keeps_newlines() {
    let text = "first line\nsecond line\r\n\ttabbed ünïcode\n";
    let archive = Compiler::pack(&vec![source("notes.md", text.as_bytes())]).unwrap();
    let loader = loaded(&archive);
    assert_eq!(loader.read("notes.md", &archive).unwrap(), text);
}

#[test]
fn packing_is_deterministic() {
    let first = Compiler::pack(&two_files()).unwrap();
    let second = Compiler::pack(&two_files()).unwrap();
    assert_eq!(first, second);
}

#[test]
fn duplicate_paths_are_rejected() {
    let sources = vec![source("x", b"1"), source("y", b"2"), source("x", b"3")];
    match Compiler::pack(&sources) {
        Err(CompilerError::DuplicatePath(p)) => assert_eq!(p, "x"),
        other => panic!("expected a duplicate path, got {:?}", other),
    }
}

#[test]
fn loader_rejects_duplicate_entries() {
    let mut format = Format::new();
    format.add_file(File::new("x".to_string(), 0, 0));
    format.add_file(File::new("x".to_string(), 0, 0));
    assert_eq!(format.check(), Err(BinaryError::DuplicatePath));
    let mut archive = Vec::new();
    format.serialize(&mut archive);
    let mut loader = Loader::new("dup.rass");
    match loader.load(&archive) {
        Err(LoaderError::DeserializationFailed(BinaryError::DuplicatePath)) => {}
        other => panic!("expected a duplicate entry, got {:?}", other),
    }
}

#[test]
fn offsets_are_tightly_packed() {
    let sizes: [usize; 5] = [3, 0, 10, 1, 7];
    let sources: Vec<SourceFile> = sizes
        .iter()
        .enumerate()
        .map(|(i, n)| source(&format!("f{}", i), &vec![i as u8; *n]))
        .collect();
    let archive = Compiler::pack(&sources).unwrap();
    let mut pos: usize = 0;
    let format = Format::deserialize(&archive, &mut pos).unwrap();
    let mut running: u64 = 0;
    for (entry, n) in format.files.iter().zip(sizes.iter()) {
        assert_eq!(entry.offset, running);
        assert_eq!(entry.size, *n as u64);
        running += entry.size;
    }
    assert_eq!(running as usize, archive.len() - pos);
}

#[test]
fn other_version_fails_with_version_mismatch() {
    let mut archive = Compiler::pack(&two_files()).unwrap();
    archive[30] = 9;
    let mut loader = Loader::new("old.rass");
    match loader.load(&archive) {
        Err(LoaderError::DeserializationFailed(BinaryError::IncorrectVersion { expected, found })) => {
            assert_eq!(expected, Version { major: 0, minor: 1, patch: 0 });
            assert_eq!(found, Version { major: 9, minor: 1, patch: 0 });
        }
        other => panic!("expected a version mismatch, got {:?}", other),
    }
    assert!(matches!(loader.files(), Err(LoaderError::NotLoaded)));
}

#[test]
fn other_magic_fails_with_identity_mismatch() {
    let mut archive = Compiler::pack(&two_files()).unwrap();
    archive[0] = b'X';
    let mut loader = Loader::new("x.rass");
    assert!(matches!(
        loader.load(&archive),
        Err(LoaderError::DeserializationFailed(BinaryError::IdentityMismatch(Field::Magic)))
    ));
    let mut archive = Compiler::pack(&two_files()).unwrap();
    archive[5] = b'G';
    assert!(matches!(
        loader.load(&archive),
        Err(LoaderError::DeserializationFailed(BinaryError::IdentityMismatch(Field::Producer)))
    ));
}

#[test]
fn truncated_table_names_the_field() {
    let archive = Compiler::pack(&two_files()).unwrap();
    let mut loader = Loader::new("t.rass");
    let cases: [(usize, Field); 6] = [
        (2, Field::Magic),
        (4, Field::Separator),
        (20, Field::Producer),
        (30, Field::MajorVersion),
        (33, Field::EntryCount),
        (TOC_START + 12, Field::EntrySize),
    ];
    for (len, field) in cases {
        match loader.load(&archive[..len]) {
            Err(LoaderError::DeserializationFailed(BinaryError::SyntaxError(f))) => {
                assert_eq!(f, field)
            }
            other => panic!("cut at {}: got {:?}", len, other),
        }
    }
}

#[test]
fn missing_file_is_not_found() {
    let archive = Compiler::pack(&two_files()).unwrap();
    let loader = loaded(&archive);
    match loader.read_raw("nonexistent.txt", &archive) {
        Err(LoaderError::FileNotFound(p)) => assert_eq!(p, "nonexistent.txt"),
        other => panic!("expected not found, got {:?}", other),
    }
}

#[test]
fn reading_before_load_fails() {
    let archive = Compiler::pack(&two_files()).unwrap();
    let loader = Loader::new("assets.rass");
    assert!(matches!(loader.read_raw("a.txt", &archive), Err(LoaderError::NotLoaded)));
    assert!(matches!(loader.read("a.txt", &archive), Err(LoaderError::NotLoaded)));
    assert!(matches!(loader.files(), Err(LoaderError::NotLoaded)));
}

#[test]
fn short_payload_is_truncated_archive() {
    let archive = Compiler::pack(&two_files()).unwrap();
    let loader = loaded(&archive);
    let cut = &archive[..archive.len() - 1];
    assert_eq!(loader.read_raw("a.txt", cut).unwrap(), b"hello".to_vec());
    match loader.read_raw("b.bin", cut) {
        Err(LoaderError::TruncatedArchive(p)) => assert_eq!(p, "b.bin"),
        other => panic!("expected truncation, got {:?}", other),
    }
}

#[test]
fn binary_content_read_as_text_is_invalid_encoding() {
    let archive = Compiler::pack(&two_files()).unwrap();
    let loader = loaded(&archive);
    match loader.read("b.bin", &archive) {
        Err(LoaderError::InvalidEncoding(p)) => assert_eq!(p, "b.bin"),
        other => panic!("expected invalid encoding, got {:?}", other),
    }
}

#[test]
fn files_lists_paths_in_order() {
    let archive = Compiler::pack(&two_files()).unwrap();
    let loader = loaded(&archive);
    assert_eq!(loader.files().unwrap(), vec!["a.txt".to_string(), "b.bin".to_string()]);
    assert_eq!(loader.binary(), "assets.rass");
}

#[test]
fn relative_path_strips_the_base() {
    assert_eq!(Compiler::relative_path("assets/img/a.png", "assets"), Some("img/a.png".to_string()));
    assert_eq!(Compiler::relative_path("assets/a.txt", "assets/"), Some("a.txt".to_string()));
    assert_eq!(Compiler::relative_path("other/a.txt", "assets"), None);
    assert_eq!(Compiler::relative_path("assetsx/a.txt", "assets"), None);
    assert_eq!(Compiler::relative_path("assets", "assets"), None);
    assert_eq!(Compiler::relative_path("assets/", "assets"), None);
}

#[test]
fn builder_needs_both_paths() {
    assert!(matches!(Compiler::builder().build(), Err(CompilerBuilderError::NoSourcesPath)));
    assert!(matches!(
        Compiler::builder().from_sources("assets".to_string()).build(),
        Err(CompilerBuilderError::NoBinaryPath)
    ));
    let compiler = Compiler::builder()
        .from_sources("assets".to_string())
        .save_to("out/assets.rass".to_string())
        .build()
        .unwrap();
    assert_eq!(compiler.sources(), "assets");
    assert_eq!(compiler.binary(), "out/assets.rass");
}

#[test]
fn header_version_check() {
    let mut header = Header::new();
    assert_eq!(header.check_version(), Ok(()));
    assert_eq!(header.check(), Ok(()));
    header.version_patch = 7;
    assert_eq!(
        header.check_version(),
        Err(BinaryError::IncorrectVersion {
            expected: Version { major: 0, minor: 1, patch: 0 },
            found: Version { major: 0, minor: 1, patch: 7 },
        })
    );
}

#[test]
fn format_round_trip_with_add_files() {
    let mut format = Format::new();
    format.add_file(File::new("one".to_string(), 0, 4));
    format.add_files(vec![File::new("two/three".to_string(), 4, 2)]);
    let mut out = Vec::new();
    format.serialize(&mut out);
    let mut pos: usize = 0;
    let back = Format::deserialize(&out, &mut pos).unwrap();
    assert_eq!(pos, out.len());
    assert_eq!(back.files.len(), 2);
    assert_eq!(back.files[1].path, "two/three");
    assert_eq!((back.files[1].offset, back.files[1].size), (4, 2));
    assert_eq!(back.check(), Ok(()));
}

#[test]
fn entry_round_trip() {
    let entry = File::new("p/q.txt".to_string(), 17, 3);
    let mut out = Vec::new();
    entry.serialize(&mut out);
    assert_eq!(out.len(), 8 + 8 + 4 + 7);
    let mut pos: usize = 0;
    let back = File::deserialize(&out, &mut pos).unwrap();
    assert_eq!((back.path.as_str(), back.offset, back.size), ("p/q.txt", 17, 3));
}
