use install_core::codec::{read_chunk_manifest, read_file_manifest, write_chunk_manifest, write_file_manifest};
use install_core::manifest::{ChangeTag, ChunkRecord, FileRecord, ManifestError};

fn file(sha: &str, name: &str, chunks: usize, flags: u32, size: u64, tag: Option<ChangeTag>) -> FileRecord {
    FileRecord {
        sha: sha.to_string(),
        file_name: name.to_string(),
        chunks,
        flags,
        size_in_bytes: size,
        tag,
    }
}

fn same_file(a: &FileRecord, b: &FileRecord) -> bool {
    a.sha == b.sha
        && a.file_name == b.file_name
        && a.chunks == b.chunks
        && a.flags == b.flags
        && a.size_in_bytes == b.size_in_bytes
        && a.tag == b.tag
}

#[test]
fn reads_rows_without_tag_column_as_untagged() {
    let text = b"sha,file_name,chunks,flags,size_in_bytes\n,a,0,40,0\nabc,a\\b.bin,1,0,4\n";
    let records = read_file_manifest(text).unwrap();
    assert_eq!(records.len(), 2);
    assert!(same_file(&records[0], &file("", "a", 0, 40, 0, None)));
    assert!(same_file(&records[1], &file("abc", "a\\b.bin", 1, 0, 4, None)));
    assert!(records[0].is_directory());
    assert!(!records[1].is_directory());
}

#[test]
fn reads_the_tag_column() {
    let text = b"sha,file_name,chunks,flags,size_in_bytes,tag\nabc,a.txt,1,0,4,Added\ndef,b.txt,2,0,9,Modified\n,c,0,40,0,Removed\nfff,d.txt,1,0,1,\n";
    let records = read_file_manifest(text).unwrap();
    assert_eq!(records.len(), 4);
    assert_eq!(records[0].tag, Some(ChangeTag::Added));
    assert_eq!(records[1].tag, Some(ChangeTag::Modified));
    assert_eq!(records[2].tag, Some(ChangeTag::Removed));
    assert_eq!(records[3].tag, None);
}

#[test]
fn file_manifest_round_trips_through_csv() {
    let records = vec![
        file("", "dir", 0, 40, 0, None),
        file("00ff", "dir\\a, \"quoted\".bin", 3, 0, 3_000_000, Some(ChangeTag::Added)),
        file("AbC", " padded name ", 1, 7, u64::MAX, Some(ChangeTag::Modified)),
        file("e3b0", "gone.txt", 0, 0, 0, Some(ChangeTag::Removed)),
    ];
    let bytes = write_file_manifest(&records).unwrap();
    let back = read_file_manifest(&bytes).unwrap();
    assert_eq!(back.len(), records.len());
    for (a, b) in back.iter().zip(records.iter()) {
        assert!(same_file(a, b));
    }
    assert_eq!(write_file_manifest(&back).unwrap(), bytes);
}

#[test]
fn written_file_manifest_has_header_and_decimal_fields() {
    let records = vec![file("ab", "x.bin", 2, 0, 10, Some(ChangeTag::Added))];
    let bytes = write_file_manifest(&records).unwrap();
    assert_eq!(
        String::from_utf8(bytes).unwrap(),
        "sha,file_name,chunks,flags,size_in_bytes,tag\nab,x.bin,2,0,10,Added\n"
    );
}

#[test]
fn empty_manifest_is_written_as_nothing() {
    assert_eq!(write_file_manifest(&Vec::new()).unwrap(), Vec::<u8>::new());
    assert_eq!(write_chunk_manifest(&Vec::new()).unwrap(), Vec::<u8>::new());
    assert_eq!(read_file_manifest(b"").unwrap().len(), 0);
}

#[test]
fn chunk_manifest_round_trips_through_csv() {
    let records = vec![
        ChunkRecord { sha: "pfx_0_aa".to_string(), file_path: "a\\b.bin".to_string(), id: 0 },
        ChunkRecord { sha: "pfx_1_bb".to_string(), file_path: "a\\b.bin".to_string(), id: 1 },
        ChunkRecord { sha: "x".to_string(), file_path: "c".to_string(), id: 65535 },
    ];
    let bytes = write_chunk_manifest(&records).unwrap();
    assert_eq!(
        String::from_utf8(bytes.clone()).unwrap(),
        "sha,file_path,id\npfx_0_aa,a\\b.bin,0\npfx_1_bb,a\\b.bin,1\nx,c,65535\n"
    );
    let back = read_chunk_manifest(&bytes).unwrap();
    assert_eq!(back.len(), 3);
    for (a, b) in back.iter().zip(records.iter()) {
        assert_eq!(a.sha, b.sha);
        assert_eq!(a.file_path, b.file_path);
        assert_eq!(a.id, b.id);
    }
}

#[test]
fn rows_of_unequal_length_are_malformed() {
    let text = b"sha,file_name,chunks,flags,size_in_bytes\nabc,a,1,0,4\nabc,a,1\n";
    assert!(matches!(read_file_manifest(text), Err(ManifestError::Malformed)));
}

#[test]
fn a_row_that_is_no_record_is_reported_with_its_position() {
    let text = b"sha,file_name,chunks,flags,size_in_bytes\nabc,a,1,0,4\nabc,b,many,0,4\nabc,c,x,0,4\n";
    assert!(matches!(read_file_manifest(text), Err(ManifestError::BadRecord { row: 1 })));
    let text = b"sha,file_path,id\nabc,a,70000\n";
    assert!(matches!(read_chunk_manifest(text), Err(ManifestError::BadRecord { row: 0 })));
    let text = b"sha,file_name,chunks,flags,size_in_bytes,tag\nabc,a,1,0,4,Renamed\n";
    assert!(matches!(read_file_manifest(text), Err(ManifestError::BadRecord { row: 0 })));
}
