use install_core::delta::{synthesize_delta, synthesize_delta_chunks};
use install_core::manifest::{ChangeTag, ChunkRecord, FileRecord};

fn file(name: &str, sha: &str, chunks: usize) -> FileRecord {
    FileRecord {
        sha: sha.to_string(),
        file_name: name.to_string(),
        chunks,
        flags: 0,
        size_in_bytes: 10 * chunks as u64,
        tag: None,
    }
}

fn dir(name: &str) -> FileRecord {
    FileRecord {
        sha: String::new(),
        file_name: name.to_string(),
        chunks: 0,
        flags: 40,
        size_in_bytes: 0,
        tag: None,
    }
}

fn tagged(mut record: FileRecord, tag: ChangeTag) -> FileRecord {
    record.tag = Some(tag);
    record
}

fn chunk(path: &str, id: u16) -> ChunkRecord {
    ChunkRecord { sha: format!("{}_{}_hash", path, id), file_path: path.to_string(), id }
}

fn summary(delta: &Vec<FileRecord>) -> Vec<(String, String, Option<ChangeTag>)> {
    delta.iter().map(|r| (r.file_name.clone(), r.sha.clone(), r.tag)).collect()
}

fn kept(chunks: &Vec<ChunkRecord>) -> Vec<(String, u16)> {
    chunks.iter().map(|c| (c.file_path.clone(), c.id)).collect()
}

fn entry(name: &str, sha: &str, tag: ChangeTag) -> (String, String, Option<ChangeTag>) {
    (name.to_string(), sha.to_string(), Some(tag))
}

#[test]
fn delta_of_an_added_file() {
    let old = vec![file("a.txt", "s1", 1)];
    let new = vec![file("a.txt", "s1", 1), file("b.txt", "s2", 2)];
    let delta = synthesize_delta(&old, &new);
    assert_eq!(summary(&delta), vec![entry("b.txt", "s2", ChangeTag::Added)]);
    assert_eq!(delta[0].chunks, 2);
    assert_eq!(delta[0].size_in_bytes, 20);
    let chunks = vec![chunk("a.txt", 0), chunk("b.txt", 0), chunk("b.txt", 1)];
    let needed = synthesize_delta_chunks(&delta, &chunks);
    assert_eq!(kept(&needed), vec![("b.txt".to_string(), 0), ("b.txt".to_string(), 1)]);
    assert_eq!(needed[0].sha, "b.txt_0_hash");
}

#[test]
fn delta_of_a_removed_file() {
    let old = vec![file("a.txt", "s1", 1), file("b.txt", "s2", 1)];
    let new = vec![file("a.txt", "s1", 1)];
    let delta = synthesize_delta(&old, &new);
    assert_eq!(summary(&delta), vec![entry("b.txt", "s2", ChangeTag::Removed)]);
    let chunks = vec![chunk("a.txt", 0)];
    assert_eq!(synthesize_delta_chunks(&delta, &chunks).len(), 0);
}

#[test]
fn delta_of_a_modified_file() {
    let old = vec![file("a.txt", "s1", 1)];
    let new = vec![file("a.txt", "s2", 3)];
    let delta = synthesize_delta(&old, &new);
    assert_eq!(summary(&delta), vec![entry("a.txt", "s2", ChangeTag::Modified)]);
    assert_eq!(delta[0].chunks, 3);
    let chunks = vec![chunk("a.txt", 0), chunk("a.txt", 1), chunk("a.txt", 2)];
    let needed = synthesize_delta_chunks(&delta, &chunks);
    assert_eq!(
        kept(&needed),
        vec![("a.txt".to_string(), 0), ("a.txt".to_string(), 1), ("a.txt".to_string(), 2)]
    );
}

#[test]
fn delta_of_equal_builds_is_empty() {
    let old = vec![dir("d"), file("d\\a.txt", "s1", 1)];
    let new = vec![dir("d"), file("d\\a.txt", "s1", 1)];
    let delta = synthesize_delta(&old, &new);
    assert_eq!(delta.len(), 0);
    assert_eq!(synthesize_delta_chunks(&delta, &vec![chunk("d\\a.txt", 0)]).len(), 0);
}

#[test]
fn delta_lists_changes_in_new_order_then_removals_in_old_order() {
    let old = vec![
        file("gone2", "g2", 1),
        file("same", "s", 1),
        file("gone1", "g1", 1),
        file("edit", "e1", 1),
    ];
    let new = vec![
        file("new2", "n2", 1),
        file("edit", "e2", 1),
        file("same", "s", 1),
        file("new1", "n1", 1),
    ];
    let delta = synthesize_delta(&old, &new);
    assert_eq!(
        summary(&delta),
        vec![
            entry("new2", "n2", ChangeTag::Added),
            entry("edit", "e2", ChangeTag::Modified),
            entry("new1", "n1", ChangeTag::Added),
            entry("gone2", "g2", ChangeTag::Removed),
            entry("gone1", "g1", ChangeTag::Removed),
        ]
    );
}

#[test]
fn delta_compares_names_and_hashes_exactly() {
    let old = vec![file("A.txt", "abc", 1), file("b.txt", "ABC", 1)];
    let new = vec![file("a.txt", "abc", 1), file("b.txt", "abc", 1)];
    let delta = synthesize_delta(&old, &new);
    assert_eq!(
        summary(&delta),
        vec![
            entry("a.txt", "abc", ChangeTag::Added),
            entry("b.txt", "abc", ChangeTag::Modified),
            entry("A.txt", "abc", ChangeTag::Removed),
        ]
    );
}

#[test]
fn delta_replaces_the_tag_of_a_record() {
    let old = vec![tagged(file("a", "1", 1), ChangeTag::Added)];
    let new = vec![tagged(file("b", "2", 1), ChangeTag::Removed)];
    let delta = synthesize_delta(&old, &new);
    assert_eq!(
        summary(&delta),
        vec![entry("b", "2", ChangeTag::Added), entry("a", "1", ChangeTag::Removed)]
    );
}

#[test]
fn applying_the_delta_to_the_old_tree_gives_the_new_tree() {
    let old = vec![
        dir("d"),
        file("d\\keep", "k", 1),
        file("d\\edit", "e1", 2),
        file("gone", "g", 1),
    ];
    let new = vec![
        dir("d"),
        file("d\\edit", "e2", 1),
        file("d\\keep", "k", 1),
        dir("n"),
        file("n\\new", "n", 4),
    ];
    let delta = synthesize_delta(&old, &new);
    let mut tree: Vec<(String, String)> =
        old.iter().map(|r| (r.file_name.clone(), r.sha.clone())).collect();
    for record in &delta {
        tree.retain(|(name, _)| *name != record.file_name);
        if record.tag != Some(ChangeTag::Removed) {
            tree.push((record.file_name.clone(), record.sha.clone()));
        }
    }
    tree.sort();
    let mut wanted: Vec<(String, String)> =
        new.iter().map(|r| (r.file_name.clone(), r.sha.clone())).collect();
    wanted.sort();
    assert_eq!(tree, wanted);
}

#[test]
fn delta_chunks_skip_directories_and_empty_files() {
    let delta = vec![
        tagged(dir("d"), ChangeTag::Added),
        tagged(file("d\\empty", "e", 0), ChangeTag::Added),
        tagged(file("d\\a", "a", 2), ChangeTag::Added),
        tagged(file("d\\b", "b", 1), ChangeTag::Modified),
        tagged(file("old", "o", 1), ChangeTag::Removed),
    ];
    let chunks = vec![
        chunk("x", 0),
        chunk("d\\a", 0),
        chunk("y", 0),
        chunk("d\\a", 1),
        chunk("d\\b", 0),
        chunk("old", 0),
        chunk("z", 0),
    ];
    let needed = synthesize_delta_chunks(&delta, &chunks);
    assert_eq!(
        kept(&needed),
        vec![("d\\a".to_string(), 0), ("d\\a".to_string(), 1), ("d\\b".to_string(), 0)]
    );
}

#[test]
fn delta_chunks_end_with_the_last_file_of_the_delta() {
    let delta = vec![tagged(file("a", "a", 1), ChangeTag::Added)];
    let chunks = vec![chunk("a", 0), chunk("a", 0), chunk("a", 1)];
    let needed = synthesize_delta_chunks(&delta, &chunks);
    assert_eq!(kept(&needed), vec![("a".to_string(), 0)]);
}

#[test]
fn delta_chunks_follow_the_order_of_the_delta_only() {
    let delta =
        vec![tagged(file("b", "b", 1), ChangeTag::Added), tagged(file("a", "a", 1), ChangeTag::Added)];
    let chunks = vec![chunk("a", 0), chunk("b", 0)];
    let needed = synthesize_delta_chunks(&delta, &chunks);
    assert_eq!(kept(&needed), vec![("b".to_string(), 0)]);
}

#[test]
fn delta_chunks_of_nothing_are_nothing() {
    assert_eq!(synthesize_delta_chunks(&Vec::new(), &vec![chunk("a", 0)]).len(), 0);
    let delta = vec![tagged(file("a", "a", 1), ChangeTag::Added)];
    assert_eq!(synthesize_delta_chunks(&delta, &Vec::new()).len(), 0);
}

#[test]
fn delta_chunks_keep_no_chunk_of_a_removed_file() {
    let delta = vec![
        tagged(dir("d"), ChangeTag::Added),
        tagged(file("old.txt", "s", 1), ChangeTag::Removed),
    ];
    let chunks = vec![chunk("old.txt", 0)];
    assert_eq!(synthesize_delta_chunks(&delta, &chunks).len(), 0);
}

#[test]
fn delta_chunks_end_at_a_removed_file_behind_skipped_records() {
    let delta = vec![
        tagged(file("new.txt", "n", 1), ChangeTag::Added),
        tagged(dir("d"), ChangeTag::Added),
        tagged(file("empty.txt", "e", 0), ChangeTag::Modified),
        tagged(file("old.txt", "s", 2), ChangeTag::Removed),
    ];
    let chunks = vec![chunk("new.txt", 0), chunk("old.txt", 0), chunk("old.txt", 1)];
    let needed = synthesize_delta_chunks(&delta, &chunks);
    assert_eq!(kept(&needed), vec![("new.txt".to_string(), 0)]);
}

#[test]
fn delta_chunks_are_the_chunks_of_the_changed_files() {
    let old = vec![
        dir("d"),
        file("d\\same.bin", "s", 2),
        file("d\\changed.bin", "c1", 1),
        file("gone.bin", "g", 3),
    ];
    let new = vec![
        dir("d"),
        file("d\\same.bin", "s", 2),
        dir("e"),
        file("e\\added.bin", "a", 2),
        file("d\\changed.bin", "c2", 3),
        file("e\\empty.bin", "z", 0),
        file("tail.bin", "t", 1),
    ];
    let chunks = vec![
        chunk("d\\same.bin", 0),
        chunk("d\\same.bin", 1),
        chunk("e\\added.bin", 0),
        chunk("e\\added.bin", 1),
        chunk("d\\changed.bin", 0),
        chunk("d\\changed.bin", 1),
        chunk("d\\changed.bin", 2),
        chunk("tail.bin", 0),
    ];
    let delta = synthesize_delta(&old, &new);
    assert_eq!(
        summary(&delta),
        vec![
            entry("e", "", ChangeTag::Added),
            entry("e\\added.bin", "a", ChangeTag::Added),
            entry("d\\changed.bin", "c2", ChangeTag::Modified),
            entry("e\\empty.bin", "z", ChangeTag::Added),
            entry("tail.bin", "t", ChangeTag::Added),
            entry("gone.bin", "g", ChangeTag::Removed),
        ]
    );
    let needed = synthesize_delta_chunks(&delta, &chunks);
    let wanted: Vec<(String, u16)> = chunks
        .iter()
        .filter(|c| {
            delta.iter().any(|r| r.file_name == c.file_path && r.tag != Some(ChangeTag::Removed))
        })
        .map(|c| (c.file_path.clone(), c.id))
        .collect();
    assert_eq!(wanted.len(), 6);
    assert_eq!(kept(&needed), wanted);
}

#[test]
fn delta_chunks_pass_a_changed_record_without_chunks_at_the_end() {
    let old = vec![file("a.bin", "a1", 1)];
    let new = vec![file("a.bin", "a2", 1), file("b.bin", "b", 1), dir("last")];
    let chunks = vec![chunk("a.bin", 0), chunk("b.bin", 0)];
    let delta = synthesize_delta(&old, &new);
    let needed = synthesize_delta_chunks(&delta, &chunks);
    assert_eq!(kept(&needed), vec![("a.bin".to_string(), 0), ("b.bin".to_string(), 0)]);
}
