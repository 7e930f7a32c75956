use install_core::hash::hash_bytes;
use install_core::layout::plan_layout;
use install_core::manifest::{ChunkRecord, FileRecord};
use install_core::orchestrator::StepResult;
use install_core::pipeline::{Delivery, Pipeline, PlanError, WriteStep, MAX_CHUNK_SIZE};
use install_core::text_map::TextMap;

fn chunk_of(path: &str, id: u16, content: &[u8]) -> ChunkRecord {
    ChunkRecord {
        sha: format!("pfx_{}_{}", id, hash_bytes(content)),
        file_path: path.to_string(),
        id,
    }
}

fn counts_of(files: &[(&str, usize)]) -> TextMap<usize> {
    let mut counts = TextMap::new();
    for (name, chunks) in files {
        counts.insert(name.to_string(), *chunks);
    }
    counts
}

/// A disk that only knows appends.
fn perform(disk: &mut Vec<(String, Vec<u8>)>, open: &mut Vec<String>, step: WriteStep) {
    assert_eq!(step.open, !open.contains(&step.file_path));
    if step.open {
        open.push(step.file_path.clone());
    }
    match disk.iter_mut().find(|(name, _)| *name == step.file_path) {
        Some((_, bytes)) => bytes.extend_from_slice(&step.bytes),
        None => disk.push((step.file_path.clone(), step.bytes.clone())),
    }
    if step.close {
        open.retain(|name| *name != step.file_path);
    }
}

fn drain(pipeline: &mut Pipeline, disk: &mut Vec<(String, Vec<u8>)>, open: &mut Vec<String>) -> usize {
    let mut written = 0;
    while let Some(step) = pipeline.next_write() {
        perform(disk, open, step);
        written += 1;
    }
    written
}

#[test]
fn trivial_install_writes_the_file() {
    let content = b"\x01\x02\x03\x04";
    let sha = hash_bytes(content);
    let files = vec![
        FileRecord {
            sha: String::new(),
            file_name: "a".to_string(),
            chunks: 0,
            flags: 40,
            size_in_bytes: 0,
            tag: None,
        },
        FileRecord {
            sha: sha.clone(),
            file_name: "a/b.bin".to_string(),
            chunks: 1,
            flags: 0,
            size_in_bytes: 4,
            tag: None,
        },
    ];
    let chunk = ChunkRecord {
        sha: format!("pfx_{}", hash_bytes(content)),
        file_path: "a/b.bin".to_string(),
        id: 0,
    };
    let plan = plan_layout(&files, "install", false);
    assert_eq!(plan.total_bytes, 4);
    let mut pipeline = Pipeline::new(plan.counts, vec![chunk], 4, 8 * MAX_CHUNK_SIZE, false).unwrap();
    assert_eq!(pipeline.total(), 1);
    let (ticket, record) = pipeline.next_download().unwrap();
    assert_eq!(ticket, 0);
    assert_eq!(record.file_path, "a/b.bin");
    assert!(pipeline.next_download().is_none());
    assert_eq!(pipeline.download_finished(ticket, content.to_vec()), Ok(Delivery::Buffered));
    let mut disk = Vec::new();
    let mut open = Vec::new();
    assert_eq!(drain(&mut pipeline, &mut disk, &mut open), 1);
    assert!(pipeline.is_finished());
    assert!(!pipeline.is_stalled());
    assert!(open.is_empty());
    assert_eq!(disk, vec![("a/b.bin".to_string(), content.to_vec())]);
    assert_eq!(hash_bytes(&disk[0].1), sha);
    assert_eq!(disk[0].1.len() as u64, files[1].size_in_bytes);
}

#[test]
fn reordered_downloads_are_written_in_order() {
    let chunks = vec![chunk_of("b.bin", 0, b"first"), chunk_of("b.bin", 1, b"second")];
    let mut pipeline =
        Pipeline::new(counts_of(&[("b.bin", 2)]), chunks, 2, 2 * MAX_CHUNK_SIZE, false).unwrap();
    let (t0, _) = pipeline.next_download().unwrap();
    let (t1, _) = pipeline.next_download().unwrap();
    assert_eq!((t0, t1), (0, 1));
    assert_eq!(pipeline.downloading(), 2);
    assert_eq!(pipeline.download_finished(t1, b"second".to_vec()), Ok(Delivery::Buffered));
    assert!(pipeline.next_write().is_none());
    assert_eq!(pipeline.buffered(), 1);
    assert_eq!(pipeline.download_finished(t0, b"first".to_vec()), Ok(Delivery::Buffered));
    let first = pipeline.next_write().unwrap();
    assert_eq!((first.id, first.open, first.close), (0, true, false));
    assert_eq!(first.bytes, b"first".to_vec());
    let second = pipeline.next_write().unwrap();
    assert_eq!((second.id, second.open, second.close), (1, false, true));
    assert_eq!(second.bytes, b"second".to_vec());
    assert_eq!(second.file_path, "b.bin");
    assert!(pipeline.next_write().is_none());
    assert!(pipeline.is_finished());
}

#[test]
fn memory_cap_of_one_chunk_still_completes() {
    let parts: Vec<Vec<u8>> = vec![b"aa".to_vec(), b"bb".to_vec(), b"cc".to_vec(), b"dd".to_vec()];
    let chunks: Vec<ChunkRecord> =
        parts.iter().enumerate().map(|(i, p)| chunk_of("f", i as u16, p)).collect();
    let mut pipeline =
        Pipeline::new(counts_of(&[("f", 4)]), chunks, 8, MAX_CHUNK_SIZE, false).unwrap();
    let mut disk = Vec::new();
    let mut open = Vec::new();
    let mut rounds = 0;
    while !pipeline.is_finished() {
        let (ticket, _) = pipeline.next_download().unwrap();
        assert_eq!(pipeline.held(), 1);
        assert!(pipeline.next_download().is_none());
        assert_eq!(pipeline.download_finished(ticket, parts[ticket].clone()), Ok(Delivery::Buffered));
        assert_eq!(pipeline.held(), 1);
        assert!(pipeline.next_download().is_none());
        assert_eq!(drain(&mut pipeline, &mut disk, &mut open), 1);
        assert_eq!(pipeline.held(), 0);
        rounds += 1;
    }
    assert_eq!(rounds, 4);
    assert_eq!(disk, vec![("f".to_string(), b"aabbccdd".to_vec())]);
}

#[test]
fn memory_budget_is_counted_in_whole_chunks() {
    let chunks = vec![chunk_of("f", 0, b"a"), chunk_of("f", 1, b"b"), chunk_of("f", 2, b"c")];
    let mut pipeline =
        Pipeline::new(counts_of(&[("f", 3)]), chunks, 8, 3 * MAX_CHUNK_SIZE - 1, false).unwrap();
    assert!(pipeline.next_download().is_some());
    assert!(pipeline.next_download().is_some());
    assert!(pipeline.next_download().is_none());
    assert_eq!(pipeline.held(), 2);
}

#[test]
fn downloads_never_exceed_the_worker_limit() {
    let chunks: Vec<ChunkRecord> = (0..5).map(|i| chunk_of("f", i, &[i as u8])).collect();
    let mut pipeline =
        Pipeline::new(counts_of(&[("f", 5)]), chunks, 2, 100 * MAX_CHUNK_SIZE, true).unwrap();
    assert!(pipeline.next_download().is_some());
    assert!(pipeline.next_download().is_some());
    assert!(pipeline.next_download().is_none());
    assert_eq!(pipeline.downloading(), 2);
    assert_eq!(pipeline.download_finished(1, vec![1]), Ok(Delivery::Buffered));
    assert_eq!(pipeline.downloading(), 1);
    let (ticket, _) = pipeline.next_download().unwrap();
    assert_eq!(ticket, 2);
    assert!(pipeline.next_download().is_none());
    assert_eq!(pipeline.downloading(), 2);
    assert_eq!(pipeline.held(), 3);
}

#[test]
fn buffered_chunks_count_against_the_memory_cap() {
    let chunks: Vec<ChunkRecord> = (0..4).map(|i| chunk_of("f", i, &[i as u8])).collect();
    let mut pipeline =
        Pipeline::new(counts_of(&[("f", 4)]), chunks, 4, 2 * MAX_CHUNK_SIZE, true).unwrap();
    pipeline.next_download().unwrap();
    pipeline.next_download().unwrap();
    assert!(pipeline.next_download().is_none());
    assert_eq!(pipeline.download_finished(1, vec![1]), Ok(Delivery::Buffered));
    assert_eq!((pipeline.downloading(), pipeline.buffered(), pipeline.held()), (1, 1, 2));
    assert!(pipeline.next_download().is_none());
    assert_eq!(pipeline.download_finished(0, vec![0]), Ok(Delivery::Buffered));
    assert!(pipeline.next_download().is_none());
    assert!(pipeline.next_write().is_some());
    assert_eq!(pipeline.held(), 1);
    assert!(pipeline.next_download().is_some());
}

#[test]
fn a_corrupt_chunk_is_abandoned_and_the_build_stalls() {
    let chunks = vec![chunk_of("f", 0, b"good"), chunk_of("f", 1, b"also good")];
    let mut pipeline =
        Pipeline::new(counts_of(&[("f", 2)]), chunks, 2, 2 * MAX_CHUNK_SIZE, false).unwrap();
    pipeline.next_download().unwrap();
    pipeline.next_download().unwrap();
    assert_eq!(pipeline.download_finished(0, b"bad!".to_vec()), Ok(Delivery::Abandoned));
    assert_eq!(pipeline.abandoned(), 1);
    assert_eq!(pipeline.held(), 1);
    assert!(!pipeline.is_stalled());
    assert_eq!(pipeline.download_finished(1, b"also good".to_vec()), Ok(Delivery::Buffered));
    assert!(pipeline.next_write().is_none());
    assert!(pipeline.is_stalled());
    assert!(!pipeline.is_finished());
    assert_eq!(pipeline.written(), 0);
}

#[test]
fn verification_can_be_skipped() {
    let chunks = vec![chunk_of("f", 0, b"good")];
    let mut pipeline =
        Pipeline::new(counts_of(&[("f", 1)]), chunks, 1, MAX_CHUNK_SIZE, true).unwrap();
    pipeline.next_download().unwrap();
    assert_eq!(pipeline.download_finished(0, b"bad!".to_vec()), Ok(Delivery::Buffered));
    let step = pipeline.next_write().unwrap();
    assert_eq!(step.bytes, b"bad!".to_vec());
    assert!(step.open && step.close);
}

#[test]
fn a_judged_chunk_is_taken_or_dropped_as_judged() {
    let chunks = vec![chunk_of("f", 0, b"x"), chunk_of("f", 1, b"y")];
    let mut pipeline =
        Pipeline::new(counts_of(&[("f", 2)]), chunks, 2, 2 * MAX_CHUNK_SIZE, false).unwrap();
    pipeline.next_download().unwrap();
    pipeline.next_download().unwrap();
    assert_eq!(pipeline.deliver(0, b"anything".to_vec(), true), Ok(Delivery::Buffered));
    assert_eq!(pipeline.deliver(1, b"y".to_vec(), false), Ok(Delivery::Abandoned));
    assert_eq!(pipeline.next_write().unwrap().bytes, b"anything".to_vec());
}

#[test]
fn reports_of_unknown_downloads_are_refused() {
    let chunks = vec![chunk_of("f", 0, b"x")];
    let mut pipeline =
        Pipeline::new(counts_of(&[("f", 1)]), chunks, 1, MAX_CHUNK_SIZE, false).unwrap();
    assert!(pipeline.download_finished(0, b"x".to_vec()).is_err());
    assert!(pipeline.download_finished(7, b"x".to_vec()).is_err());
    pipeline.next_download().unwrap();
    assert_eq!(pipeline.download_finished(0, b"x".to_vec()), Ok(Delivery::Buffered));
    assert!(pipeline.download_finished(0, b"x".to_vec()).is_err());
    assert!(pipeline.deliver(0, b"x".to_vec(), true).is_err());
    assert_eq!(pipeline.buffered(), 1);
}

#[test]
fn files_are_opened_once_and_closed_after_their_last_chunk() {
    let chunks = vec![
        chunk_of("a", 0, b"a0"),
        chunk_of("a", 1, b"a1"),
        chunk_of("b", 0, b"b0"),
        chunk_of("a", 2, b"a2"),
    ];
    let mut pipeline =
        Pipeline::new(counts_of(&[("a", 3), ("b", 1)]), chunks, 4, 4 * MAX_CHUNK_SIZE, true).unwrap();
    for payload in [b"a0", b"a1", b"b0", b"a2"] {
        let (ticket, _) = pipeline.next_download().unwrap();
        pipeline.download_finished(ticket, payload.to_vec()).unwrap();
    }
    let steps: Vec<WriteStep> = std::iter::from_fn(|| pipeline.next_write()).collect();
    let shape: Vec<(String, u16, bool, bool)> =
        steps.iter().map(|s| (s.file_path.clone(), s.id, s.open, s.close)).collect();
    assert_eq!(
        shape,
        vec![
            ("a".to_string(), 0, true, false),
            ("a".to_string(), 1, false, false),
            ("b".to_string(), 0, true, true),
            ("a".to_string(), 2, false, true),
        ]
    );
}

#[test]
fn chunks_with_one_identifier_differ_by_position() {
    let same = "file_samehash".to_string();
    let chunks = vec![
        ChunkRecord { sha: same.clone(), file_path: "f".to_string(), id: 0 },
        ChunkRecord { sha: same.clone(), file_path: "f".to_string(), id: 1 },
    ];
    let mut pipeline =
        Pipeline::new(counts_of(&[("f", 2)]), chunks, 2, 2 * MAX_CHUNK_SIZE, true).unwrap();
    pipeline.next_download().unwrap();
    pipeline.next_download().unwrap();
    pipeline.download_finished(1, b"one".to_vec()).unwrap();
    pipeline.download_finished(0, b"zero".to_vec()).unwrap();
    assert_eq!(pipeline.buffered(), 2);
    assert_eq!(pipeline.next_write().unwrap().bytes, b"zero".to_vec());
    assert_eq!(pipeline.next_write().unwrap().bytes, b"one".to_vec());
}

#[test]
fn a_chunk_of_an_unknown_file_has_no_plan() {
    let chunks = vec![chunk_of("f", 0, b"x"), chunk_of("g", 0, b"y")];
    let plan = Pipeline::new(counts_of(&[("f", 1)]), chunks, 1, MAX_CHUNK_SIZE, false);
    assert!(matches!(plan, Err(PlanError::UnknownFile { chunk: 1 })));
}

#[test]
fn a_chunk_behind_the_last_of_its_file_has_no_plan() {
    let chunks = vec![chunk_of("f", 0, b"x"), chunk_of("f", 1, b"y")];
    let plan = Pipeline::new(counts_of(&[("f", 1)]), chunks, 1, MAX_CHUNK_SIZE, false);
    assert!(matches!(plan, Err(PlanError::UnknownFile { chunk: 1 })));
}

#[test]
fn a_chunk_of_a_file_without_chunks_has_no_plan() {
    let chunks = vec![chunk_of("f", 0, b"x")];
    let plan = Pipeline::new(counts_of(&[("f", 0)]), chunks, 1, MAX_CHUNK_SIZE, false);
    assert!(matches!(plan, Err(PlanError::EmptyFile { chunk: 0 })));
}

#[test]
fn a_build_without_chunks_is_finished_at_once() {
    let mut pipeline = Pipeline::new(TextMap::new(), Vec::new(), 1, MAX_CHUNK_SIZE, false).unwrap();
    assert!(pipeline.is_finished());
    assert!(!pipeline.is_stalled());
    assert!(pipeline.next_download().is_none());
    assert!(pipeline.next_write().is_none());
}

#[test]
fn a_build_without_memory_stalls() {
    let chunks = vec![chunk_of("f", 0, b"x")];
    let mut pipeline =
        Pipeline::new(counts_of(&[("f", 1)]), chunks, 1, MAX_CHUNK_SIZE - 1, false).unwrap();
    assert!(pipeline.next_download().is_none());
    assert!(pipeline.is_stalled());
}

fn install_once(
    disk: &mut Vec<(String, Vec<u8>)>,
    files: &Vec<FileRecord>,
    parts: &[(&str, u16, &[u8])],
) {
    let plan = plan_layout(files, "base", false);
    for action in &plan.actions {
        if let install_core::layout::LayoutAction::CreateFile { file_name } = action {
            disk.retain(|(name, _)| name != file_name);
            disk.push((file_name.clone(), Vec::new()));
        }
    }
    let chunks: Vec<ChunkRecord> = parts.iter().map(|(p, id, c)| chunk_of(p, *id, c)).collect();
    let mut pipeline = Pipeline::new(plan.counts, chunks, 2, 2 * MAX_CHUNK_SIZE, false).unwrap();
    let mut open = Vec::new();
    while !pipeline.is_finished() {
        let mut tickets = Vec::new();
        while let Some((ticket, _)) = pipeline.next_download() {
            tickets.push(ticket);
        }
        for ticket in tickets.into_iter().rev() {
            pipeline.download_finished(ticket, parts[ticket].2.to_vec()).unwrap();
        }
        drain(&mut pipeline, disk, &mut open);
    }
    assert!(open.is_empty());
}

#[test]
fn installing_twice_leaves_the_same_tree() {
    let files = vec![
        FileRecord {
            sha: hash_bytes(b"onetwothree"),
            file_name: "a.bin".to_string(),
            chunks: 3,
            flags: 0,
            size_in_bytes: 11,
            tag: None,
        },
        FileRecord {
            sha: hash_bytes(b"solo"),
            file_name: "b.bin".to_string(),
            chunks: 1,
            flags: 0,
            size_in_bytes: 4,
            tag: None,
        },
    ];
    let parts: Vec<(&str, u16, &[u8])> = vec![
        ("a.bin", 0, b"one"),
        ("a.bin", 1, b"two"),
        ("b.bin", 0, b"solo"),
        ("a.bin", 2, b"three"),
    ];
    let mut disk = vec![("a.bin".to_string(), b"stale content".to_vec())];
    install_once(&mut disk, &files, &parts);
    let first = disk.clone();
    for record in &files {
        let content = &disk.iter().find(|(name, _)| *name == record.file_name).unwrap().1;
        assert_eq!(hash_bytes(content), record.sha);
        assert_eq!(content.len() as u64, record.size_in_bytes);
    }
    install_once(&mut disk, &files, &parts);
    disk.sort();
    let mut first = first;
    first.sort();
    assert_eq!(disk, first);
}

#[test]
fn a_build_ends_after_three_moves_for_each_chunk() {
    let parts: Vec<(&str, u16, &[u8])> = vec![
        ("a.bin", 0, b"one"),
        ("a.bin", 1, b"two"),
        ("b.bin", 0, b"solo"),
        ("a.bin", 2, b"three"),
        ("c.bin", 0, b"left"),
        ("c.bin", 1, b"right"),
    ];
    let chunks: Vec<ChunkRecord> = parts.iter().map(|(p, id, c)| chunk_of(p, *id, c)).collect();
    let counts = counts_of(&[("a.bin", 3), ("b.bin", 1), ("c.bin", 2)]);
    let mut pipeline = Pipeline::new(counts, chunks, 2, 3 * MAX_CHUNK_SIZE, false).unwrap();
    let mut disk = Vec::new();
    let mut open = Vec::new();
    let mut waiting: Vec<usize> = Vec::new();
    let mut moves = 0;
    while !pipeline.is_finished() {
        assert!(!pipeline.is_stalled());
        if let Some((ticket, _)) = pipeline.next_download() {
            waiting.push(ticket);
            moves += 1;
        } else if let Some(ticket) = waiting.pop() {
            let delivery = pipeline.download_finished(ticket, parts[ticket].2.to_vec());
            assert_eq!(delivery, Ok(Delivery::Buffered));
            moves += 1;
        } else {
            let step = pipeline.next_write().unwrap();
            perform(&mut disk, &mut open, step);
            moves += 1;
        }
        assert!(pipeline.downloading() <= 2);
        assert!(pipeline.held() <= 3);
    }
    assert_eq!(moves, 3 * parts.len());
    assert_eq!(pipeline.held(), 0);
    disk.sort();
    assert_eq!(
        disk,
        vec![
            ("a.bin".to_string(), b"onetwothree".to_vec()),
            ("b.bin".to_string(), b"solo".to_vec()),
            ("c.bin".to_string(), b"leftright".to_vec()),
        ]
    );
}

#[test]
fn a_build_says_how_it_ended() {
    let chunks = vec![chunk_of("f", 0, b"x"), chunk_of("f", 1, b"y")];
    let mut pipeline =
        Pipeline::new(counts_of(&[("f", 2)]), chunks, 2, 2 * MAX_CHUNK_SIZE, false).unwrap();
    assert_eq!(pipeline.outcome(), None);
    let (first, _) = pipeline.next_download().unwrap();
    let (second, _) = pipeline.next_download().unwrap();
    assert_eq!(pipeline.download_finished(first, b"wrong".to_vec()), Ok(Delivery::Abandoned));
    assert_eq!(pipeline.outcome(), None);
    assert_eq!(pipeline.download_finished(second, b"y".to_vec()), Ok(Delivery::Buffered));
    assert_eq!(pipeline.outcome(), Some(StepResult::Corrupt));

    let starved =
        Pipeline::new(counts_of(&[("f", 1)]), vec![chunk_of("f", 0, b"x")], 1, 0, false).unwrap();
    assert_eq!(starved.outcome(), Some(StepResult::Failed));
}

#[test]
fn a_clean_build_ends_well() {
    let chunks = vec![chunk_of("f", 0, b"x")];
    let mut pipeline =
        Pipeline::new(counts_of(&[("f", 1)]), chunks, 1, MAX_CHUNK_SIZE, false).unwrap();
    let (ticket, _) = pipeline.next_download().unwrap();
    assert_eq!(pipeline.outcome(), None);
    pipeline.download_finished(ticket, b"x".to_vec()).unwrap();
    assert_eq!(pipeline.outcome(), None);
    assert!(pipeline.next_write().is_some());
    assert_eq!(pipeline.outcome(), Some(StepResult::Done));
}
