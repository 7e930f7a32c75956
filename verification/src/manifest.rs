//! File and chunk manifest records, and their codec over the fields of a
//! manifest row.

use crate::text::{decimal, format_decimal, lemma_decimal_round_trip, number_of, parse_number, string_from_utf8};
use vstd::prelude::*;
use vstd::slice::slice_to_vec;
use vstd::utf8::*;

verus! {

/// The value of `flags` that marks a manifest entry as a directory.
pub const DIRECTORY_FLAGS: u32 = 40;

/// How a delta manifest entry differs from the previously installed build.
#[derive(Clone, Copy, Debug, PartialEq, Eq, Structural)]
pub enum ChangeTag {
    Added,
    Modified,
    Removed,
}

/// One entry of a build's file tree.
#[derive(Debug)]
pub struct FileRecord {
    /// Lowercase hex SHA-256 of the whole file; empty for a directory.
    pub sha: String,
    /// Relative path, with the separators that the vendor delivered.
    pub file_name: String,
    /// How many chunk records belong to the file.
    pub chunks: usize,
    pub flags: u32,
    pub size_in_bytes: u64,
    /// Present in delta manifests only.
    pub tag: Option<ChangeTag>,
}

/// The mathematical value of a [`FileRecord`].
pub struct FileRecordView {
    pub sha: Seq<char>,
    pub file_name: Seq<char>,
    pub chunks: usize,
    pub flags: u32,
    pub size_in_bytes: u64,
    pub tag: Option<ChangeTag>,
}

impl View for FileRecord {
    type V = FileRecordView;

    open spec fn view(&self) -> FileRecordView {
        FileRecordView {
            sha: self.sha@,
            file_name: self.file_name@,
            chunks: self.chunks,
            flags: self.flags,
            size_in_bytes: self.size_in_bytes,
            tag: self.tag,
        }
    }
}

impl DeepView for FileRecord {
    type V = FileRecordView;

    open spec fn deep_view(&self) -> FileRecordView {
        self@
    }
}

impl FileRecordView {
    /// A directory rather than a regular file: its flags are 40.
    pub open spec fn is_directory(self) -> bool {
        self.flags == DIRECTORY_FLAGS
    }

    /// A file or directory without any chunk.
    pub open spec fn is_empty(self) -> bool {
        self.chunks == 0
    }

    /// An entry that a delta takes out of the tree.
    pub open spec fn is_removed(self) -> bool {
        self.tag == Some(ChangeTag::Removed)
    }

    /// The same record under another tag.
    pub open spec fn with_tag(self, tag: Option<ChangeTag>) -> FileRecordView {
        FileRecordView { tag: tag, ..self }
    }
}

impl FileRecord {
    /// Whether the entry is a directory rather than a regular file.
    pub fn is_directory(&self) -> (r: bool)
        ensures
            r == self@.is_directory(),
    {
        self.flags == DIRECTORY_FLAGS
    }

    /// Whether no chunk belongs to the entry.
    pub fn is_empty(&self) -> (r: bool)
        ensures
            r == self@.is_empty(),
    {
        self.chunks == 0
    }

    /// Whether the entry is tagged as removed.
    pub fn is_removed(&self) -> (r: bool)
        ensures
            r == self@.is_removed(),
    {
        match self.tag {
            Some(ChangeTag::Removed) => true,
            _ => false,
        }
    }

    /// A copy of the record that carries `tag`.
    pub fn tagged(&self, tag: Option<ChangeTag>) -> (r: FileRecord)
        ensures
            r@ == self@.with_tag(tag),
    {
        FileRecord {
            sha: self.sha.clone(),
            file_name: self.file_name.clone(),
            chunks: self.chunks,
            flags: self.flags,
            size_in_bytes: self.size_in_bytes,
            tag,
        }
    }

    /// A copy of the record.
    pub fn duplicate(&self) -> (r: FileRecord)
        ensures
            r@ == self@,
    {
        self.tagged(self.tag)
    }
}

/// One chunk of a file.
#[derive(Debug)]
pub struct ChunkRecord {
    /// Chunk identifier; its last `_`-separated token is the chunk's hash.
    pub sha: String,
    /// The `file_name` of the file that the chunk belongs to.
    pub file_path: String,
    /// Zero-based position of the chunk within its file.
    pub id: u16,
}

/// The mathematical value of a [`ChunkRecord`].
pub struct ChunkRecordView {
    pub sha: Seq<char>,
    pub file_path: Seq<char>,
    pub id: u16,
}

impl View for ChunkRecord {
    type V = ChunkRecordView;

    open spec fn view(&self) -> ChunkRecordView {
        ChunkRecordView { sha: self.sha@, file_path: self.file_path@, id: self.id }
    }
}

impl DeepView for ChunkRecord {
    type V = ChunkRecordView;

    open spec fn deep_view(&self) -> ChunkRecordView {
        self@
    }
}

impl ChunkRecord {
    /// A copy of the record.
    pub fn duplicate(&self) -> (r: ChunkRecord)
        ensures
            r@ == self@,
    {
        ChunkRecord { sha: self.sha.clone(), file_path: self.file_path.clone(), id: self.id }
    }
}

/// Why a manifest could not be read or written.
#[derive(Debug)]
pub enum ManifestError {
    /// The bytes are not a table of equally long rows.
    Malformed,
    /// The data row at this position (the header not counted) is no record.
    BadRecord { row: usize },
    /// The rows could not be written out.
    Unwritable,
}

/// The name under which a tag stands in the `tag` column.
pub open spec fn tag_name(tag: ChangeTag) -> Seq<u8> {
    match tag {
        ChangeTag::Added => seq![65u8, 100u8, 100u8, 101u8, 100u8],
        ChangeTag::Modified => seq![77u8, 111u8, 100u8, 105u8, 102u8, 105u8, 101u8, 100u8],
        ChangeTag::Removed => seq![82u8, 101u8, 109u8, 111u8, 118u8, 101u8, 100u8],
    }
}

/// The content of the `tag` column for a record.
pub open spec fn tag_field(tag: Option<ChangeTag>) -> Seq<u8> {
    match tag {
        Some(t) => tag_name(t),
        None => Seq::empty(),
    }
}

/// The tag that a `tag` column holds: none where it is empty, `None` as a
/// whole where it holds anything but the three names.
pub open spec fn tag_of(field: Seq<u8>) -> Option<Option<ChangeTag>> {
    if field.len() == 0 {
        Some(None)
    } else if field == tag_name(ChangeTag::Added) {
        Some(Some(ChangeTag::Added))
    } else if field == tag_name(ChangeTag::Modified) {
        Some(Some(ChangeTag::Modified))
    } else if field == tag_name(ChangeTag::Removed) {
        Some(Some(ChangeTag::Removed))
    } else {
        None
    }
}

/// The text that a column holds, where it is valid UTF-8.
pub open spec fn text_of(field: Seq<u8>) -> Option<Seq<char>> {
    if valid_utf8(field) {
        Some(decode_utf8(field))
    } else {
        None
    }
}

/// The file record that a row's fields hold: `sha`, `file_name`, `chunks`,
/// `flags`, `size_in_bytes` and, where the row has a sixth field, `tag`.
/// A row of five fields is untagged; fields beyond the sixth are ignored.
pub open spec fn file_record_of(fields: Seq<Seq<u8>>) -> Option<FileRecordView> {
    if fields.len() < 5 {
        None
    } else {
        match (
            text_of(fields[0]),
            text_of(fields[1]),
            number_of(fields[2], usize::MAX as nat),
            number_of(fields[3], u32::MAX as nat),
            number_of(fields[4], u64::MAX as nat),
            tag_of(
                if fields.len() > 5 {
                    fields[5]
                } else {
                    Seq::empty()
                },
            ),
        ) {
            (Some(sha), Some(file_name), Some(chunks), Some(flags), Some(size), Some(tag)) => Some(
                FileRecordView {
                    sha,
                    file_name,
                    chunks: chunks as usize,
                    flags: flags as u32,
                    size_in_bytes: size as u64,
                    tag,
                },
            ),
            _ => None,
        }
    }
}

/// The six fields under which a file record is written.
pub open spec fn file_fields(r: FileRecordView) -> Seq<Seq<u8>> {
    seq![
        encode_utf8(r.sha),
        encode_utf8(r.file_name),
        decimal(r.chunks as nat),
        decimal(r.flags as nat),
        decimal(r.size_in_bytes as nat),
        tag_field(r.tag),
    ]
}

/// The chunk record that a row's fields hold: `sha`, `file_path`, `id`.
/// Fields beyond the third are ignored.
pub open spec fn chunk_record_of(fields: Seq<Seq<u8>>) -> Option<ChunkRecordView> {
    if fields.len() < 3 {
        None
    } else {
        match (text_of(fields[0]), text_of(fields[1]), number_of(fields[2], u16::MAX as nat)) {
            (Some(sha), Some(file_path), Some(id)) => Some(
                ChunkRecordView { sha, file_path, id: id as u16 },
            ),
            _ => None,
        }
    }
}

/// The three fields under which a chunk record is written.
pub open spec fn chunk_fields(r: ChunkRecordView) -> Seq<Seq<u8>> {
    seq![encode_utf8(r.sha), encode_utf8(r.file_path), decimal(r.id as nat)]
}

/// The records of a table whose every row is a file record.
pub open spec fn file_records_of(rows: Seq<Seq<Seq<u8>>>) -> Option<Seq<FileRecordView>> {
    if forall|i: int| 0 <= i < rows.len() ==> (#[trigger] file_record_of(rows[i])) is Some {
        Some(Seq::new(rows.len(), |i: int| file_record_of(rows[i]).unwrap()))
    } else {
        None
    }
}

/// The records of a table whose every row is a chunk record.
pub open spec fn chunk_records_of(rows: Seq<Seq<Seq<u8>>>) -> Option<Seq<ChunkRecordView>> {
    if forall|i: int| 0 <= i < rows.len() ==> (#[trigger] chunk_record_of(rows[i])) is Some {
        Some(Seq::new(rows.len(), |i: int| chunk_record_of(rows[i]).unwrap()))
    } else {
        None
    }
}

/// The data rows under which file records are written, one row each.
pub open spec fn file_rows(records: Seq<FileRecordView>) -> Seq<Seq<Seq<u8>>> {
    Seq::new(records.len(), |i: int| file_fields(records[i]))
}

/// The data rows under which chunk records are written, one row each.
pub open spec fn chunk_rows(records: Seq<ChunkRecordView>) -> Seq<Seq<Seq<u8>>> {
    Seq::new(records.len(), |i: int| chunk_fields(records[i]))
}

/// A tag's name reads back as the tag, and no tag as none.
pub proof fn lemma_tag_round_trip(tag: Option<ChangeTag>)
    ensures
        tag_of(tag_field(tag)) == Some(tag),
{
    let added = tag_name(ChangeTag::Added);
    let modified = tag_name(ChangeTag::Modified);
    let removed = tag_name(ChangeTag::Removed);
    assert(added.len() == 5 && modified.len() == 8 && removed.len() == 7);
}

/// Text written as UTF-8 reads back unchanged.
pub proof fn lemma_text_round_trip(s: Seq<char>)
    ensures
        text_of(encode_utf8(s)) == Some(s),
{
    encode_utf8_valid_utf8(s);
    encode_utf8_decode_utf8(s);
}

/// Writing a file record and reading the fields back yields the record, tag
/// included; without the `tag` column the same record comes back untagged.
pub proof fn lemma_file_record_round_trip(r: FileRecordView)
    ensures
        file_record_of(file_fields(r)) == Some(r),
        file_record_of(file_fields(r).take(5)) == Some(r.with_tag(None)),
{
    lemma_text_round_trip(r.sha);
    lemma_text_round_trip(r.file_name);
    lemma_decimal_round_trip(r.chunks as nat, usize::MAX as nat);
    lemma_decimal_round_trip(r.flags as nat, u32::MAX as nat);
    lemma_decimal_round_trip(r.size_in_bytes as nat, u64::MAX as nat);
    lemma_tag_round_trip(r.tag);
    let fields = file_fields(r);
    let short = fields.take(5);
    assert(short[0] == fields[0] && short[1] == fields[1] && short[2] == fields[2] && short[3]
        == fields[3] && short[4] == fields[4]);
}

/// Writing a chunk record and reading the fields back yields the record.
pub proof fn lemma_chunk_record_round_trip(r: ChunkRecordView)
    ensures
        chunk_record_of(chunk_fields(r)) == Some(r),
{
    lemma_text_round_trip(r.sha);
    lemma_text_round_trip(r.file_path);
    lemma_decimal_round_trip(r.id as nat, u16::MAX as nat);
}

/// Writing a manifest row by row and reading the rows back yields the same
/// sequence of records.
pub proof fn lemma_file_manifest_round_trip(records: Seq<FileRecordView>)
    ensures
        file_records_of(file_rows(records)) == Some(records),
{
    let rows = file_rows(records);
    assert forall|i: int| 0 <= i < rows.len() implies #[trigger] file_record_of(rows[i]) == Some(
        records[i],
    ) by {
        lemma_file_record_round_trip(records[i]);
    }
    assert(file_records_of(rows).unwrap() =~= records);
}

/// Writing a chunk manifest row by row and reading the rows back yields the
/// same sequence of records.
pub proof fn lemma_chunk_manifest_round_trip(records: Seq<ChunkRecordView>)
    ensures
        chunk_records_of(chunk_rows(records)) == Some(records),
{
    let rows = chunk_rows(records);
    assert forall|i: int| 0 <= i < rows.len() implies #[trigger] chunk_record_of(rows[i]) == Some(
        records[i],
    ) by {
        lemma_chunk_record_round_trip(records[i]);
    }
    assert(chunk_records_of(rows).unwrap() =~= records);
}

/// Whether two byte strings are equal.
pub fn same_bytes(a: &[u8], b: &[u8]) -> (r: bool)
    ensures
        r == (a@ == b@),
{
    if a.len() != b.len() {
        return false;
    }
    let mut i: usize = 0;
    while i < a.len()
        invariant
            i <= a.len(),
            a.len() == b.len(),
            forall|j: int| 0 <= j < i ==> a@[j] == b@[j],
        decreases a.len() - i,
    {
        if a[i] != b[i] {
            return false;
        }
        i += 1;
    }
    assert(a@ =~= b@);
    true
}

/// The name of `tag` in the `tag` column.
pub fn tag_name_bytes(tag: ChangeTag) -> (r: Vec<u8>)
    ensures
        r@ == tag_name(tag),
{
    let name = match tag {
        ChangeTag::Added => vec![65u8, 100u8, 100u8, 101u8, 100u8],
        ChangeTag::Modified => vec![77u8, 111u8, 100u8, 105u8, 102u8, 105u8, 101u8, 100u8],
        ChangeTag::Removed => vec![82u8, 101u8, 109u8, 111u8, 118u8, 101u8, 100u8],
    };
    assert(name@ =~= tag_name(tag));
    name
}

/// Reads the `tag` column.
pub fn decode_tag(field: &[u8]) -> (r: Option<Option<ChangeTag>>)
    ensures
        r == tag_of(field@),
{
    if field.len() == 0 {
        Some(None)
    } else if same_bytes(field, tag_name_bytes(ChangeTag::Added).as_slice()) {
        Some(Some(ChangeTag::Added))
    } else if same_bytes(field, tag_name_bytes(ChangeTag::Modified).as_slice()) {
        Some(Some(ChangeTag::Modified))
    } else if same_bytes(field, tag_name_bytes(ChangeTag::Removed).as_slice()) {
        Some(Some(ChangeTag::Removed))
    } else {
        None
    }
}

/// Reads a text column.
pub fn decode_text(field: &[u8]) -> (r: Option<String>)
    ensures
        match r {
            Some(s) => text_of(field@) == Some(s@),
            None => text_of(field@) is None,
        },
{
    string_from_utf8(slice_to_vec(field))
}

/// Reads one row of a file manifest.
pub fn decode_file_record(fields: &Vec<Vec<u8>>) -> (r: Option<FileRecord>)
    ensures
        match r {
            Some(record) => file_record_of(fields.deep_view()) == Some(record@),
            None => file_record_of(fields.deep_view()) is None,
        },
{
    let ghost view = fields.deep_view();
    if fields.len() < 5 {
        return None;
    }
    assert(view[0] == fields@[0]@ && view[1] == fields@[1]@ && view[2] == fields@[2]@ && view[3]
        == fields@[3]@ && view[4] == fields@[4]@);
    let sha = decode_text(fields[0].as_slice());
    let file_name = decode_text(fields[1].as_slice());
    let chunks = parse_number(fields[2].as_slice(), usize::MAX as u64);
    let flags = parse_number(fields[3].as_slice(), u32::MAX as u64);
    let size = parse_number(fields[4].as_slice(), u64::MAX);
    let tag = if fields.len() > 5 {
        assert(view[5] == fields@[5]@);
        decode_tag(fields[5].as_slice())
    } else {
        Some(None)
    };
    match (sha, file_name, chunks, flags, size, tag) {
        (Some(sha), Some(file_name), Some(chunks), Some(flags), Some(size), Some(tag)) => Some(
            FileRecord {
                sha,
                file_name,
                chunks: chunks as usize,
                flags: flags as u32,
                size_in_bytes: size,
                tag,
            },
        ),
        _ => None,
    }
}

/// Reads one row of a chunk manifest.
pub fn decode_chunk_record(fields: &Vec<Vec<u8>>) -> (r: Option<ChunkRecord>)
    ensures
        match r {
            Some(record) => chunk_record_of(fields.deep_view()) == Some(record@),
            None => chunk_record_of(fields.deep_view()) is None,
        },
{
    let ghost view = fields.deep_view();
    if fields.len() < 3 {
        return None;
    }
    assert(view[0] == fields@[0]@ && view[1] == fields@[1]@ && view[2] == fields@[2]@);
    let sha = decode_text(fields[0].as_slice());
    let file_path = decode_text(fields[1].as_slice());
    let id = parse_number(fields[2].as_slice(), u16::MAX as u64);
    match (sha, file_path, id) {
        (Some(sha), Some(file_path), Some(id)) => Some(
            ChunkRecord { sha, file_path, id: id as u16 },
        ),
        _ => None,
    }
}

/// Writes one file record as the six fields of its row.
pub fn encode_file_record(record: &FileRecord) -> (r: Vec<Vec<u8>>)
    ensures
        r.deep_view() == file_fields(record@),
{
    let mut fields: Vec<Vec<u8>> = Vec::new();
    fields.push(record.sha.as_str().as_bytes_vec());
    fields.push(record.file_name.as_str().as_bytes_vec());
    fields.push(format_decimal(record.chunks as u64));
    fields.push(format_decimal(record.flags as u64));
    fields.push(format_decimal(record.size_in_bytes));
    fields.push(
        match record.tag {
            Some(tag) => tag_name_bytes(tag),
            None => Vec::new(),
        },
    );
    assert(fields.deep_view() =~~= file_fields(record@));
    fields
}

/// Writes one chunk record as the three fields of its row.
pub fn encode_chunk_record(record: &ChunkRecord) -> (r: Vec<Vec<u8>>)
    ensures
        r.deep_view() == chunk_fields(record@),
{
    let mut fields: Vec<Vec<u8>> = Vec::new();
    fields.push(record.sha.as_str().as_bytes_vec());
    fields.push(record.file_path.as_str().as_bytes_vec());
    fields.push(format_decimal(record.id as u64));
    assert(fields.deep_view() =~~= chunk_fields(record@));
    fields
}

/// Reads the data rows of a file manifest. Fails at the first row that is
/// no file record.
pub fn decode_file_rows(rows: &Vec<Vec<Vec<u8>>>) -> (r: Result<Vec<FileRecord>, ManifestError>)
    ensures
        match r {
            Ok(records) => file_records_of(rows.deep_view()) == Some(records.deep_view()),
            Err(ManifestError::BadRecord { row }) => {
                &&& row < rows.len()
                &&& file_record_of(rows.deep_view()[row as int]) is None
                &&& forall|j: int|
                    0 <= j < row ==> (#[trigger] file_record_of(rows.deep_view()[j])) is Some
            },
            Err(_) => false,
        },
{
    let ghost table = rows.deep_view();
    let mut records: Vec<FileRecord> = Vec::new();
    let mut i: usize = 0;
    while i < rows.len()
        invariant
            i <= rows.len(),
            table == rows.deep_view(),
            records.len() == i,
            forall|j: int|
                0 <= j < i ==> #[trigger] file_record_of(table[j]) == Some(records@[j]@),
        decreases rows.len() - i,
    {
        assert(table[i as int] == rows@[i as int].deep_view());
        match decode_file_record(&rows[i]) {
            Some(record) => {
                records.push(record);
            },
            None => {
                return Err(ManifestError::BadRecord { row: i });
            },
        }
        i += 1;
    }
    assert(file_records_of(table).unwrap() =~= records.deep_view());
    Ok(records)
}

/// Reads the data rows of a chunk manifest. Fails at the first row that is
/// no chunk record.
pub fn decode_chunk_rows(rows: &Vec<Vec<Vec<u8>>>) -> (r: Result<Vec<ChunkRecord>, ManifestError>)
    ensures
        match r {
            Ok(records) => chunk_records_of(rows.deep_view()) == Some(records.deep_view()),
            Err(ManifestError::BadRecord { row }) => {
                &&& row < rows.len()
                &&& chunk_record_of(rows.deep_view()[row as int]) is None
                &&& forall|j: int|
                    0 <= j < row ==> (#[trigger] chunk_record_of(rows.deep_view()[j])) is Some
            },
            Err(_) => false,
        },
{
    let ghost table = rows.deep_view();
    let mut records: Vec<ChunkRecord> = Vec::new();
    let mut i: usize = 0;
    while i < rows.len()
        invariant
            i <= rows.len(),
            table == rows.deep_view(),
            records.len() == i,
            forall|j: int|
                0 <= j < i ==> #[trigger] chunk_record_of(table[j]) == Some(records@[j]@),
        decreases rows.len() - i,
    {
        assert(table[i as int] == rows@[i as int].deep_view());
        match decode_chunk_record(&rows[i]) {
            Some(record) => {
                records.push(record);
            },
            None => {
                return Err(ManifestError::BadRecord { row: i });
            },
        }
        i += 1;
    }
    assert(chunk_records_of(table).unwrap() =~= records.deep_view());
    Ok(records)
}

/// Writes file records as data rows, one row each.
pub fn encode_file_rows(records: &Vec<FileRecord>) -> (r: Vec<Vec<Vec<u8>>>)
    ensures
        r.deep_view() == file_rows(records.deep_view()),
{
    let mut rows: Vec<Vec<Vec<u8>>> = Vec::new();
    let mut i: usize = 0;
    while i < records.len()
        invariant
            i <= records.len(),
            rows.len() == i,
            forall|j: int| 0 <= j < i ==> #[trigger] rows@[j].deep_view() == file_fields(records@[j]@),
        decreases records.len() - i,
    {
        rows.push(encode_file_record(&records[i]));
        i += 1;
    }
    assert(rows.deep_view() =~= file_rows(records.deep_view()));
    rows
}

/// Writes chunk records as data rows, one row each.
pub fn encode_chunk_rows(records: &Vec<ChunkRecord>) -> (r: Vec<Vec<Vec<u8>>>)
    ensures
        r.deep_view() == chunk_rows(records.deep_view()),
{
    let mut rows: Vec<Vec<Vec<u8>>> = Vec::new();
    let mut i: usize = 0;
    while i < records.len()
        invariant
            i <= records.len(),
            rows.len() == i,
            forall|j: int|
                0 <= j < i ==> #[trigger] rows@[j].deep_view() == chunk_fields(records@[j]@),
        decreases records.len() - i,
    {
        rows.push(encode_chunk_record(&records[i]));
        i += 1;
    }
    assert(rows.deep_view() =~= chunk_rows(records.deep_view()));
    rows
}

} // verus!
