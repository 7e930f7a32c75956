//! Layout planning: what has to be done to the install tree before any
//! chunk is written, and what the build pipeline needs to know of the files
//! that it will fill.

use crate::manifest::{FileRecord, FileRecordView};
use crate::text::chars_of;
use crate::text_map::TextMap;
use vstd::prelude::*;

verus! {

/// One step on the install tree. Names are those of the manifest; the
/// caller turns them into paths below the install directory.
#[derive(Debug)]
pub enum LayoutAction {
    /// Remove the directory and all below it, if it exists.
    RemoveDir { file_name: String },
    /// Remove the file, if it exists.
    RemoveFile { file_name: String },
    /// Create the directory, unless it exists.
    EnsureDir { file_name: String },
    /// Create the file empty, or cut it down to nothing if it exists.
    CreateFile { file_name: String },
}

/// The mathematical value of a [`LayoutAction`].
pub enum LayoutActionView {
    RemoveDir { file_name: Seq<char> },
    RemoveFile { file_name: Seq<char> },
    EnsureDir { file_name: Seq<char> },
    CreateFile { file_name: Seq<char> },
}

impl View for LayoutAction {
    type V = LayoutActionView;

    open spec fn view(&self) -> LayoutActionView {
        match self {
            LayoutAction::RemoveDir { file_name } => LayoutActionView::RemoveDir {
                file_name: file_name@,
            },
            LayoutAction::RemoveFile { file_name } => LayoutActionView::RemoveFile {
                file_name: file_name@,
            },
            LayoutAction::EnsureDir { file_name } => LayoutActionView::EnsureDir {
                file_name: file_name@,
            },
            LayoutAction::CreateFile { file_name } => LayoutActionView::CreateFile {
                file_name: file_name@,
            },
        }
    }
}

impl DeepView for LayoutAction {
    type V = LayoutActionView;

    open spec fn deep_view(&self) -> LayoutActionView {
        self@
    }
}

/// What a layout pass over a manifest yields.
pub struct LayoutPlan {
    /// The steps to perform, in order.
    pub actions: Vec<LayoutAction>,
    /// For each regular file to build, the number of its chunks.
    pub counts: TextMap<usize>,
    /// The size of all regular files to build together.
    pub total_bytes: u128,
    /// The name of the bundle's `Info.plist`, where one is looked for and
    /// found.
    pub plist: Option<String>,
}

/// Whether the entry is replaced or removed, so that what is on disk under
/// its name has to go first.
pub open spec fn replaced(record: FileRecordView) -> bool {
    record.tag == Some(crate::manifest::ChangeTag::Modified) || record.is_removed()
}

/// Whether the entry is a regular file that the build will fill.
pub open spec fn built(record: FileRecordView) -> bool {
    !record.is_removed() && !record.is_directory()
}

/// The steps for one entry: what is replaced or removed is taken off the
/// disk; what is not removed is then prepared, a directory by creating it,
/// a file by creating it empty.
pub open spec fn actions_for(record: FileRecordView) -> Seq<LayoutActionView> {
    let removal = if !replaced(record) {
        Seq::empty()
    } else if record.is_directory() {
        seq![LayoutActionView::RemoveDir { file_name: record.file_name }]
    } else {
        seq![LayoutActionView::RemoveFile { file_name: record.file_name }]
    };
    let preparation = if record.is_removed() {
        Seq::empty()
    } else if record.is_directory() {
        seq![LayoutActionView::EnsureDir { file_name: record.file_name }]
    } else {
        seq![LayoutActionView::CreateFile { file_name: record.file_name }]
    };
    removal + preparation
}

/// The steps for a manifest: those of its entries, in order.
pub open spec fn layout_actions(m: Seq<FileRecordView>) -> Seq<LayoutActionView>
    decreases m.len(),
{
    if m.len() == 0 {
        Seq::empty()
    } else {
        layout_actions(m.drop_last()) + actions_for(m.last())
    }
}

/// The number of chunks of each regular file to build; of two entries with
/// one name the later counts.
pub open spec fn chunk_counts(m: Seq<FileRecordView>) -> Map<Seq<char>, usize>
    decreases m.len(),
{
    if m.len() == 0 {
        Map::empty()
    } else if built(m.last()) {
        chunk_counts(m.drop_last()).insert(m.last().file_name, m.last().chunks)
    } else {
        chunk_counts(m.drop_last())
    }
}

/// The size of all regular files to build together.
pub open spec fn total_size(m: Seq<FileRecordView>) -> nat
    decreases m.len(),
{
    if m.len() == 0 {
        0
    } else if built(m.last()) {
        total_size(m.drop_last()) + m.last().size_in_bytes as nat
    } else {
        total_size(m.drop_last())
    }
}

/// Whether a character separates the components of a path.
pub open spec fn is_separator(c: char) -> bool {
    c == '/' || c == '\\'
}

/// The components of a path that are complete, and the one that is still
/// being read.
pub open spec fn split_path(path: Seq<char>) -> (Seq<Seq<char>>, Seq<char>)
    decreases path.len(),
{
    if path.len() == 0 {
        (Seq::empty(), Seq::empty())
    } else {
        let (done, current) = split_path(path.drop_last());
        if !is_separator(path.last()) {
            (done, current.push(path.last()))
        } else if current.len() > 0 {
            (done.push(current), Seq::empty())
        } else {
            (done, current)
        }
    }
}

/// The components of a path: what stands between its separators, empty
/// pieces left out.
pub open spec fn components(path: Seq<char>) -> Seq<Seq<char>> {
    let (done, current) = split_path(path);
    if current.len() > 0 {
        done.push(current)
    } else {
        done
    }
}

/// Whether `text` ends with `suffix`.
pub open spec fn ends_with(text: Seq<char>, suffix: Seq<char>) -> bool {
    text.len() >= suffix.len() && text.subrange(text.len() - suffix.len(), text.len() as int)
        == suffix
}

/// Whether a path names the property list of an application bundle:
/// a name that ends with `.plist`, in a directory named `Contents`, in a
/// directory whose name ends with `.app`.
pub open spec fn names_bundle_plist(parts: Seq<Seq<char>>) -> bool {
    &&& parts.len() >= 3
    &&& ends_with(parts[parts.len() - 1], ".plist"@)
    &&& parts[parts.len() - 2] == "Contents"@
    &&& ends_with(parts[parts.len() - 3], ".app"@)
}

/// Whether a path ends with the name of a file, not with a separator.
pub open spec fn ends_in_name(path: Seq<char>) -> bool {
    path.len() > 0 && !is_separator(path.last())
}

/// Whether the file `file_name` below the directory `base` is the property
/// list of an application bundle. Every component counts as a name: `..`
/// is not resolved.
pub open spec fn is_bundle_plist(base: Seq<char>, file_name: Seq<char>) -> bool {
    ends_in_name(file_name) && names_bundle_plist(components(base) + components(file_name))
}

/// The first regular file to build that is the property list of a bundle.
pub open spec fn first_plist(m: Seq<FileRecordView>, base: Seq<char>) -> Option<Seq<char>>
    decreases m.len(),
{
    if m.len() == 0 {
        None
    } else {
        match first_plist(m.drop_last(), base) {
            Some(name) => Some(name),
            None => if built(m.last()) && is_bundle_plist(base, m.last().file_name) {
                Some(m.last().file_name)
            } else {
                None
            },
        }
    }
}

/// The files to build never weigh more than their number allows.
pub proof fn lemma_total_size_bound(m: Seq<FileRecordView>)
    ensures
        total_size(m) <= m.len() * u64::MAX,
    decreases m.len(),
{
    if m.len() > 0 {
        lemma_total_size_bound(m.drop_last());
        assert((m.len() - 1) * u64::MAX + u64::MAX == m.len() * u64::MAX) by (nonlinear_arith);
    }
}

/// The components of `path`.
pub fn path_components(path: &str) -> (r: Vec<Vec<char>>)
    ensures
        r.deep_view() == components(path@),
{
    let chars = chars_of(path);
    let mut done: Vec<Vec<char>> = Vec::new();
    let mut current: Vec<char> = Vec::new();
    let mut i: usize = 0;
    assert(chars@.take(0) =~= Seq::<char>::empty());
    assert(done.deep_view() =~= Seq::<Seq<char>>::empty());
    while i < chars.len()
        invariant
            i <= chars.len(),
            chars@ == path@,
            (done.deep_view(), current@) == split_path(chars@.take(i as int)),
        decreases chars.len() - i,
    {
        let c = chars[i];
        assert(chars@.take(i + 1).drop_last() =~= chars@.take(i as int));
        assert(chars@.take(i + 1).last() == c);
        let ghost before = done.deep_view();
        if !(c == '/' || c == '\\') {
            current.push(c);
        } else if current.len() > 0 {
            let ghost piece = current@;
            done.push(current);
            current = Vec::new();
            assert(done.deep_view() =~~= before.push(piece));
            assert(current@ =~= Seq::<char>::empty());
        }
        i += 1;
    }
    assert(chars@.take(chars.len() as int) =~= chars@);
    if current.len() > 0 {
        let ghost before = done.deep_view();
        let ghost piece = current@;
        done.push(current);
        assert(done.deep_view() =~~= before.push(piece));
    }
    done
}

/// Whether `text` from `start` on is exactly `other`.
fn tail_is(text: &Vec<char>, start: usize, other: &Vec<char>) -> (r: bool)
    requires
        start <= text.len(),
    ensures
        r == (text@.subrange(start as int, text.len() as int) == other@),
{
    let ghost tail = text@.subrange(start as int, text.len() as int);
    if text.len() - start != other.len() {
        return false;
    }
    let mut i: usize = 0;
    while i < other.len()
        invariant
            i <= other.len(),
            start <= text.len(),
            text.len() - start == other.len(),
            tail == text@.subrange(start as int, text.len() as int),
            forall|j: int| 0 <= j < i ==> tail[j] == other@[j],
        decreases other.len() - i,
    {
        if text[start + i] != other[i] {
            assert(tail[i as int] != other@[i as int]);
            return false;
        }
        i += 1;
    }
    assert(tail =~= other@);
    true
}

/// Whether the components name the property list of an application bundle.
pub fn parts_name_bundle_plist(parts: &Vec<Vec<char>>) -> (r: bool)
    ensures
        r == names_bundle_plist(parts.deep_view()),
{
    let n: usize = parts.len();
    if n < 3 {
        return false;
    }
    let ghost view = parts.deep_view();
    assert(view[n - 1] =~= parts@[n - 1]@);
    assert(view[n - 2] =~= parts@[n - 2]@);
    assert(view[n - 3] =~= parts@[n - 3]@);
    let plist = chars_of(".plist");
    let contents = chars_of("Contents");
    let app = chars_of(".app");
    let name = &parts[n - 1];
    let bundle = &parts[n - 3];
    if name.len() < plist.len() || !tail_is(name, name.len() - plist.len(), &plist) {
        return false;
    }
    if !tail_is(&parts[n - 2], 0, &contents) {
        assert(parts@[n - 2]@.subrange(0, parts@[n - 2]@.len() as int) =~= parts@[n - 2]@);
        return false;
    }
    assert(parts@[n - 2]@.subrange(0, parts@[n - 2]@.len() as int) =~= parts@[n - 2]@);
    if bundle.len() < app.len() {
        return false;
    }
    tail_is(bundle, bundle.len() - app.len(), &app)
}

/// Whether the file `file_name` below the directory `base` is the property
/// list of an application bundle.
pub fn names_plist(base: &str, file_name: &str) -> (r: bool)
    ensures
        r == is_bundle_plist(base@, file_name@),
{
    let chars = chars_of(file_name);
    if chars.len() == 0 || chars[chars.len() - 1] == '/' || chars[chars.len() - 1] == '\\' {
        return false;
    }
    let mut parts = path_components(base);
    let mut rest = path_components(file_name);
    let ghost front = parts.deep_view();
    let ghost back = rest.deep_view();
    parts.append(&mut rest);
    assert(parts.deep_view() =~~= front + back);
    parts_name_bundle_plist(&parts)
}

/// Where the main executable of a bundle lies, given the components of the
/// path of the bundle's property list and the executable's name as the list
/// states it: beside the list, in the directory `MacOS`.
pub open spec fn executable_of(plist: Seq<Seq<char>>, executable: Seq<char>) -> Seq<Seq<char>> {
    (if plist.len() > 0 {
        plist.drop_last()
    } else {
        plist
    }) + seq!["MacOS"@, executable]
}

/// The components of the path of a bundle's main executable.
pub fn executable_location(plist: &Vec<Vec<char>>, executable: &str) -> (r: Vec<Vec<char>>)
    ensures
        r.deep_view() == executable_of(plist.deep_view(), executable@),
{
    let ghost parts = plist.deep_view();
    let kept: usize = if plist.len() > 0 {
        plist.len() - 1
    } else {
        0
    };
    let mut location: Vec<Vec<char>> = Vec::new();
    let mut i: usize = 0;
    assert(location.deep_view() =~= parts.take(0));
    while i < kept
        invariant
            i <= kept <= plist.len(),
            parts == plist.deep_view(),
            location.deep_view() == parts.take(i as int),
        decreases kept - i,
    {
        let ghost before = location.deep_view();
        let piece = vstd::slice::slice_to_vec(plist[i].as_slice());
        assert(piece@ =~= parts[i as int]);
        location.push(piece);
        assert(location.deep_view() =~~= before.push(parts[i as int]));
        assert(parts.take(i + 1) =~= parts.take(i as int).push(parts[i as int]));
        i += 1;
    }
    let ghost front = location.deep_view();
    assert(front =~= if parts.len() > 0 {
        parts.drop_last()
    } else {
        parts
    });
    location.push(chars_of("MacOS"));
    location.push(chars_of(executable));
    assert(location.deep_view() =~~= front + seq!["MacOS"@, executable@]);
    location
}

/// Plans the layout pass over a full or delta manifest for an install
/// below `base`. With `find_plist` the first regular file that is the
/// property list of an application bundle is noted.
pub fn plan_layout(records: &Vec<FileRecord>, base: &str, find_plist: bool) -> (plan: LayoutPlan)
    ensures
        plan.actions.deep_view() == layout_actions(records.deep_view()),
        plan.counts.wf(),
        plan.counts@ == chunk_counts(records.deep_view()),
        plan.total_bytes == total_size(records.deep_view()),
        match plan.plist {
            Some(name) => find_plist && first_plist(records.deep_view(), base@) == Some(name@),
            None => !find_plist || first_plist(records.deep_view(), base@) is None,
        },
{
    let ghost all = records.deep_view();
    let mut actions: Vec<LayoutAction> = Vec::new();
    let mut counts: TextMap<usize> = TextMap::new();
    let mut total_bytes: u128 = 0;
    let mut plist: Option<String> = None;
    let mut i: usize = 0;
    assert(all.take(0) =~= Seq::<FileRecordView>::empty());
    assert(actions.deep_view() =~= Seq::<LayoutActionView>::empty());
    while i < records.len()
        invariant
            i <= records.len(),
            all == records.deep_view(),
            counts.wf(),
            actions.deep_view() == layout_actions(all.take(i as int)),
            counts@ == chunk_counts(all.take(i as int)),
            total_bytes == total_size(all.take(i as int)),
            match plist {
                Some(name) => find_plist && first_plist(all.take(i as int), base@) == Some(name@),
                None => !find_plist || first_plist(all.take(i as int), base@) is None,
            },
        decreases records.len() - i,
    {
        let record = &records[i];
        let ghost seen = all.take(i as int);
        let ghost next = all.take(i + 1);
        assert(next.drop_last() =~= seen);
        assert(next.last() == record@);
        proof {
            lemma_total_size_bound(seen);
            assert(seen.len() * u64::MAX + u64::MAX <= usize::MAX * u64::MAX + u64::MAX)
                by (nonlinear_arith)
                requires
                    seen.len() <= usize::MAX,
            ;
        }
        let ghost before = actions.deep_view();
        let is_modified = match record.tag {
            Some(crate::manifest::ChangeTag::Modified) => true,
            _ => false,
        };
        let is_removed = record.is_removed();
        let is_directory = record.is_directory();
        if is_modified || is_removed {
            if is_directory {
                actions.push(LayoutAction::RemoveDir { file_name: record.file_name.clone() });
            } else {
                actions.push(LayoutAction::RemoveFile { file_name: record.file_name.clone() });
            }
        }
        if !is_removed {
            if is_directory {
                actions.push(LayoutAction::EnsureDir { file_name: record.file_name.clone() });
            } else {
                actions.push(LayoutAction::CreateFile { file_name: record.file_name.clone() });
                counts.insert(record.file_name.clone(), record.chunks);
                total_bytes = total_bytes + record.size_in_bytes as u128;
                if find_plist && plist.is_none() && names_plist(base, record.file_name.as_str()) {
                    plist = Some(record.file_name.clone());
                }
            }
        }
        assert(actions.deep_view() =~= before + actions_for(record@));
        i += 1;
    }
    assert(all.take(records.len() as int) =~= all);
    LayoutPlan { actions, counts, total_bytes, plist }
}

} // verus!
