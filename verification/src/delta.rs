//! Delta synthesis: what changed between the installed build and a newer
//! one, as a tagged file manifest, and the chunks that the change needs.

use crate::manifest::{ChangeTag, ChunkRecord, ChunkRecordView, FileRecord, FileRecordView};
use vstd::prelude::*;

verus! {

/// The first record of `m` that is named `name`.
pub open spec fn find_first(m: Seq<FileRecordView>, name: Seq<char>) -> Option<FileRecordView>
    decreases m.len(),
{
    if m.len() == 0 {
        None
    } else if m[0].file_name == name {
        Some(m[0])
    } else {
        find_first(m.drop_first(), name)
    }
}

/// How a record of the new build differs from the old build: added where
/// the old build has no record of that name, modified where the first such
/// record has another hash, not at all otherwise.
pub open spec fn change_of(old: Seq<FileRecordView>, record: FileRecordView) -> Option<ChangeTag> {
    match find_first(old, record.file_name) {
        None => Some(ChangeTag::Added),
        Some(before) => if before.sha != record.sha {
            Some(ChangeTag::Modified)
        } else {
            None
        },
    }
}

/// The added and modified records, in the order of the new manifest.
pub open spec fn changed(old: Seq<FileRecordView>, new: Seq<FileRecordView>) -> Seq<
    FileRecordView,
>
    decreases new.len(),
{
    if new.len() == 0 {
        Seq::empty()
    } else {
        let before = changed(old, new.drop_last());
        match change_of(old, new.last()) {
            Some(tag) => before.push(new.last().with_tag(Some(tag))),
            None => before,
        }
    }
}

/// The records of the old build whose name the new build lacks, tagged as
/// removed, in the order of the old manifest.
pub open spec fn removed(old: Seq<FileRecordView>, new: Seq<FileRecordView>) -> Seq<
    FileRecordView,
>
    decreases old.len(),
{
    if old.len() == 0 {
        Seq::empty()
    } else {
        let before = removed(old.drop_last(), new);
        if find_first(new, old.last().file_name) is None {
            before.push(old.last().with_tag(Some(ChangeTag::Removed)))
        } else {
            before
        }
    }
}

/// The delta manifest between two builds: first what was added or
/// modified, then what was removed.
pub open spec fn delta_of(old: Seq<FileRecordView>, new: Seq<FileRecordView>) -> Seq<
    FileRecordView,
> {
    changed(old, new) + removed(old, new)
}

/// Whether some record of `m` is named `name`.
pub open spec fn has_name(m: Seq<FileRecordView>, name: Seq<char>) -> bool {
    exists|i: int| 0 <= i < m.len() && (#[trigger] m[i]).file_name == name
}

/// No two records of `m` have the same name.
pub open spec fn unique_names(m: Seq<FileRecordView>) -> bool {
    forall|i: int, j: int|
        0 <= i < m.len() && 0 <= j < m.len() && i != j ==> (#[trigger] m[i]).file_name != (
        #[trigger] m[j]).file_name
}

/// The file tree that a manifest describes: each name with its hash.
pub open spec fn tree_of(m: Seq<FileRecordView>) -> Map<Seq<char>, Seq<char>>
    decreases m.len(),
{
    if m.len() == 0 {
        Map::empty()
    } else {
        tree_of(m.drop_last()).insert(m.last().file_name, m.last().sha)
    }
}

/// The file tree after a delta manifest has been applied to it, record by
/// record: a removed entry leaves the tree, any other is rebuilt with the
/// hash of its record.
pub open spec fn apply_delta(tree: Map<Seq<char>, Seq<char>>, delta: Seq<FileRecordView>) -> Map<
    Seq<char>,
    Seq<char>,
>
    decreases delta.len(),
{
    if delta.len() == 0 {
        tree
    } else {
        let before = apply_delta(tree, delta.drop_last());
        if delta.last().is_removed() {
            before.remove(delta.last().file_name)
        } else {
            before.insert(delta.last().file_name, delta.last().sha)
        }
    }
}

/// A name is found in a manifest exactly when a record carries it, and the
/// record found is the first that does.
pub proof fn lemma_find_first(m: Seq<FileRecordView>, name: Seq<char>)
    ensures
        find_first(m, name) is Some <==> has_name(m, name),
        find_first(m, name) matches Some(r) ==> r.file_name == name && exists|i: int|
            0 <= i < m.len() && #[trigger] m[i] == r,
    decreases m.len(),
{
    if m.len() > 0 {
        let rest = m.drop_first();
        lemma_find_first(rest, name);
        if m[0].file_name == name {
            assert(m[0].file_name == name);
        } else {
            if has_name(rest, name) {
                let i = choose|i: int| 0 <= i < rest.len() && (#[trigger] rest[i]).file_name == name;
                assert(m[i + 1].file_name == name);
            }
            if has_name(m, name) {
                let i = choose|i: int| 0 <= i < m.len() && (#[trigger] m[i]).file_name == name;
                assert(rest[i - 1].file_name == name);
            }
            if find_first(rest, name) is Some {
                let r = find_first(rest, name).unwrap();
                let i = choose|i: int| 0 <= i < rest.len() && #[trigger] rest[i] == r;
                assert(m[i + 1] == r);
            }
        }
    }
}

/// The names of a tree are the names of its manifest; among unique names
/// each has the hash of its own record.
pub proof fn lemma_tree_of(m: Seq<FileRecordView>)
    ensures
        forall|name: Seq<char>| #[trigger] tree_of(m).contains_key(name) <==> has_name(m, name),
        unique_names(m) ==> forall|i: int|
            0 <= i < m.len() ==> tree_of(m)[(#[trigger] m[i]).file_name] == m[i].sha,
    decreases m.len(),
{
    if m.len() > 0 {
        let front = m.drop_last();
        let last = m.len() - 1;
        lemma_tree_of(front);
        assert forall|name: Seq<char>| #[trigger]
            tree_of(m).contains_key(name) <==> has_name(m, name) by {
            if tree_of(m).contains_key(name) {
                if name == m.last().file_name {
                    assert(m[last].file_name == name);
                } else {
                    assert(tree_of(front).contains_key(name));
                    assert(has_name(front, name));
                    let i = choose|i: int|
                        0 <= i < front.len() && (#[trigger] front[i]).file_name == name;
                    assert(m[i].file_name == name);
                }
            }
            if has_name(m, name) {
                let i = choose|i: int| 0 <= i < m.len() && (#[trigger] m[i]).file_name == name;
                if i < last {
                    assert(front[i].file_name == name);
                    assert(has_name(front, name));
                    assert(tree_of(front).contains_key(name));
                }
            }
        }
        if unique_names(m) {
            assert(unique_names(front)) by {
                assert forall|i: int, j: int|
                    0 <= i < front.len() && 0 <= j < front.len() && i != j implies (
                #[trigger] front[i]).file_name != (#[trigger] front[j]).file_name by {
                    assert(m[i].file_name != m[j].file_name);
                }
            }
            assert forall|i: int| 0 <= i < m.len() implies tree_of(m)[(#[trigger] m[i]).file_name]
                == m[i].sha by {
                if i < last {
                    assert(m[i].file_name != m[last].file_name);
                    assert(front[i] == m[i]);
                }
            }
        }
    }
}

/// No added or modified record is tagged as removed.
pub proof fn lemma_changed_tags(old: Seq<FileRecordView>, new: Seq<FileRecordView>)
    ensures
        forall|i: int|
            0 <= i < changed(old, new).len() ==> !(#[trigger] changed(old, new)[i]).is_removed(),
    decreases new.len(),
{
    if new.len() > 0 {
        lemma_changed_tags(old, new.drop_last());
        let all = changed(old, new);
        let before = changed(old, new.drop_last());
        assert forall|i: int| 0 <= i < all.len() implies !(#[trigger] all[i]).is_removed() by {
            if i < before.len() {
                assert(all[i] == before[i]);
            }
        }
    }
}

/// Every removed record is tagged as removed.
pub proof fn lemma_removed_tags(old: Seq<FileRecordView>, new: Seq<FileRecordView>)
    ensures
        forall|i: int|
            0 <= i < removed(old, new).len() ==> (#[trigger] removed(old, new)[i]).is_removed(),
    decreases old.len(),
{
    if old.len() > 0 {
        lemma_removed_tags(old.drop_last(), new);
        let all = removed(old, new);
        let before = removed(old.drop_last(), new);
        assert forall|i: int| 0 <= i < all.len() implies (#[trigger] all[i]).is_removed() by {
            if i < before.len() {
                assert(all[i] == before[i]);
            }
        }
    }
}

/// The row that the record at position `i` of the new build gives to the
/// delta, if it gives one.
pub open spec fn change_row(old: Seq<FileRecordView>, new: Seq<FileRecordView>, i: int) -> Option<
    FileRecordView,
> {
    match change_of(old, new[i]) {
        Some(tag) => Some(new[i].with_tag(Some(tag))),
        None => None,
    }
}

/// The row that the record at position `j` of the old build gives to the
/// delta, if it gives one.
pub open spec fn removal_row(old: Seq<FileRecordView>, new: Seq<FileRecordView>, j: int) -> Option<
    FileRecordView,
> {
    if find_first(new, old[j].file_name) is None {
        Some(old[j].with_tag(Some(ChangeTag::Removed)))
    } else {
        None
    }
}

/// Whether `row` tells of a change between the two builds: it is a record
/// of the new build tagged as added, whose name the old build lacks; or a
/// record of the new build tagged as modified, whose name the old build
/// has, first with another hash; or a record of the old build tagged as
/// removed, whose name the new build lacks.
pub open spec fn is_change(old: Seq<FileRecordView>, new: Seq<FileRecordView>, row: FileRecordView)
    -> bool {
    ||| exists|i: int|
        0 <= i < new.len() && !has_name(old, (#[trigger] new[i]).file_name) && row
            == new[i].with_tag(Some(ChangeTag::Added))
    ||| exists|i: int|
        0 <= i < new.len() && has_name(old, (#[trigger] new[i]).file_name) && find_first(
            old,
            new[i].file_name,
        ).unwrap().sha != new[i].sha && row == new[i].with_tag(Some(ChangeTag::Modified))
    ||| exists|j: int|
        0 <= j < old.len() && !has_name(new, (#[trigger] old[j]).file_name) && row
            == old[j].with_tag(Some(ChangeTag::Removed))
}

/// The added and modified rows are the rows that the records of the new
/// build give.
pub proof fn lemma_changed_rows(
    old: Seq<FileRecordView>,
    new: Seq<FileRecordView>,
    row: FileRecordView,
)
    ensures
        changed(old, new).contains(row) <==> exists|i: int|
            0 <= i < new.len() && #[trigger] change_row(old, new, i) == Some(row),
    decreases new.len(),
{
    if new.len() > 0 {
        let front = new.drop_last();
        let last = new.len() - 1;
        let before = changed(old, front);
        let all = changed(old, new);
        lemma_changed_rows(old, front, row);
        assert forall|i: int| 0 <= i < front.len() implies change_row(old, front, i) == change_row(
            old,
            new,
            i,
        ) by {
            assert(front[i] == new[i]);
        }
        if all.contains(row) {
            let k = choose|k: int| 0 <= k < all.len() && all[k] == row;
            if k < before.len() {
                assert(before[k] == row);
                assert(before.contains(row));
                let i = choose|i: int|
                    0 <= i < front.len() && #[trigger] change_row(old, front, i) == Some(row);
                assert(change_row(old, new, i) == Some(row));
            } else {
                assert(change_row(old, new, last) == Some(row));
            }
        }
        if exists|i: int| 0 <= i < new.len() && #[trigger] change_row(old, new, i) == Some(row) {
            let i = choose|i: int|
                0 <= i < new.len() && #[trigger] change_row(old, new, i) == Some(row);
            if i < last {
                assert(change_row(old, front, i) == Some(row));
                let k = choose|k: int| 0 <= k < before.len() && before[k] == row;
                assert(all[k] == row);
            } else {
                assert(all[all.len() - 1] == row);
            }
        }
    }
}

/// The removed rows are the rows that the records of the old build give.
pub proof fn lemma_removed_rows(
    old: Seq<FileRecordView>,
    new: Seq<FileRecordView>,
    row: FileRecordView,
)
    ensures
        removed(old, new).contains(row) <==> exists|j: int|
            0 <= j < old.len() && #[trigger] removal_row(old, new, j) == Some(row),
    decreases old.len(),
{
    if old.len() > 0 {
        let front = old.drop_last();
        let last = old.len() - 1;
        let before = removed(front, new);
        let all = removed(old, new);
        lemma_removed_rows(front, new, row);
        assert forall|j: int| 0 <= j < front.len() implies removal_row(front, new, j)
            == removal_row(old, new, j) by {
            assert(front[j] == old[j]);
        }
        if all.contains(row) {
            let k = choose|k: int| 0 <= k < all.len() && all[k] == row;
            if k < before.len() {
                assert(before[k] == row);
                assert(before.contains(row));
                let j = choose|j: int|
                    0 <= j < front.len() && #[trigger] removal_row(front, new, j) == Some(row);
                assert(removal_row(old, new, j) == Some(row));
            } else {
                assert(removal_row(old, new, last) == Some(row));
            }
        }
        if exists|j: int| 0 <= j < old.len() && #[trigger] removal_row(old, new, j) == Some(row) {
            let j = choose|j: int|
                0 <= j < old.len() && #[trigger] removal_row(old, new, j) == Some(row);
            if j < last {
                assert(removal_row(front, new, j) == Some(row));
                let k = choose|k: int| 0 <= k < before.len() && before[k] == row;
                assert(all[k] == row);
            } else {
                assert(all[all.len() - 1] == row);
            }
        }
    }
}

/// A row stands in the delta of two builds exactly when it tells of a
/// change between them: nothing else is listed, and no change is left out.
pub proof fn lemma_delta_rows(
    old: Seq<FileRecordView>,
    new: Seq<FileRecordView>,
    row: FileRecordView,
)
    ensures
        delta_of(old, new).contains(row) <==> is_change(old, new, row),
{
    let front = changed(old, new);
    let back = removed(old, new);
    let all = delta_of(old, new);
    lemma_changed_rows(old, new, row);
    lemma_removed_rows(old, new, row);
    assert(all.contains(row) <==> front.contains(row) || back.contains(row)) by {
        if all.contains(row) {
            let k = choose|k: int| 0 <= k < all.len() && all[k] == row;
            if k < front.len() {
                assert(front[k] == row);
            } else {
                assert(back[k - front.len()] == row);
            }
        }
        if front.contains(row) {
            let k = choose|k: int| 0 <= k < front.len() && front[k] == row;
            assert(all[k] == row);
        }
        if back.contains(row) {
            let k = choose|k: int| 0 <= k < back.len() && back[k] == row;
            assert(all[front.len() + k] == row);
        }
    }
    assert forall|i: int| 0 <= i < new.len() implies (find_first(old, new[i].file_name) is Some
        <==> has_name(old, new[i].file_name)) by {
        lemma_find_first(old, new[i].file_name);
    }
    assert forall|j: int| 0 <= j < old.len() implies (find_first(new, old[j].file_name) is Some
        <==> has_name(new, old[j].file_name)) by {
        lemma_find_first(new, old[j].file_name);
    }
    if front.contains(row) {
        let i = choose|i: int|
            0 <= i < new.len() && #[trigger] change_row(old, new, i) == Some(row);
        assert(is_change(old, new, row));
    }
    if back.contains(row) {
        let j = choose|j: int|
            0 <= j < old.len() && #[trigger] removal_row(old, new, j) == Some(row);
        assert(is_change(old, new, row));
    }
    if is_change(old, new, row) {
        if exists|i: int|
            0 <= i < new.len() && !has_name(old, (#[trigger] new[i]).file_name) && row
                == new[i].with_tag(Some(ChangeTag::Added)) {
            let i = choose|i: int|
                0 <= i < new.len() && !has_name(old, (#[trigger] new[i]).file_name) && row
                    == new[i].with_tag(Some(ChangeTag::Added));
            assert(change_row(old, new, i) == Some(row));
        } else if exists|i: int|
            0 <= i < new.len() && has_name(old, (#[trigger] new[i]).file_name) && find_first(
                old,
                new[i].file_name,
            ).unwrap().sha != new[i].sha && row == new[i].with_tag(Some(ChangeTag::Modified)) {
            let i = choose|i: int|
                0 <= i < new.len() && has_name(old, (#[trigger] new[i]).file_name) && find_first(
                    old,
                    new[i].file_name,
                ).unwrap().sha != new[i].sha && row == new[i].with_tag(Some(ChangeTag::Modified));
            assert(change_row(old, new, i) == Some(row));
        } else {
            let j = choose|j: int|
                0 <= j < old.len() && !has_name(new, (#[trigger] old[j]).file_name) && row
                    == old[j].with_tag(Some(ChangeTag::Removed));
            assert(removal_row(old, new, j) == Some(row));
        }
    }
}

/// In a delta manifest nothing but removed records follows a removed
/// record.
pub proof fn lemma_removed_come_last(
    old: Seq<FileRecordView>,
    new: Seq<FileRecordView>,
    i: int,
    j: int,
)
    requires
        0 <= i <= j < delta_of(old, new).len(),
        delta_of(old, new)[i].is_removed(),
    ensures
        delta_of(old, new)[j].is_removed(),
{
    lemma_changed_tags(old, new);
    lemma_removed_tags(old, new);
    let front = changed(old, new);
    let back = removed(old, new);
    if i < front.len() {
        assert(delta_of(old, new)[i] == front[i]);
    } else {
        assert(delta_of(old, new)[j] == back[j - front.len()]);
    }
}

/// Applying two deltas one after the other is applying them joined.
pub proof fn lemma_apply_joined(
    tree: Map<Seq<char>, Seq<char>>,
    first: Seq<FileRecordView>,
    second: Seq<FileRecordView>,
)
    ensures
        apply_delta(tree, first + second) == apply_delta(apply_delta(tree, first), second),
    decreases second.len(),
{
    if second.len() == 0 {
        assert(first + second =~= first);
    } else {
        lemma_apply_joined(tree, first, second.drop_last());
        assert((first + second).drop_last() =~= first + second.drop_last());
        assert((first + second).last() == second.last());
    }
}

/// After the added and modified records have been applied, the tree holds
/// the new build's entries over what the old build had.
proof fn lemma_apply_changed(old: Seq<FileRecordView>, new: Seq<FileRecordView>)
    requires
        unique_names(old),
        unique_names(new),
    ensures
        apply_delta(tree_of(old), changed(old, new)) == tree_of(old).union_prefer_right(
            tree_of(new),
        ),
    decreases new.len(),
{
    let base = tree_of(old);
    if new.len() == 0 {
        assert(base.union_prefer_right(tree_of(new)) =~= base);
    } else {
        let front = new.drop_last();
        let record = new.last();
        let last = new.len() - 1;
        assert(unique_names(front)) by {
            assert forall|i: int, j: int|
                0 <= i < front.len() && 0 <= j < front.len() && i != j implies (
            #[trigger] front[i]).file_name != (#[trigger] front[j]).file_name by {
                assert(new[i].file_name != new[j].file_name);
            }
        }
        lemma_apply_changed(old, front);
        let so_far = base.union_prefer_right(tree_of(front));
        match change_of(old, record) {
            Some(tag) => {
                let tagged = record.with_tag(Some(tag));
                assert(changed(old, new).drop_last() =~= changed(old, front));
                assert(changed(old, new).last() == tagged);
                assert(!tagged.is_removed());
                assert(so_far.insert(record.file_name, record.sha) =~= base.union_prefer_right(
                    tree_of(new),
                ));
            },
            None => {
                lemma_find_first(old, record.file_name);
                lemma_tree_of(old);
                lemma_tree_of(front);
                let before = find_first(old, record.file_name).unwrap();
                let at = choose|i: int| 0 <= i < old.len() && #[trigger] old[i] == before;
                assert(base[old[at].file_name] == old[at].sha);
                assert(!has_name(front, record.file_name)) by {
                    if has_name(front, record.file_name) {
                        let i = choose|i: int|
                            0 <= i < front.len() && (#[trigger] front[i]).file_name
                                == record.file_name;
                        assert(new[i].file_name != new[last].file_name);
                    }
                }
                assert(base.contains_key(record.file_name));
                assert(so_far =~= base.union_prefer_right(tree_of(new)));
            },
        }
    }
}

/// Applying the removed records takes out of a tree every name that the
/// old build has and the new build lacks.
proof fn lemma_apply_removed(
    tree: Map<Seq<char>, Seq<char>>,
    old: Seq<FileRecordView>,
    new: Seq<FileRecordView>,
)
    ensures
        apply_delta(tree, removed(old, new)) == tree.remove_keys(
            Set::new(|name: Seq<char>| has_name(old, name) && !has_name(new, name)),
        ),
    decreases old.len(),
{
    let gone = Set::new(|name: Seq<char>| has_name(old, name) && !has_name(new, name));
    if old.len() == 0 {
        assert(tree.remove_keys(gone) =~= tree);
    } else {
        let front = old.drop_last();
        let record = old.last();
        let last = old.len() - 1;
        let gone_before = Set::new(|name: Seq<char>| has_name(front, name) && !has_name(new, name));
        lemma_apply_removed(tree, front, new);
        lemma_removed_tags(old, new);
        lemma_find_first(new, record.file_name);
        assert forall|name: Seq<char>|
            has_name(old, name) <==> (has_name(front, name) || name == record.file_name) by {
            if has_name(old, name) {
                let i = choose|i: int| 0 <= i < old.len() && (#[trigger] old[i]).file_name == name;
                if i < last {
                    assert(front[i].file_name == name);
                }
            }
            if has_name(front, name) {
                let i = choose|i: int|
                    0 <= i < front.len() && (#[trigger] front[i]).file_name == name;
                assert(old[i].file_name == name);
            }
            if name == record.file_name {
                assert(old[last].file_name == name);
            }
        }
        if find_first(new, record.file_name) is None {
            let tagged = record.with_tag(Some(ChangeTag::Removed));
            assert(removed(old, new).drop_last() =~= removed(front, new));
            assert(removed(old, new).last() == tagged);
            assert(tree.remove_keys(gone_before).remove(record.file_name) =~= tree.remove_keys(
                gone,
            ));
        } else {
            assert(gone =~= gone_before);
        }
    }
}

/// For any two manifests without repeated names, applying the synthesized
/// delta to a tree that matches the old manifest yields a tree that matches
/// the new one: the same set of names, each with the new hash.
pub proof fn lemma_delta_rebuilds_tree(old: Seq<FileRecordView>, new: Seq<FileRecordView>)
    requires
        unique_names(old),
        unique_names(new),
    ensures
        apply_delta(tree_of(old), delta_of(old, new)) == tree_of(new),
{
    let base = tree_of(old);
    let middle = base.union_prefer_right(tree_of(new));
    let gone = Set::new(|name: Seq<char>| has_name(old, name) && !has_name(new, name));
    lemma_apply_joined(base, changed(old, new), removed(old, new));
    lemma_apply_changed(old, new);
    lemma_apply_removed(middle, old, new);
    lemma_tree_of(old);
    lemma_tree_of(new);
    assert(middle.remove_keys(gone) =~= tree_of(new));
}

/// A manifest that removes nothing.
pub open spec fn removes_nothing(m: Seq<FileRecordView>) -> bool {
    forall|i: int| 0 <= i < m.len() ==> !(#[trigger] m[i]).is_removed()
}

/// Building a manifest that removes nothing lays its entries over whatever
/// the tree held.
pub proof fn lemma_build_overlays(tree: Map<Seq<char>, Seq<char>>, m: Seq<FileRecordView>)
    requires
        removes_nothing(m),
    ensures
        apply_delta(tree, m) == tree.union_prefer_right(tree_of(m)),
    decreases m.len(),
{
    if m.len() == 0 {
        assert(tree.union_prefer_right(tree_of(m)) =~= tree);
    } else {
        let front = m.drop_last();
        assert(removes_nothing(front)) by {
            assert forall|i: int| 0 <= i < front.len() implies !(#[trigger] front[i]).is_removed() by {
                assert(front[i] == m[i]);
            }
        }
        assert(!m[m.len() - 1].is_removed());
        lemma_build_overlays(tree, front);
        assert(tree.union_prefer_right(tree_of(front)).insert(m.last().file_name, m.last().sha)
            =~= tree.union_prefer_right(tree_of(m)));
    }
}

/// Installing a build over a tree that already holds it changes nothing:
/// whatever the tree held before, after one install every entry of the
/// manifest is as the manifest says, and a second install leaves the tree
/// as the first left it.
pub proof fn lemma_reinstall_changes_nothing(
    tree: Map<Seq<char>, Seq<char>>,
    m: Seq<FileRecordView>,
)
    requires
        removes_nothing(m),
    ensures
        apply_delta(apply_delta(tree, m), m) == apply_delta(tree, m),
        forall|name: Seq<char>| #[trigger]
            tree_of(m).contains_key(name) ==> apply_delta(tree, m).contains_key(name)
                && apply_delta(tree, m)[name] == tree_of(m)[name],
{
    lemma_build_overlays(tree, m);
    lemma_build_overlays(apply_delta(tree, m), m);
    let once = tree.union_prefer_right(tree_of(m));
    assert(once.union_prefer_right(tree_of(m)) =~= once);
}

/// The first record of `m` that is named as `name` is.
fn find_record<'a>(m: &'a Vec<FileRecord>, name: &String) -> (r: Option<&'a FileRecord>)
    ensures
        match r {
            Some(record) => find_first(m.deep_view(), name@) == Some(record@),
            None => find_first(m.deep_view(), name@) is None,
        },
{
    let ghost view = m.deep_view();
    let mut i: usize = 0;
    assert(view.skip(0) =~= view);
    while i < m.len()
        invariant
            i <= m.len(),
            view == m.deep_view(),
            find_first(view, name@) == find_first(view.skip(i as int), name@),
        decreases m.len() - i,
    {
        assert(view.skip(i as int)[0] == m@[i as int]@);
        assert(view.skip(i as int).drop_first() =~= view.skip(i + 1));
        if m[i].file_name == *name {
            return Some(&m[i]);
        }
        i += 1;
    }
    None
}

/// Compares two builds: the records of `new` that `old` lacks or holds with
/// another hash, tagged as added or modified, followed by the records of
/// `old` that `new` lacks, tagged as removed.
pub fn synthesize_delta(old: &Vec<FileRecord>, new: &Vec<FileRecord>) -> (r: Vec<FileRecord>)
    ensures
        r.deep_view() == delta_of(old.deep_view(), new.deep_view()),
{
    let ghost before = old.deep_view();
    let ghost after = new.deep_view();
    let mut delta: Vec<FileRecord> = Vec::new();
    let mut i: usize = 0;
    assert(after.take(0) =~= Seq::<FileRecordView>::empty());
    while i < new.len()
        invariant
            i <= new.len(),
            before == old.deep_view(),
            after == new.deep_view(),
            delta.deep_view() == changed(before, after.take(i as int)),
        decreases new.len() - i,
    {
        let record = &new[i];
        assert(after.take(i + 1).drop_last() =~= after.take(i as int));
        assert(after.take(i + 1).last() == record@);
        let ghost so_far = delta.deep_view();
        match find_record(old, &record.file_name) {
            None => {
                delta.push(record.tagged(Some(ChangeTag::Added)));
                assert(delta.deep_view() =~= so_far.push(
                    record@.with_tag(Some(ChangeTag::Added)),
                ));
            },
            Some(known) => {
                if known.sha != record.sha {
                    delta.push(record.tagged(Some(ChangeTag::Modified)));
                    assert(delta.deep_view() =~= so_far.push(
                        record@.with_tag(Some(ChangeTag::Modified)),
                    ));
                }
            },
        }
        i += 1;
    }
    assert(after.take(new.len() as int) =~= after);
    let ghost front = delta.deep_view();
    let mut j: usize = 0;
    assert(before.take(0) =~= Seq::<FileRecordView>::empty());
    assert(front + removed(before.take(0), after) =~= front);
    while j < old.len()
        invariant
            j <= old.len(),
            before == old.deep_view(),
            after == new.deep_view(),
            front == changed(before, after),
            delta.deep_view() == front + removed(before.take(j as int), after),
        decreases old.len() - j,
    {
        let record = &old[j];
        assert(before.take(j + 1).drop_last() =~= before.take(j as int));
        assert(before.take(j + 1).last() == record@);
        let ghost so_far = delta.deep_view();
        if find_record(new, &record.file_name).is_none() {
            delta.push(record.tagged(Some(ChangeTag::Removed)));
            assert(delta.deep_view() =~= so_far.push(record@.with_tag(Some(ChangeTag::Removed))));
            assert(delta.deep_view() =~= front + removed(before.take(j + 1), after));
        }
        j += 1;
    }
    assert(before.take(old.len() as int) =~= before);
    delta
}

/// A delta record that no chunk can belong to: a directory, or a file
/// without chunks.
pub open spec fn skippable(record: FileRecordView) -> bool {
    record.is_directory() || record.is_empty()
}

/// Where the cursor over the delta records comes to rest from `at`: on the
/// first record that is not skippable, or on the last record of all.
pub open spec fn settle(delta: Seq<FileRecordView>, at: int) -> int
    decreases delta.len() - at,
{
    if 0 <= at && at + 1 < delta.len() && skippable(delta[at]) {
        settle(delta, at + 1)
    } else {
        at
    }
}

/// The chunks of the delta from chunk `i` on, with the cursor at `at`. The
/// cursor first settles; where it has then reached a removed record, the
/// pass ends. Else a chunk of another file than the cursor's is dropped, a
/// chunk of the cursor's file is kept, and the cursor moves on behind the
/// file's last chunk. The pass ends when the cursor has nowhere to move on
/// to.
pub open spec fn delta_chunks_from(
    delta: Seq<FileRecordView>,
    chunks: Seq<ChunkRecordView>,
    at: int,
    i: int,
) -> Seq<ChunkRecordView>
    decreases chunks.len() - i,
{
    if i < 0 || i >= chunks.len() || at < 0 || at >= delta.len() {
        Seq::empty()
    } else {
        let cursor = settle(delta, at);
        if delta[cursor].is_removed() {
            Seq::empty()
        } else if chunks[i].file_path != delta[cursor].file_name {
            delta_chunks_from(delta, chunks, cursor, i + 1)
        } else if chunks[i].id + 1 == delta[cursor].chunks {
            if cursor + 1 < delta.len() {
                seq![chunks[i]] + delta_chunks_from(delta, chunks, cursor + 1, i + 1)
            } else {
                seq![chunks[i]]
            }
        } else {
            seq![chunks[i]] + delta_chunks_from(delta, chunks, cursor, i + 1)
        }
    }
}

/// The chunk manifest of a delta: the chunks of the new build that belong
/// to the delta's added and modified files, found in one forward pass.
pub open spec fn delta_chunks_of(delta: Seq<FileRecordView>, chunks: Seq<ChunkRecordView>) -> Seq<
    ChunkRecordView,
> {
    delta_chunks_from(delta, chunks, 0, 0)
}

/// Whether the delta has a record named `name` that is not removed.
pub open spec fn keeps_file(delta: Seq<FileRecordView>, name: Seq<char>) -> bool {
    exists|d: int|
        0 <= d < delta.len() && (#[trigger] delta[d]).file_name == name && !delta[d].is_removed()
}

/// Where in the chunk manifest the chunks stand that the pass keeps from
/// chunk `i` on, with the cursor at `at`.
pub open spec fn kept_positions_from(
    delta: Seq<FileRecordView>,
    chunks: Seq<ChunkRecordView>,
    at: int,
    i: int,
) -> Seq<int>
    decreases chunks.len() - i,
{
    if i < 0 || i >= chunks.len() || at < 0 || at >= delta.len() {
        Seq::empty()
    } else {
        let cursor = settle(delta, at);
        if delta[cursor].is_removed() {
            Seq::empty()
        } else if chunks[i].file_path != delta[cursor].file_name {
            kept_positions_from(delta, chunks, cursor, i + 1)
        } else if chunks[i].id + 1 == delta[cursor].chunks {
            if cursor + 1 < delta.len() {
                seq![i] + kept_positions_from(delta, chunks, cursor + 1, i + 1)
            } else {
                seq![i]
            }
        } else {
            seq![i] + kept_positions_from(delta, chunks, cursor, i + 1)
        }
    }
}

/// The chunks of a delta are chosen from the chunks of the new build: each
/// is the chunk at one position of the chunk manifest, unchanged; the
/// positions go upward, so none is taken twice and none changes place; and
/// each belongs to a file that the delta names in a record that is not
/// removed.
pub proof fn lemma_delta_chunks_come_from(
    delta: Seq<FileRecordView>,
    chunks: Seq<ChunkRecordView>,
    at: int,
    i: int,
)
    ensures
        kept_positions_from(delta, chunks, at, i).len() == delta_chunks_from(
            delta,
            chunks,
            at,
            i,
        ).len(),
        forall|k: int|
            0 <= k < kept_positions_from(delta, chunks, at, i).len() ==> {
                let p = #[trigger] kept_positions_from(delta, chunks, at, i)[k];
                &&& 0 <= i <= p < chunks.len()
                &&& delta_chunks_from(delta, chunks, at, i)[k] == chunks[p]
                &&& keeps_file(delta, chunks[p].file_path)
            },
        forall|k: int, l: int|
            0 <= k < l < kept_positions_from(delta, chunks, at, i).len() ==> kept_positions_from(
                delta,
                chunks,
                at,
                i,
            )[k] < kept_positions_from(delta, chunks, at, i)[l],
    decreases chunks.len() - i,
{
    let all = delta_chunks_from(delta, chunks, at, i);
    let places = kept_positions_from(delta, chunks, at, i);
    if 0 <= i < chunks.len() && 0 <= at < delta.len() {
        let cursor = settle(delta, at);
        lemma_settle_within(delta, at);
        if !delta[cursor].is_removed() {
            let next = if chunks[i].file_path == delta[cursor].file_name && chunks[i].id + 1
                == delta[cursor].chunks {
                cursor + 1
            } else {
                cursor
            };
            lemma_delta_chunks_come_from(delta, chunks, next, i + 1);
            let rest = delta_chunks_from(delta, chunks, next, i + 1);
            let rest_places = kept_positions_from(delta, chunks, next, i + 1);
            if chunks[i].file_path != delta[cursor].file_name {
                assert(all == rest && places == rest_places);
            } else {
                assert(keeps_file(delta, chunks[i].file_path));
                if next < delta.len() {
                    assert(all == seq![chunks[i]] + rest);
                    assert(places == seq![i] + rest_places);
                    assert forall|k: int| 0 <= k < places.len() implies {
                        let p = #[trigger] places[k];
                        &&& 0 <= i <= p < chunks.len()
                        &&& all[k] == chunks[p]
                        &&& keeps_file(delta, chunks[p].file_path)
                    } by {
                        if k > 0 {
                            assert(places[k] == rest_places[k - 1]);
                            assert(all[k] == rest[k - 1]);
                        }
                    }
                    assert forall|k: int, l: int| 0 <= k < l < places.len() implies places[k]
                        < places[l] by {
                        assert(places[l] == rest_places[l - 1]);
                        if k > 0 {
                            assert(places[k] == rest_places[k - 1]);
                        }
                    }
                } else {
                    assert(all == seq![chunks[i]]);
                    assert(places == seq![i]);
                }
            }
        }
    }
}

/// The cursor settles within the delta and never moves back.
pub proof fn lemma_settle_within(delta: Seq<FileRecordView>, at: int)
    requires
        0 <= at < delta.len(),
    ensures
        at <= settle(delta, at) < delta.len(),
    decreases delta.len() - at,
{
    if at + 1 < delta.len() && skippable(delta[at]) {
        lemma_settle_within(delta, at + 1);
    }
}

/// Selects from the chunks of the new build those that the delta needs.
pub fn synthesize_delta_chunks(delta: &Vec<FileRecord>, chunks: &Vec<ChunkRecord>) -> (r: Vec<
    ChunkRecord,
>)
    ensures
        r.deep_view() == delta_chunks_of(delta.deep_view(), chunks.deep_view()),
{
    let ghost files = delta.deep_view();
    let ghost all = chunks.deep_view();
    let mut kept: Vec<ChunkRecord> = Vec::new();
    if delta.len() == 0 {
        return kept;
    }
    let mut cursor: usize = 0;
    let mut i: usize = 0;
    assert(kept.deep_view() + delta_chunks_from(files, all, 0, 0) =~= delta_chunks_of(files, all));
    while i < chunks.len()
        invariant
            i <= chunks.len(),
            cursor < delta.len(),
            files == delta.deep_view(),
            all == chunks.deep_view(),
            delta_chunks_of(files, all) == kept.deep_view() + delta_chunks_from(
                files,
                all,
                cursor as int,
                i as int,
            ),
        decreases chunks.len() - i,
    {
        let ghost start = cursor as int;
        while cursor + 1 < delta.len() && (delta[cursor].is_directory() || delta[cursor].is_empty())
            invariant
                cursor < delta.len(),
                files == delta.deep_view(),
                start <= cursor,
                settle(files, start) == settle(files, cursor as int),
            decreases delta.len() - cursor,
        {
            assert(files[cursor as int] == delta@[cursor as int]@);
            cursor += 1;
        }
        assert(files[cursor as int] == delta@[cursor as int]@);
        assert(settle(files, start) == cursor);
        if delta[cursor].is_removed() {
            assert(kept.deep_view() + Seq::<ChunkRecordView>::empty() =~= kept.deep_view());
            return kept;
        }
        let chunk = &chunks[i];
        assert(all[i as int] == chunk@);
        let ghost so_far = kept.deep_view();
        if chunk.file_path == delta[cursor].file_name {
            kept.push(chunk.duplicate());
            assert(kept.deep_view() =~= so_far.push(chunk@));
            if chunk.id as usize == delta[cursor].chunks.wrapping_sub(1) && delta[cursor].chunks
                != 0 {
                if cursor + 1 < delta.len() {
                    assert(so_far + (seq![chunk@] + delta_chunks_from(
                        files,
                        all,
                        cursor + 1,
                        i + 1,
                    )) =~= kept.deep_view() + delta_chunks_from(files, all, cursor + 1, i + 1));
                    cursor += 1;
                } else {
                    assert(so_far + seq![chunk@] =~= kept.deep_view());
                    return kept;
                }
            } else {
                assert(so_far + (seq![chunk@] + delta_chunks_from(
                    files,
                    all,
                    cursor as int,
                    i + 1,
                )) =~= kept.deep_view() + delta_chunks_from(files, all, cursor as int, i + 1));
            }
        }
        i += 1;
    }
    assert(kept.deep_view() + Seq::<ChunkRecordView>::empty() =~= kept.deep_view());
    kept
}

} // verus!
