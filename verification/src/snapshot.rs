//! Building and reconciling snapshots of a directory tree.
//!
//! A snapshot maps each effective child name — listed children minus
//! the names the directory's own ignore file excludes — to a file's
//! content hash or a nested snapshot.  Reconciliation walks a previous
//! snapshot and the current tree in parallel, reusing directory
//! structure where both sides have a directory and rebuilding fresh
//! everywhere else; every live file is rehashed, so the result is
//! exactly the snapshot a fresh build of the current tree yields, and
//! names gone from the tree are dropped.

use crate::config::ConfigDetails;
use crate::fs_tree::{
    decode_utf8, entry_names, find_child, find_node, utf8_chars, FsChild, FsNode, FsTree,
};
use crate::hash::spec_content_hash;
use crate::ignore::{ignore_names, is_ignored, read_ignore_file, IgnoreSet};
use crate::store::{store_put, ContentStore};
use vstd::prelude::*;

verus! {

/// One named entry of a snapshot.
#[derive(Debug, PartialEq, Eq)]
pub struct SnapEntry {
    pub name: String,
    pub entry: Entry,
}

/// What a snapshot records under one name: the content hash of a file,
/// or the snapshot of a subdirectory.
#[derive(Debug, PartialEq, Eq)]
pub enum Entry {
    File(String),
    Directory(Snapshot),
}

/// The snapshot of one directory: its effective children by name.
#[derive(Debug, PartialEq, Eq)]
pub struct Snapshot {
    pub entries: Vec<SnapEntry>,
}

/// The mathematical value of an entry: a hash, or a map of nested
/// entry values.
pub enum EntryModel {
    File(Seq<char>),
    Directory(Map<Seq<char>, EntryModel>),
}

/// The mathematical value of a sequence of snapshot entries: the map
/// from name to entry value, later entries winning.
pub open spec fn snap_entries_model(s: Seq<SnapEntry>) -> Map<Seq<char>, EntryModel>
    decreases s,
{
    if s.len() == 0 {
        Map::empty()
    } else {
        snap_entries_model(s.drop_last()).insert(
            s.last().name@,
            entry_model(s.last().entry),
        )
    }
}

/// The mathematical value of one entry.
pub open spec fn entry_model(e: Entry) -> EntryModel
    decreases e,
{
    match e {
        Entry::File(h) => EntryModel::File(h@),
        Entry::Directory(snap) => EntryModel::Directory(snap_entries_model(snap.entries@)),
    }
}

impl View for Snapshot {
    type V = Map<Seq<char>, EntryModel>;

    open spec fn view(&self) -> Map<Seq<char>, EntryModel> {
        snap_entries_model(self.entries@)
    }
}

impl Snapshot {
    /// The entry recorded under `name`, searching later entries first.
    pub fn get<'a>(&'a self, name: &String) -> (r: Option<&'a Entry>)
        ensures
            r is Some <==> snap_find(self.entries@, name@) is Some,
            r is Some ==> *r->Some_0 == snap_find(self.entries@, name@)->Some_0,
    {
        let mut i = self.entries.len();
        proof {
            assert(self.entries@.subrange(0, self.entries@.len() as int) =~= self.entries@);
        }
        while i > 0
            invariant
                i <= self.entries@.len(),
                snap_find(self.entries@, name@) == snap_find(
                    self.entries@.subrange(0, i as int),
                    name@,
                ),
            decreases i,
        {
            i = i - 1;
            let ghost pre = self.entries@.subrange(0, i as int + 1);
            proof {
                assert(pre.last() == self.entries@[i as int]);
                assert(pre.drop_last() =~= self.entries@.subrange(0, i as int));
            }
            if self.entries[i].name == *name {
                return Some(&self.entries[i].entry);
            }
        }
        proof {
            assert(self.entries@.subrange(0, 0) =~= Seq::<SnapEntry>::empty());
        }
        None
    }
}

/// The entry a snapshot's entry list records under `name`, searching
/// later entries first.
pub open spec fn snap_find(s: Seq<SnapEntry>, name: Seq<char>) -> Option<Entry>
    decreases s.len(),
{
    if s.len() == 0 {
        None
    } else if s.last().name@ == name {
        Some(s.last().entry)
    } else {
        snap_find(s.drop_last(), name)
    }
}

/// The lookup `Snapshot::get` implements agrees with the snapshot's
/// map value: a name is found exactly when the map has it, and the
/// entry found is the one the map records.
pub proof fn lemma_snap_find_matches_model(s: Seq<SnapEntry>, name: Seq<char>)
    ensures
        snap_find(s, name) is Some <==> snap_entries_model(s).dom().contains(name),
        snap_find(s, name) is Some ==> snap_entries_model(s)[name] == entry_model(
            snap_find(s, name)->Some_0,
        ),
    decreases s.len(),
{
    if s.len() > 0 && s.last().name@ != name {
        lemma_snap_find_matches_model(s.drop_last(), name);
    }
}

/// The names a directory's own ignore file excludes: the rules parsed
/// from the child of that name when it is a file with valid UTF-8
/// content, and no names otherwise.
pub open spec fn dir_ignore(s: Seq<FsChild>, ignore_file_name: Seq<char>) -> Set<Seq<char>> {
    match find_node(s, ignore_file_name) {
        Some(FsNode::File(c)) => match utf8_chars(c@) {
            Some(text) => ignore_names(text),
            None => Set::empty(),
        },
        _ => Set::empty(),
    }
}

/// The entry value a fresh build gives one child: a file's content
/// hash, or the build of the subdirectory.
pub open spec fn build_child_model(n: FsNode, ignore_file_name: Seq<char>) -> EntryModel
    decreases n,
{
    match n {
        FsNode::File(c) => EntryModel::File(spec_content_hash(c@)),
        FsNode::Dir(t) => EntryModel::Directory(build_tree_model(t, ignore_file_name)),
    }
}

/// The snapshot value a fresh build of a directory tree yields.
pub open spec fn build_tree_model(t: FsTree, ignore_file_name: Seq<char>) -> Map<
    Seq<char>,
    EntryModel,
>
    decreases t,
{
    build_entries_model(t.entries@, dir_ignore(t.entries@, ignore_file_name), ignore_file_name)
}

/// The snapshot value built from the children `s` under the ignore
/// set `ig` of their directory.
pub open spec fn build_entries_model(
    s: Seq<FsChild>,
    ig: Set<Seq<char>>,
    ignore_file_name: Seq<char>,
) -> Map<Seq<char>, EntryModel>
    decreases s,
{
    if s.len() == 0 {
        Map::empty()
    } else {
        let m = build_entries_model(s.drop_last(), ig, ignore_file_name);
        if ig.contains(s.last().name@) {
            m
        } else {
            m.insert(s.last().name@, build_child_model(s.last().node, ignore_file_name))
        }
    }
}

/// The content hashes of one child: a file's hash, or every hash under
/// the subdirectory.
pub open spec fn child_hashes(n: FsNode, ignore_file_name: Seq<char>) -> Set<Seq<char>>
    decreases n,
{
    match n {
        FsNode::File(c) => Set::empty().insert(spec_content_hash(c@)),
        FsNode::Dir(t) => tree_hashes(t, ignore_file_name),
    }
}

/// The content hashes of every effective file under a directory tree.
pub open spec fn tree_hashes(t: FsTree, ignore_file_name: Seq<char>) -> Set<Seq<char>>
    decreases t,
{
    entries_hashes(t.entries@, dir_ignore(t.entries@, ignore_file_name), ignore_file_name)
}

/// The content hashes of the effective files among the children `s`.
pub open spec fn entries_hashes(
    s: Seq<FsChild>,
    ig: Set<Seq<char>>,
    ignore_file_name: Seq<char>,
) -> Set<Seq<char>>
    decreases s,
{
    if s.len() == 0 {
        Set::empty()
    } else {
        let hs = entries_hashes(s.drop_last(), ig, ignore_file_name);
        if ig.contains(s.last().name@) {
            hs
        } else {
            hs.union(child_hashes(s.last().node, ignore_file_name))
        }
    }
}

/// Loads the ignore set of one directory from its own children.
fn load_dir_ignore(entries: &Vec<FsChild>, ignore_file_name: &String) -> (r: IgnoreSet)
    ensures
        r@ == dir_ignore(entries@, ignore_file_name@),
{
    match find_child(entries, ignore_file_name) {
        Some(FsNode::File(c)) => match decode_utf8(c) {
            Some(text) => read_ignore_file(text.as_str()),
            None => IgnoreSet::empty(),
        },
        _ => IgnoreSet::empty(),
    }
}

/// Walks a directory tree, stores every effective file's content, and
/// builds a fresh snapshot: each child of each directory that its own
/// ignore file does not exclude appears under its name, files as their
/// content hash and subdirectories as nested snapshots.  The store
/// keeps everything it had and gains exactly the hashes of the
/// effective files of the tree.
pub fn traverse(tree: &FsTree, details: &ConfigDetails, store: &mut ContentStore) -> (snap:
    Snapshot)
    requires
        old(store).wf(),
    ensures
        snap@ == build_tree_model(*tree, details.ignore_file_name@),
        final(store).wf(),
        forall|h: Seq<char>|
            old(store)@.dom().contains(h) ==> final(store)@.dom().contains(h) && final(store)@[h]
                == old(store)@[h],
        final(store)@.dom() == old(store)@.dom().union(
            tree_hashes(*tree, details.ignore_file_name@),
        ),
    decreases *tree,
{
    let ghost ig_name = details.ignore_file_name@;
    let ghost ig = dir_ignore(tree.entries@, ig_name);
    let ignore_list = load_dir_ignore(&tree.entries, &details.ignore_file_name);
    let mut result: Vec<SnapEntry> = Vec::new();
    let n = tree.entries.len();
    proof {
        assert(tree.entries@.subrange(0, 0) =~= Seq::<FsChild>::empty());
    }
    for i in 0..n
        invariant
            n == tree.entries@.len(),
            ignore_list@ == ig,
            ig == dir_ignore(tree.entries@, ig_name),
            ig_name == details.ignore_file_name@,
            store.wf(),
            old(store).wf(),
            snap_entries_model(result@) == build_entries_model(
                tree.entries@.subrange(0, i as int),
                ig,
                ig_name,
            ),
            forall|h: Seq<char>|
                old(store)@.dom().contains(h) ==> store@.dom().contains(h) && store@[h] == old(
                    store,
                )@[h],
            store@.dom() == old(store)@.dom().union(
                entries_hashes(tree.entries@.subrange(0, i as int), ig, ig_name),
            ),
        decreases n - i,
    {
        let child = &tree.entries[i];
        let ghost pre = tree.entries@.subrange(0, i as int + 1);
        let ghost prev_entries = tree.entries@.subrange(0, i as int);
        let ghost prev_model = snap_entries_model(result@);
        let ghost prev_dom = store@.dom();
        let ghost prev_result = result@;
        proof {
            assert(pre.drop_last() =~= prev_entries);
            assert(pre.last() == tree.entries@[i as int]);
        }
        if is_ignored(child.name.as_str(), &ignore_list) {
            proof {
                assert(build_entries_model(pre, ig, ig_name) == prev_model);
                assert(entries_hashes(pre, ig, ig_name) == entries_hashes(
                    prev_entries,
                    ig,
                    ig_name,
                ));
            }
        } else {
            match &child.node {
                FsNode::File(content) => {
                    let h = store.put(content);
                    result.push(
                        SnapEntry { name: child.name.clone(), entry: Entry::File(h) },
                    );
                    proof {
                        assert(result@.drop_last() =~= prev_result);
                        assert(snap_entries_model(result@) == prev_model.insert(
                            child.name@,
                            EntryModel::File(spec_content_hash(content@)),
                        ));
                        assert(build_child_model(child.node, ig_name) == EntryModel::File(
                            spec_content_hash(content@),
                        ));
                        assert(child_hashes(child.node, ig_name) == Set::empty().insert(
                            spec_content_hash(content@),
                        ));
                        assert(store@.dom() =~= prev_dom.union(
                            child_hashes(child.node, ig_name),
                        ));
                        assert(store@.dom() =~= old(store)@.dom().union(
                            entries_hashes(pre, ig, ig_name),
                        ));
                    }
                },
                FsNode::Dir(sub) => {
                    proof {
                        let ghost c = tree.entries@[i as int];
                        assert(decreases_to!(tree.entries => tree.entries@));
                        assert(decreases_to!(tree.entries@ => c));
                        assert(decreases_to!(c.node => *sub));
                    }
                    let subsnap = traverse(sub, details, store);
                    result.push(
                        SnapEntry {
                            name: child.name.clone(),
                            entry: Entry::Directory(subsnap),
                        },
                    );
                    proof {
                        assert(result@.drop_last() =~= prev_result);
                        assert(entry_model(result@.last().entry) == EntryModel::Directory(
                            build_tree_model(*sub, ig_name),
                        ));
                        assert(build_child_model(child.node, ig_name) == EntryModel::Directory(
                            build_tree_model(*sub, ig_name),
                        ));
                        assert(child_hashes(child.node, ig_name) == tree_hashes(*sub, ig_name));
                        assert(store@.dom() =~= old(store)@.dom().union(
                            entries_hashes(pre, ig, ig_name),
                        ));
                    }
                },
            }
        }
    }
    proof {
        assert(tree.entries@.subrange(0, n as int) =~= tree.entries@);
    }
    Snapshot { entries: result }
}

/// The entry the previous snapshot recorded under `name`, if a
/// previous snapshot is given and has the name.
fn previous_entry<'a>(previous: Option<&'a Snapshot>, name: &String) -> (r: Option<&'a Entry>)
    ensures
        previous is None ==> r is None,
        previous is Some ==> (r is Some <==> snap_find(previous->Some_0.entries@, name@) is Some),
        previous is Some && r is Some ==> *r->Some_0 == snap_find(
            previous->Some_0.entries@,
            name@,
        )->Some_0,
{
    match previous {
        None => None,
        Some(p) => p.get(name),
    }
}

/// Reconciles a previous snapshot against the current tree.  Where
/// both the previous snapshot and the tree have a directory under a
/// name, the walk recurses with the previous nested snapshot; a new
/// name, a type change, or a missing previous snapshot rebuilds that
/// subtree fresh.  Every live file is rehashed and stored either way,
/// so the result equals a fresh build of the current tree: names gone
/// from the tree are dropped, and no residue of replaced entries
/// remains.
pub fn traverse_and_update(
    previous: Option<&Snapshot>,
    tree: &FsTree,
    details: &ConfigDetails,
    store: &mut ContentStore,
) -> (snap: Snapshot)
    requires
        old(store).wf(),
    ensures
        snap@ == build_tree_model(*tree, details.ignore_file_name@),
        final(store).wf(),
        forall|h: Seq<char>|
            old(store)@.dom().contains(h) ==> final(store)@.dom().contains(h) && final(store)@[h]
                == old(store)@[h],
        final(store)@.dom() == old(store)@.dom().union(
            tree_hashes(*tree, details.ignore_file_name@),
        ),
    decreases *tree,
{
    let ghost ig_name = details.ignore_file_name@;
    let ghost ig = dir_ignore(tree.entries@, ig_name);
    let ignore_list = load_dir_ignore(&tree.entries, &details.ignore_file_name);
    let mut result: Vec<SnapEntry> = Vec::new();
    let n = tree.entries.len();
    proof {
        assert(tree.entries@.subrange(0, 0) =~= Seq::<FsChild>::empty());
    }
    for i in 0..n
        invariant
            n == tree.entries@.len(),
            ignore_list@ == ig,
            ig == dir_ignore(tree.entries@, ig_name),
            ig_name == details.ignore_file_name@,
            store.wf(),
            old(store).wf(),
            snap_entries_model(result@) == build_entries_model(
                tree.entries@.subrange(0, i as int),
                ig,
                ig_name,
            ),
            forall|h: Seq<char>|
                old(store)@.dom().contains(h) ==> store@.dom().contains(h) && store@[h] == old(
                    store,
                )@[h],
            store@.dom() == old(store)@.dom().union(
                entries_hashes(tree.entries@.subrange(0, i as int), ig, ig_name),
            ),
        decreases n - i,
    {
        let child = &tree.entries[i];
        let ghost pre = tree.entries@.subrange(0, i as int + 1);
        let ghost prev_entries = tree.entries@.subrange(0, i as int);
        let ghost prev_model = snap_entries_model(result@);
        let ghost prev_dom = store@.dom();
        let ghost prev_result = result@;
        proof {
            assert(pre.drop_last() =~= prev_entries);
            assert(pre.last() == tree.entries@[i as int]);
        }
        if is_ignored(child.name.as_str(), &ignore_list) {
            proof {
                assert(build_entries_model(pre, ig, ig_name) == prev_model);
                assert(entries_hashes(pre, ig, ig_name) == entries_hashes(
                    prev_entries,
                    ig,
                    ig_name,
                ));
            }
        } else {
            match &child.node {
                FsNode::File(content) => {
                    let h = store.put(content);
                    result.push(
                        SnapEntry { name: child.name.clone(), entry: Entry::File(h) },
                    );
                    proof {
                        assert(result@.drop_last() =~= prev_result);
                        assert(snap_entries_model(result@) == prev_model.insert(
                            child.name@,
                            EntryModel::File(spec_content_hash(content@)),
                        ));
                        assert(build_child_model(child.node, ig_name) == EntryModel::File(
                            spec_content_hash(content@),
                        ));
                        assert(child_hashes(child.node, ig_name) == Set::empty().insert(
                            spec_content_hash(content@),
                        ));
                        assert(store@.dom() =~= prev_dom.union(
                            child_hashes(child.node, ig_name),
                        ));
                        assert(store@.dom() =~= old(store)@.dom().union(
                            entries_hashes(pre, ig, ig_name),
                        ));
                    }
                },
                FsNode::Dir(sub) => {
                    proof {
                        let ghost c = tree.entries@[i as int];
                        assert(decreases_to!(tree.entries => tree.entries@));
                        assert(decreases_to!(tree.entries@ => c));
                        assert(decreases_to!(c.node => *sub));
                    }
                    let prev_child = previous_entry(previous, &child.name);
                    let subsnap = match prev_child {
                        Some(Entry::Directory(prev_sub)) => traverse_and_update(
                            Some(prev_sub),
                            sub,
                            details,
                            store,
                        ),
                        _ => traverse(sub, details, store),
                    };
                    result.push(
                        SnapEntry {
                            name: child.name.clone(),
                            entry: Entry::Directory(subsnap),
                        },
                    );
                    proof {
                        assert(result@.drop_last() =~= prev_result);
                        assert(entry_model(result@.last().entry) == EntryModel::Directory(
                            build_tree_model(*sub, ig_name),
                        ));
                        assert(build_child_model(child.node, ig_name) == EntryModel::Directory(
                            build_tree_model(*sub, ig_name),
                        ));
                        assert(child_hashes(child.node, ig_name) == tree_hashes(*sub, ig_name));
                        assert(store@.dom() =~= old(store)@.dom().union(
                            entries_hashes(pre, ig, ig_name),
                        ));
                    }
                },
            }
        }
    }
    proof {
        assert(tree.entries@.subrange(0, n as int) =~= tree.entries@);
    }
    Snapshot { entries: result }
}

/// Builds a fresh snapshot of the working directory with an empty
/// store, returning the snapshot and the store holding exactly the
/// blobs of the tree's effective files.
pub fn build_snapshot(working_directory: &FsTree, details: &ConfigDetails) -> (r: (
    Snapshot,
    ContentStore,
))
    ensures
        r.0@ == build_tree_model(*working_directory, details.ignore_file_name@),
        r.1.wf(),
        r.1@.dom() == tree_hashes(*working_directory, details.ignore_file_name@),
{
    let mut store = ContentStore::new();
    let snap = traverse(working_directory, details, &mut store);
    proof {
        assert(Map::<Seq<char>, Seq<u8>>::empty().dom() =~= Set::<Seq<char>>::empty());
        assert(store@.dom() =~= tree_hashes(*working_directory, details.ignore_file_name@));
    }
    (snap, store)
}

/// Reconciles an optional previous snapshot against the working
/// directory with an empty store.  With no previous snapshot this is
/// exactly a fresh build; with one, unchanged directory structure is
/// walked in parallel, and the result is the same snapshot a fresh
/// build yields.
pub fn reconcile_snapshot(
    previous: Option<&Snapshot>,
    working_directory: &FsTree,
    details: &ConfigDetails,
) -> (r: (Snapshot, ContentStore))
    ensures
        r.0@ == build_tree_model(*working_directory, details.ignore_file_name@),
        r.1.wf(),
        r.1@.dom() == tree_hashes(*working_directory, details.ignore_file_name@),
{
    let mut store = ContentStore::new();
    let snap = traverse_and_update(previous, working_directory, details, &mut store);
    proof {
        assert(Map::<Seq<char>, Seq<u8>>::empty().dom() =~= Set::<Seq<char>>::empty());
        assert(store@.dom() =~= tree_hashes(*working_directory, details.ignore_file_name@));
    }
    (snap, store)
}

/// Whether an entry value mentions the hash `h`, at any depth.
pub open spec fn model_mentions(e: EntryModel, h: Seq<char>) -> bool
    decreases e,
{
    match e {
        EntryModel::File(x) => x == h,
        EntryModel::Directory(m) => exists|n: Seq<char>|
            #[trigger] m.dom().contains(n) && model_mentions(m[n], h),
    }
}

proof fn lemma_find_node_is_element(s: Seq<FsChild>, name: Seq<char>)
    requires
        find_node(s, name) is Some,
    ensures
        exists|i: int|
            0 <= i < s.len() && (#[trigger] s[i]).node == find_node(s, name)->Some_0,
    decreases s.len(),
{
    if s.last().name@ == name {
        assert(s[s.len() - 1].node == find_node(s, name)->Some_0);
    } else {
        lemma_find_node_is_element(s.drop_last(), name);
        let i = choose|i: int|
            0 <= i < s.drop_last().len() && (#[trigger] s.drop_last()[i]).node == find_node(
                s.drop_last(),
                name,
            )->Some_0;
        assert(s[i].node == find_node(s, name)->Some_0);
    }
}

proof fn lemma_child_hashes_sub_entries(
    s: Seq<FsChild>,
    ig: Set<Seq<char>>,
    ig_name: Seq<char>,
    name: Seq<char>,
    h: Seq<char>,
)
    requires
        find_node(s, name) is Some,
        !ig.contains(name),
        child_hashes(find_node(s, name)->Some_0, ig_name).contains(h),
    ensures
        entries_hashes(s, ig, ig_name).contains(h),
    decreases s.len(),
{
    if s.last().name@ == name {
    } else {
        lemma_child_hashes_sub_entries(s.drop_last(), ig, ig_name, name, h);
    }
}

/// No dangling reference: every hash a built snapshot mentions, at
/// any depth, is among the tree's hashes — which are exactly what the
/// store's domain gains during the build, so every referenced blob is
/// stored.
pub proof fn lemma_mentioned_hash_is_stored(n: FsNode, ignore_file_name: Seq<char>, h: Seq<char>)
    requires
        model_mentions(build_child_model(n, ignore_file_name), h),
    ensures
        child_hashes(n, ignore_file_name).contains(h),
    decreases n,
{
    match n {
        FsNode::File(_) => {
        },
        FsNode::Dir(t) => {
            let ig = dir_ignore(t.entries@, ignore_file_name);
            let m = build_tree_model(t, ignore_file_name);
            let name = choose|name: Seq<char>|
                #[trigger] m.dom().contains(name) && model_mentions(m[name], h);
            lemma_build_entries_at(t.entries@, ig, ignore_file_name, name);
            let found = find_node(t.entries@, name)->Some_0;
            lemma_find_node_is_element(t.entries@, name);
            let i = choose|i: int|
                0 <= i < t.entries@.len() && (#[trigger] t.entries@[i]).node == found;
            assert(decreases_to!(t.entries => t.entries@));
            assert(decreases_to!(t.entries@ => t.entries@[i]));
            lemma_mentioned_hash_is_stored(found, ignore_file_name, h);
            lemma_child_hashes_sub_entries(t.entries@, ig, ignore_file_name, name, h);
        },
    }
}

proof fn lemma_entries_hashes_mentioned(
    s: Seq<FsChild>,
    ig: Set<Seq<char>>,
    ig_name: Seq<char>,
    h: Seq<char>,
)
    requires
        crate::fs_tree::entries_wf(s),
        entries_hashes(s, ig, ig_name).contains(h),
    ensures
        exists|name: Seq<char>|
            #[trigger] build_entries_model(s, ig, ig_name).dom().contains(name)
                && model_mentions(build_entries_model(s, ig, ig_name)[name], h),
    decreases s,
{
    let m = build_entries_model(s, ig, ig_name);
    let m_prev = build_entries_model(s.drop_last(), ig, ig_name);
    if ig.contains(s.last().name@) {
        lemma_entries_hashes_mentioned(s.drop_last(), ig, ig_name, h);
    } else if child_hashes(s.last().node, ig_name).contains(h) {
        assert(decreases_to!(s => s[s.len() - 1]));
        lemma_child_hashes_mentioned(s.last().node, ig_name, h);
        assert(m.dom().contains(s.last().name@) && model_mentions(m[s.last().name@], h));
    } else {
        lemma_entries_hashes_mentioned(s.drop_last(), ig, ig_name, h);
        let name = choose|name: Seq<char>|
            #[trigger] m_prev.dom().contains(name) && model_mentions(m_prev[name], h);
        lemma_build_entries_dom(s.drop_last(), ig, ig_name);
        assert(name != s.last().name@);
        assert(m.dom().contains(name) && model_mentions(m[name], h));
    }
}

proof fn lemma_child_hashes_mentioned(n: FsNode, ig_name: Seq<char>, h: Seq<char>)
    requires
        crate::fs_tree::child_wf(n),
        child_hashes(n, ig_name).contains(h),
    ensures
        model_mentions(build_child_model(n, ig_name), h),
    decreases n,
{
    match n {
        FsNode::File(c) => {
            assert(h == spec_content_hash(c@));
            assert(model_mentions(EntryModel::File(spec_content_hash(c@)), h));
        },
        FsNode::Dir(t) => {
            let ig = dir_ignore(t.entries@, ig_name);
            lemma_entries_hashes_mentioned(t.entries@, ig, ig_name, h);
            let m = build_entries_model(t.entries@, ig, ig_name);
            let name = choose|name: Seq<char>|
                #[trigger] m.dom().contains(name) && model_mentions(m[name], h);
            assert(build_tree_model(t, ig_name) == m);
            assert(EntryModel::Directory(m)->Directory_0 == m);
            assert(EntryModel::Directory(m)->Directory_0.dom().contains(name) && model_mentions(
                EntryModel::Directory(m)->Directory_0[name],
                h,
            ));
            assert(model_mentions(EntryModel::Directory(m), h));
        },
    }
}

/// No orphan blob: for a well-formed tree — each directory listing
/// each name once, as a real filesystem does — every hash a fresh
/// build stores is mentioned somewhere in the snapshot it returns.
/// Together with `lemma_mentioned_hash_is_stored`, the store's domain
/// after a build is exactly the set of hashes the snapshot mentions.
pub proof fn lemma_stored_hash_is_mentioned(t: FsTree, ignore_file_name: Seq<char>, h: Seq<char>)
    requires
        crate::fs_tree::tree_wf(t),
        tree_hashes(t, ignore_file_name).contains(h),
    ensures
        exists|name: Seq<char>|
            #[trigger] build_tree_model(t, ignore_file_name).dom().contains(name)
                && model_mentions(build_tree_model(t, ignore_file_name)[name], h),
{
    let ig = dir_ignore(t.entries@, ignore_file_name);
    lemma_entries_hashes_mentioned(t.entries@, ig, ignore_file_name, h);
    let m = build_entries_model(t.entries@, ig, ignore_file_name);
    let name = choose|name: Seq<char>|
        #[trigger] m.dom().contains(name) && model_mentions(m[name], h);
    assert(build_tree_model(t, ignore_file_name) == m);
    assert(build_tree_model(t, ignore_file_name).dom().contains(name) && model_mentions(
        build_tree_model(t, ignore_file_name)[name],
        h,
    ));
}

proof fn lemma_build_entries_dom(s: Seq<FsChild>, ig: Set<Seq<char>>, ig_name: Seq<char>)
    ensures
        build_entries_model(s, ig, ig_name).dom() == entry_names(s).difference(ig),
    decreases s.len(),
{
    if s.len() == 0 {
        assert(build_entries_model(s, ig, ig_name).dom() =~= entry_names(s).difference(ig));
    } else {
        lemma_build_entries_dom(s.drop_last(), ig, ig_name);
        assert(build_entries_model(s, ig, ig_name).dom() =~= entry_names(s).difference(ig));
    }
}

proof fn lemma_build_entries_at(
    s: Seq<FsChild>,
    ig: Set<Seq<char>>,
    ig_name: Seq<char>,
    name: Seq<char>,
)
    requires
        build_entries_model(s, ig, ig_name).dom().contains(name),
    ensures
        find_node(s, name) is Some,
        !ig.contains(name),
        build_entries_model(s, ig, ig_name)[name] == build_child_model(
            find_node(s, name)->Some_0,
            ig_name,
        ),
    decreases s.len(),
{
    lemma_build_entries_dom(s, ig, ig_name);
    crate::fs_tree::lemma_entry_names_iff_found(s, name);
    if s.len() > 0 {
        if !ig.contains(s.last().name@) && s.last().name@ == name {
        } else {
            lemma_build_entries_dom(s.drop_last(), ig, ig_name);
            lemma_build_entries_at(s.drop_last(), ig, ig_name, name);
        }
    }
}

/// Idempotence: the snapshot a build yields is a function of the tree
/// and the ignore-file name alone, so two builds of an unchanged
/// directory yield structurally identical snapshots — same shape,
/// same hashes.  This is the determinism that the `ensures` of
/// `traverse` and `traverse_and_update` pin down.
pub proof fn lemma_build_idempotent(
    t: FsTree,
    ignore_file_name: Seq<char>,
    first: Map<Seq<char>, EntryModel>,
    second: Map<Seq<char>, EntryModel>,
)
    requires
        first == build_tree_model(t, ignore_file_name),
        second == build_tree_model(t, ignore_file_name),
    ensures
        first == second,
{
}

/// Ignore respected: a name that the directory's own ignore file
/// excludes never appears as a key of the snapshot built for that
/// directory — and since reconciliation yields exactly the fresh
/// build, never as a key of a reconciled snapshot either.
pub proof fn lemma_ignored_name_absent(t: FsTree, ignore_file_name: Seq<char>, name: Seq<char>)
    requires
        dir_ignore(t.entries@, ignore_file_name).contains(name),
    ensures
        !build_tree_model(t, ignore_file_name).dom().contains(name),
{
    lemma_build_entries_dom(
        t.entries@,
        dir_ignore(t.entries@, ignore_file_name),
        ignore_file_name,
    );
}

/// Deletion: a name absent from the directory's current children —
/// deleted on disk and not re-created — is absent from the snapshot a
/// build or a reconciliation yields, whatever any previous snapshot
/// recorded under it.
pub proof fn lemma_deleted_name_absent(t: FsTree, ignore_file_name: Seq<char>, name: Seq<char>)
    requires
        !entry_names(t.entries@).contains(name),
    ensures
        !build_tree_model(t, ignore_file_name).dom().contains(name),
{
    lemma_build_entries_dom(
        t.entries@,
        dir_ignore(t.entries@, ignore_file_name),
        ignore_file_name,
    );
}

/// Type change, and more generally: what a snapshot records under an
/// effective name is computed from the current child alone — a file
/// yields its content hash, a directory yields exactly the fresh
/// build of that subtree.  No residue of what any previous snapshot
/// held under the name can survive.
pub proof fn lemma_entry_from_current_child(
    t: FsTree,
    ignore_file_name: Seq<char>,
    name: Seq<char>,
)
    requires
        find_node(t.entries@, name) is Some,
        !dir_ignore(t.entries@, ignore_file_name).contains(name),
    ensures
        build_tree_model(t, ignore_file_name).dom().contains(name),
        build_tree_model(t, ignore_file_name)[name] == build_child_model(
            find_node(t.entries@, name)->Some_0,
            ignore_file_name,
        ),
{
    let ig = dir_ignore(t.entries@, ignore_file_name);
    lemma_build_entries_dom(t.entries@, ig, ignore_file_name);
    crate::fs_tree::lemma_entry_names_iff_found(t.entries@, name);
    lemma_build_entries_at(t.entries@, ig, ignore_file_name, name);
}

/// Reconciliation reuse: when the subtree under a directory name is
/// unchanged — the previous snapshot recorded exactly what a fresh
/// build of it yields — the reconciled snapshot records that same
/// value under the name.  The walk still rehashes every file below
/// it: see the store clauses of `traverse_and_update`.
pub proof fn lemma_reconcile_reuses_unchanged(
    t: FsTree,
    ignore_file_name: Seq<char>,
    name: Seq<char>,
    previous_sub: Map<Seq<char>, EntryModel>,
)
    requires
        find_node(t.entries@, name) is Some,
        find_node(t.entries@, name)->Some_0 is Dir,
        !dir_ignore(t.entries@, ignore_file_name).contains(name),
        previous_sub == build_tree_model(find_node(t.entries@, name)->Some_0->Dir_0, ignore_file_name),
    ensures
        build_tree_model(t, ignore_file_name).dom().contains(name),
        build_tree_model(t, ignore_file_name)[name] == EntryModel::Directory(previous_sub),
{
    lemma_entry_from_current_child(t, ignore_file_name, name);
}

} // verus!
