//! A value describing the directory tree to snapshot.
//!
//! Callers list the filesystem into an `FsTree` — every child of a
//! directory with its name, file contents read in full — and the
//! engine works on that value alone.

use vstd::prelude::*;

verus! {

/// One direct child of a directory.
pub struct FsChild {
    pub name: String,
    pub node: FsNode,
}

/// A child is either a file with its raw bytes or a subdirectory.
pub enum FsNode {
    File(Vec<u8>),
    Dir(FsTree),
}

/// The immediate children of one directory.
pub struct FsTree {
    pub entries: Vec<FsChild>,
}

/// The node recorded under `name`, searching later entries first so
/// that with duplicate names the last one wins.
pub open spec fn find_node(s: Seq<FsChild>, name: Seq<char>) -> Option<FsNode>
    decreases s.len(),
{
    if s.len() == 0 {
        None
    } else if s.last().name@ == name {
        Some(s.last().node)
    } else {
        find_node(s.drop_last(), name)
    }
}

/// The set of child names of a directory.
pub open spec fn entry_names(s: Seq<FsChild>) -> Set<Seq<char>>
    decreases s.len(),
{
    if s.len() == 0 {
        Set::empty()
    } else {
        entry_names(s.drop_last()).insert(s.last().name@)
    }
}

/// Whether a directory's children list each name once, at every
/// level.  Trees listed from a real filesystem always are.
pub open spec fn entries_wf(s: Seq<FsChild>) -> bool
    decreases s,
{
    if s.len() == 0 {
        true
    } else {
        &&& entries_wf(s.drop_last())
        &&& !entry_names(s.drop_last()).contains(s.last().name@)
        &&& child_wf(s.last().node)
    }
}

/// Whether one child and everything below it is well-formed.
pub open spec fn child_wf(n: FsNode) -> bool
    decreases n,
{
    match n {
        FsNode::File(_) => true,
        FsNode::Dir(t) => entries_wf(t.entries@),
    }
}

/// Whether every directory of the tree lists each child name once.
pub open spec fn tree_wf(t: FsTree) -> bool {
    entries_wf(t.entries@)
}

pub proof fn lemma_entry_names_iff_found(s: Seq<FsChild>, name: Seq<char>)
    ensures
        entry_names(s).contains(name) <==> find_node(s, name) is Some,
    decreases s.len(),
{
    if s.len() > 0 {
        lemma_entry_names_iff_found(s.drop_last(), name);
    }
}

/// The base names of all direct children of a directory,
/// undifferentiated by kind, in the order they were listed.
pub fn get_current_dir_entities(tree: &FsTree) -> (r: Vec<String>)
    ensures
        r@.len() == tree.entries@.len(),
        forall|i: int| 0 <= i < r@.len() ==> r@[i]@ == tree.entries@[i].name@,
{
    let mut r: Vec<String> = Vec::new();
    let n = tree.entries.len();
    for i in 0..n
        invariant
            n == tree.entries@.len(),
            r@.len() == i,
            forall|j: int| 0 <= j < i ==> r@[j]@ == tree.entries@[j].name@,
        decreases n - i,
    {
        r.push(tree.entries[i].name.clone());
    }
    r
}

/// Looks `name` up among the children, searching later entries first.
pub fn find_child<'a>(entries: &'a Vec<FsChild>, name: &String) -> (r: Option<&'a FsNode>)
    ensures
        r is Some <==> find_node(entries@, name@) is Some,
        r is Some ==> *r->Some_0 == find_node(entries@, name@)->Some_0,
{
    let mut i = entries.len();
    proof {
        assert(entries@.subrange(0, entries@.len() as int) =~= entries@);
    }
    while i > 0
        invariant
            i <= entries@.len(),
            find_node(entries@, name@) == find_node(entries@.subrange(0, i as int), name@),
        decreases i,
    {
        i = i - 1;
        let ghost pre = entries@.subrange(0, i as int + 1);
        proof {
            assert(pre.last() == entries@[i as int]);
            assert(pre.drop_last() =~= entries@.subrange(0, i as int));
        }
        if entries[i].name == *name {
            return Some(&entries[i].node);
        }
    }
    proof {
        assert(entries@.subrange(0, 0) =~= Seq::<FsChild>::empty());
    }
    None
}

/// The characters of a byte content decoded as UTF-8, when the bytes
/// are valid UTF-8.
pub uninterp spec fn utf8_chars(bytes: Seq<u8>) -> Option<Seq<char>>;

/// Relies on String::from_utf8: decodes the bytes as UTF-8, and fails
/// exactly on invalid UTF-8.
#[verifier::external_body]
pub fn decode_utf8(bytes: &Vec<u8>) -> (r: Option<String>)
    ensures
        r is Some <==> utf8_chars(bytes@) is Some,
        r is Some ==> r->Some_0@ == utf8_chars(bytes@)->Some_0,
{
    String::from_utf8(bytes.clone()).ok()
}

} // verus!
