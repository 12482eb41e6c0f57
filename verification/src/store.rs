//! The content-addressable object store.
//!
//! Each distinct content is kept once, keyed by its hash.  Writing a
//! content whose hash is already present is a no-op, so the store is
//! idempotent and deduplicated by construction.  Blobs are never
//! removed or changed.

use crate::diff::clone_bytes;
use crate::hash::{content_hash, spec_content_hash};
use vstd::prelude::*;

verus! {

/// One stored content with its hash.
pub struct Blob {
    pub hash: String,
    pub content: Vec<u8>,
}

/// The mapping from hash to content that a sequence of blobs holds,
/// later entries winning.
pub open spec fn blobs_map(s: Seq<Blob>) -> Map<Seq<char>, Seq<u8>>
    decreases s.len(),
{
    if s.len() == 0 {
        Map::empty()
    } else {
        blobs_map(s.drop_last()).insert(s.last().hash@, s.last().content@)
    }
}

/// What one write leaves of the store's mapping: untouched when the
/// hash is already present, else extended by the new content under
/// its hash.
pub open spec fn store_put(m: Map<Seq<char>, Seq<u8>>, content: Seq<u8>) -> Map<
    Seq<char>,
    Seq<u8>,
> {
    if m.dom().contains(spec_content_hash(content)) {
        m
    } else {
        m.insert(spec_content_hash(content), content)
    }
}

/// Writing the same content twice leaves the store exactly as one
/// write does: content addressing makes the second write a no-op.
pub proof fn lemma_store_put_idempotent(m: Map<Seq<char>, Seq<u8>>, content: Seq<u8>)
    ensures
        store_put(store_put(m, content), content) == store_put(m, content),
{
}

proof fn lemma_blobs_map_contains(s: Seq<Blob>, h: Seq<char>)
    ensures
        blobs_map(s).dom().contains(h) <==> exists|i: int| 0 <= i < s.len() && s[i].hash@ == h,
    decreases s.len(),
{
    if s.len() > 0 {
        lemma_blobs_map_contains(s.drop_last(), h);
        if s.last().hash@ == h {
            assert(s[s.len() - 1].hash@ == h);
        } else if exists|i: int| 0 <= i < s.len() && s[i].hash@ == h {
            let i = choose|i: int| 0 <= i < s.len() && s[i].hash@ == h;
            assert(s.drop_last()[i] == s[i]);
        }
    }
}

/// A deduplicated store of contents keyed by their hash.
pub struct ContentStore {
    blobs: Vec<Blob>,
}

impl View for ContentStore {
    type V = Map<Seq<char>, Seq<u8>>;

    closed spec fn view(&self) -> Map<Seq<char>, Seq<u8>> {
        blobs_map(self.blobs@)
    }
}

impl ContentStore {
    /// Every blob sits under its own content hash, and no hash is
    /// recorded twice.  `new` establishes this and `put` preserves it.
    pub closed spec fn wf(self) -> bool {
        &&& forall|i: int|
            0 <= i < self.blobs@.len() ==> (#[trigger] self.blobs@[i]).hash@ == spec_content_hash(
                self.blobs@[i].content@,
            )
        &&& forall|i: int, j: int|
            0 <= i < j < self.blobs@.len() ==> (#[trigger] self.blobs@[i]).hash@ != (
            #[trigger] self.blobs@[j]).hash@
    }

    /// An empty store.
    pub fn new() -> (r: ContentStore)
        ensures
            r@ == Map::<Seq<char>, Seq<u8>>::empty(),
            r.wf(),
    {
        ContentStore { blobs: Vec::new() }
    }

    /// Whether a content with this hash is already stored.
    pub fn contains_hash(&self, h: &String) -> (b: bool)
        ensures
            b == self@.dom().contains(h@),
    {
        proof {
            lemma_blobs_map_contains(self.blobs@, h@);
        }
        let n = self.blobs.len();
        for i in 0..n
            invariant
                n == self.blobs@.len(),
                forall|j: int| 0 <= j < i ==> self.blobs@[j].hash@ != h@,
                blobs_map(self.blobs@).dom().contains(h@) <==> exists|k: int|
                    0 <= k < self.blobs@.len() && self.blobs@[k].hash@ == h@,
            decreases n - i,
        {
            if self.blobs[i].hash == *h {
                proof {
                    assert(self.blobs@[i as int].hash@ == h@);
                }
                return true;
            }
        }
        false
    }

    /// Computes the content's hash and stores the bytes under it if no
    /// blob with that hash exists yet; an already present hash is left
    /// alone.  Returns the hash unconditionally.
    pub fn put(&mut self, content: &Vec<u8>) -> (h: String)
        requires
            old(self).wf(),
        ensures
            h@ == spec_content_hash(content@),
            h@.len() == 40,
            final(self)@ == store_put(old(self)@, content@),
            final(self).wf(),
    {
        let h = content_hash(content);
        if self.contains_hash(&h) {
            h
        } else {
            let ghost prev = self.blobs@;
            self.blobs.push(Blob { hash: h.clone(), content: clone_bytes(content) });
            proof {
                assert(self.blobs@.drop_last() =~= prev);
                lemma_blobs_map_contains(prev, h@);
            }
            h
        }
    }

    /// How many distinct contents the store holds.
    pub fn blob_count(&self) -> (n: usize)
        requires
            self.wf(),
        ensures
            n as nat == self@.dom().len(),
    {
        proof {
            lemma_blobs_map_count(self.blobs@);
        }
        self.blobs.len()
    }

    /// One stored blob: its hash and its content.
    pub fn blob_at(&self, i: usize) -> (b: (&String, &Vec<u8>))
        requires
            self.wf(),
            (i as nat) < self@.dom().len(),
        ensures
            self@.dom().contains(b.0@),
            self@[b.0@] == b.1@,
            b.0@ == spec_content_hash(b.1@),
    {
        proof {
            lemma_blobs_map_count(self.blobs@);
            lemma_blobs_map_at(self.blobs@, i as int);
        }
        let b = &self.blobs[i];
        (&b.hash, &b.content)
    }
}

/// The shard folder a blob lives in: the objects folder of the
/// configuration, then a fixed-length leading piece of the hash, to
/// bound the fan-out of the objects folder.
pub fn blob_shard_folder(details: &crate::config::ConfigDetails, hash: &String) -> (r: String)
    requires
        hash@.len() >= 6,
    ensures
        r@ == details.version_control_system_objects_folder@ + "/"@ + hash@.subrange(0, 6),
{
    let mut r = details.version_control_system_objects_folder.clone();
    r.append("/");
    let prefix = hash.as_str().substring_char(0, 6);
    r.append(prefix);
    r
}

/// The path a blob is written to: its shard folder, then the full
/// hash with a `.blob` suffix.
pub fn blob_file_path(details: &crate::config::ConfigDetails, hash: &String) -> (r: String)
    requires
        hash@.len() >= 6,
    ensures
        r@ == details.version_control_system_objects_folder@ + "/"@ + hash@.subrange(0, 6) + "/"@
            + hash@ + ".blob"@,
{
    let mut r = blob_shard_folder(details, hash);
    r.append("/");
    r.append(hash.as_str());
    r.append(".blob");
    r
}

/// Content addressing: every stored content sits under exactly its
/// own hash, so byte-identical contents can only ever occupy one slot.
pub proof fn lemma_store_hashes_consistent(s: &ContentStore)
    requires
        s.wf(),
    ensures
        forall|h: Seq<char>|
            s@.dom().contains(h) ==> spec_content_hash(#[trigger] s@[h]) == h,
{
    assert forall|h: Seq<char>| s@.dom().contains(h) implies spec_content_hash(#[trigger] s@[h])
        == h by {
        lemma_blobs_map_contains(s.blobs@, h);
        let i = choose|i: int| 0 <= i < s.blobs@.len() && s.blobs@[i].hash@ == h;
        lemma_blobs_map_at(s.blobs@, i);
    }
}

proof fn lemma_blobs_map_count(s: Seq<Blob>)
    requires
        forall|i: int, j: int|
            0 <= i < j < s.len() ==> (#[trigger] s[i]).hash@ != (#[trigger] s[j]).hash@,
    ensures
        blobs_map(s).dom().finite(),
        blobs_map(s).dom().len() == s.len(),
    decreases s.len(),
{
    if s.len() > 0 {
        lemma_blobs_map_count(s.drop_last());
        lemma_blobs_map_contains(s.drop_last(), s.last().hash@);
        assert(!blobs_map(s.drop_last()).dom().contains(s.last().hash@));
    }
}

proof fn lemma_blobs_map_at(s: Seq<Blob>, i: int)
    requires
        0 <= i < s.len(),
        forall|p: int, q: int|
            0 <= p < q < s.len() ==> (#[trigger] s[p]).hash@ != (#[trigger] s[q]).hash@,
    ensures
        blobs_map(s).dom().contains(s[i].hash@),
        blobs_map(s)[s[i].hash@] == s[i].content@,
    decreases s.len(),
{
    if i == s.len() - 1 {
        assert(s[i] == s.last());
    } else {
        lemma_blobs_map_at(s.drop_last(), i);
        assert(s.drop_last()[i] == s[i]);
    }
}

} // verus!
