//! Line-level comparison of two byte contents.
//!
//! The comparison is positional, not a minimal-edit diff: matching
//! lines at the same cursor emit `copy` and advance both cursors; any
//! mismatch emits `add` for the new line and advances only the
//! new-content cursor; once the old content is exhausted every
//! remaining new line is an `add`.

use vstd::prelude::*;

verus! {

/// One line of text with its position, as printed by callers.
pub struct Line {
    pub line_number: usize,
    pub content: String,
}

/// Lines added and removed between two versions of a file.
pub struct Diff {
    pub added: Option<Vec<Line>>,
    pub removed: Option<Vec<Line>>,
}

/// One recorded revision: a content hash and the change against the
/// revision before it.
pub struct Version<HashType> {
    pub hash_value: HashType,
    pub diff_from_previous: Diff,
}

/// One token of the comparison output: keep a line of the old content,
/// or add a line of the new content.
#[derive(Debug, PartialEq, Eq)]
pub enum DiffCommand {
    Copy(Vec<u8>),
    Add(Vec<u8>),
}

/// The mathematical value of a `DiffCommand`.
pub enum DiffCommandModel {
    Copy(Seq<u8>),
    Add(Seq<u8>),
}

impl View for DiffCommand {
    type V = DiffCommandModel;

    open spec fn view(&self) -> DiffCommandModel {
        match self {
            DiffCommand::Copy(l) => DiffCommandModel::Copy(l@),
            DiffCommand::Add(l) => DiffCommandModel::Add(l@),
        }
    }
}

/// The views of a sequence of commands.
pub open spec fn cmd_views(s: Seq<DiffCommand>) -> Seq<DiffCommandModel> {
    s.map_values(|c: DiffCommand| c@)
}

/// Splits a sequence at every occurrence of `sep`.  The separator is
/// dropped; the result always has one piece more than there are
/// separators, so it is never empty, and a trailing separator yields a
/// trailing empty piece.
pub open spec fn split_by<T>(s: Seq<T>, sep: T) -> Seq<Seq<T>>
    decreases s.len(),
{
    if s.len() == 0 {
        seq![Seq::empty()]
    } else if s.first() == sep {
        seq![Seq::<T>::empty()] + split_by(s.drop_first(), sep)
    } else {
        let r = split_by(s.drop_first(), sep);
        seq![seq![s.first()] + r.first()] + r.drop_first()
    }
}

pub proof fn lemma_split_by_nonempty<T>(s: Seq<T>, sep: T)
    ensures
        split_by(s, sep).len() >= 1,
    decreases s.len(),
{
    if s.len() > 0 {
        lemma_split_by_nonempty(s.drop_first(), sep);
    }
}

/// The lines of a byte content, split at every line-feed byte.  Empty
/// content is one empty line, and content ending in a line feed has a
/// trailing empty line, exactly as `split` on the byte would give.
pub open spec fn byte_lines(content: Seq<u8>) -> Seq<Seq<u8>> {
    split_by(content, 10u8)
}

/// The comparison of the two line sequences from cursors `oi` and
/// `ni` on.
pub open spec fn spec_compare_from(
    o: Seq<Seq<u8>>,
    n: Seq<Seq<u8>>,
    oi: int,
    ni: int,
) -> Seq<DiffCommandModel>
    decreases n.len() - ni,
{
    if ni < 0 || ni >= n.len() {
        Seq::empty()
    } else if oi >= 0 && oi < o.len() && o[oi] == n[ni] {
        seq![DiffCommandModel::Copy(o[oi])] + spec_compare_from(o, n, oi + 1, ni + 1)
    } else {
        seq![DiffCommandModel::Add(n[ni])] + spec_compare_from(o, n, oi, ni + 1)
    }
}

/// The full comparison of old lines `o` against new lines `n`.
pub open spec fn spec_compare(o: Seq<Seq<u8>>, n: Seq<Seq<u8>>) -> Seq<DiffCommandModel> {
    spec_compare_from(o, n, 0, 0)
}

/// Splits byte content into its lines at every line-feed byte.
pub fn split_content_lines(content: &Vec<u8>) -> (r: Vec<Vec<u8>>)
    ensures
        r@.map_values(|l: Vec<u8>| l@) == byte_lines(content@),
{
    let ghost all = byte_lines(content@);
    let mut pieces: Vec<Vec<u8>> = Vec::new();
    let mut cur: Vec<u8> = Vec::new();
    proof {
        lemma_split_by_nonempty(content@, 10u8);
        assert(content@.skip(0) == content@);
    }
    let n = content.len();
    for i in 0..n
        invariant
            n == content@.len(),
            split_by(content@.skip(i as int), 10u8).len() >= 1,
            all =~= pieces@.map_values(|l: Vec<u8>| l@) + seq![
                cur@ + split_by(content@.skip(i as int), 10u8).first(),
            ] + split_by(content@.skip(i as int), 10u8).drop_first(),
        decreases n - i,
    {
        let ghost rest = content@.skip(i as int);
        let ghost tail = split_by(content@.skip(i as int + 1), 10u8);
        let ghost prev = pieces@.map_values(|l: Vec<u8>| l@);
        let ghost curv = cur@;
        proof {
            assert(rest.first() == content@[i as int]);
            assert(rest.drop_first() =~= content@.skip(i as int + 1));
            lemma_split_by_nonempty(content@.skip(i as int + 1), 10u8);
            assert(tail =~= seq![tail.first()] + tail.drop_first());
        }
        if content[i] == 10u8 {
            pieces.push(cur);
            cur = Vec::new();
            proof {
                assert(split_by(rest, 10u8) == seq![Seq::<u8>::empty()] + tail);
                assert(split_by(rest, 10u8).first() =~= Seq::<u8>::empty());
                assert(split_by(rest, 10u8).drop_first() =~= tail);
                assert(curv + split_by(rest, 10u8).first() =~= curv);
                assert(cur@ + tail.first() =~= tail.first());
                assert(pieces@.map_values(|l: Vec<u8>| l@) =~= prev.push(curv));
                assert(prev + seq![curv] + tail =~= prev.push(curv) + seq![tail.first()]
                    + tail.drop_first());
                assert(all =~= pieces@.map_values(|l: Vec<u8>| l@) + seq![cur@ + tail.first()]
                    + tail.drop_first());
            }
        } else {
            cur.push(content[i]);
            proof {
                let c = content@[i as int];
                assert(split_by(rest, 10u8) == seq![seq![c] + tail.first()] + tail.drop_first());
                assert(split_by(rest, 10u8).first() == seq![c] + tail.first());
                assert(split_by(rest, 10u8).drop_first() =~= tail.drop_first());
                assert(curv + (seq![c] + tail.first()) =~= cur@ + tail.first());
                assert(all =~= pieces@.map_values(|l: Vec<u8>| l@) + seq![cur@ + tail.first()]
                    + tail.drop_first());
            }
        }
    }
    let ghost prev = pieces@.map_values(|l: Vec<u8>| l@);
    let ghost curv = cur@;
    proof {
        assert(content@.skip(n as int) =~= Seq::<u8>::empty());
        assert(split_by(content@.skip(n as int), 10u8) == seq![Seq::<u8>::empty()]);
        assert(curv + Seq::<u8>::empty() =~= curv);
        assert(all =~= prev.push(curv));
    }
    pieces.push(cur);
    proof {
        assert(pieces@.map_values(|l: Vec<u8>| l@) =~= prev.push(curv));
    }
    pieces
}

/// Compares two file contents line by line, emitting `copy` for a
/// line both have at the same position and `add` for every line of
/// the new content that does not match.
pub fn compare_files(original_content: &Vec<u8>, new_content: &Vec<u8>) -> (r: Vec<DiffCommand>)
    ensures
        cmd_views(r@) == spec_compare(byte_lines(original_content@), byte_lines(new_content@)),
{
    let original_lines = split_content_lines(original_content);
    let new_lines = split_content_lines(new_content);
    let ghost o = byte_lines(original_content@);
    let ghost n = byte_lines(new_content@);

    let mut commands: Vec<DiffCommand> = Vec::new();
    let mut original_index: usize = 0;
    let mut new_index: usize = 0;

    while original_index < original_lines.len() && new_index < new_lines.len()
        invariant
            original_lines@.map_values(|l: Vec<u8>| l@) == o,
            new_lines@.map_values(|l: Vec<u8>| l@) == n,
            original_index <= original_lines@.len(),
            new_index <= new_lines@.len(),
            spec_compare(o, n) =~= cmd_views(commands@) + spec_compare_from(
                o,
                n,
                original_index as int,
                new_index as int,
            ),
        decreases new_lines@.len() - new_index,
    {
        if bytes_eq(&original_lines[original_index], &new_lines[new_index]) {
            commands.push(DiffCommand::Copy(clone_bytes(&original_lines[original_index])));
            original_index = original_index + 1;
            new_index = new_index + 1;
        } else {
            commands.push(DiffCommand::Add(clone_bytes(&new_lines[new_index])));
            new_index = new_index + 1;
        }
        proof {
            assert(cmd_views(commands@) =~= cmd_views(commands@.drop_last()).push(
                commands@.last()@,
            ));
        }
    }
    while new_index < new_lines.len()
        invariant
            new_lines@.map_values(|l: Vec<u8>| l@) == n,
            new_index <= new_lines@.len(),
            original_index as int >= o.len() || new_index as int >= n.len(),
            spec_compare(o, n) =~= cmd_views(commands@) + spec_compare_from(
                o,
                n,
                original_index as int,
                new_index as int,
            ),
        decreases new_lines@.len() - new_index,
    {
        commands.push(DiffCommand::Add(clone_bytes(&new_lines[new_index])));
        new_index = new_index + 1;
        proof {
            assert(cmd_views(commands@) =~= cmd_views(commands@.drop_last()).push(
                commands@.last()@,
            ));
        }
    }
    commands
}

/// Whether two byte vectors hold the same bytes.
pub fn bytes_eq(a: &Vec<u8>, b: &Vec<u8>) -> (r: bool)
    ensures
        r == (a@ == b@),
{
    if a.len() != b.len() {
        return false;
    }
    let n = a.len();
    for i in 0..n
        invariant
            n == a@.len(),
            a@.len() == b@.len(),
            forall|j: int| 0 <= j < i ==> a@[j] == b@[j],
        decreases n - i,
    {
        if a[i] != b[i] {
            return false;
        }
    }
    proof {
        assert(a@ =~= b@);
    }
    true
}

/// A copy of a byte vector.
pub fn clone_bytes(a: &Vec<u8>) -> (r: Vec<u8>)
    ensures
        r@ == a@,
{
    let mut r: Vec<u8> = Vec::new();
    let n = a.len();
    for i in 0..n
        invariant
            n == a@.len(),
            r@ =~= a@.subrange(0, i as int),
        decreases n - i,
    {
        r.push(a[i]);
    }
    proof {
        assert(r@ =~= a@);
    }
    r
}

} // verus!
