//! Per-directory ignore rules.
//!
//! An ignore file is UTF-8 text, one rule per line.  Blank lines are
//! skipped, lines starting with `#` are comments, and a line `/name`
//! or a bare `name` both exclude the child literally called `name`
//! from the immediate children of the directory the file sits in.

use crate::diff::{lemma_split_by_nonempty, split_by};
use vstd::prelude::*;

verus! {

/// Whether `c` has the Unicode `White_Space` property, the set of
/// characters `str::trim` removes.
pub open spec fn is_space(c: char) -> bool {
    let u = c as u32;
    (9 <= u && u <= 13) || u == 32 || u == 0x85 || u == 0xa0 || u == 0x1680 || (0x2000 <= u && u
        <= 0x200a) || u == 0x2028 || u == 0x2029 || u == 0x202f || u == 0x205f || u == 0x3000
}

/// `l` without its leading whitespace.
pub open spec fn trim_start_spaces(l: Seq<char>) -> Seq<char>
    decreases l.len(),
{
    if l.len() > 0 && is_space(l.first()) {
        trim_start_spaces(l.drop_first())
    } else {
        l
    }
}

/// `l` without its trailing whitespace.
pub open spec fn trim_end_spaces(l: Seq<char>) -> Seq<char>
    decreases l.len(),
{
    if l.len() > 0 && is_space(l.last()) {
        trim_end_spaces(l.drop_last())
    } else {
        l
    }
}

/// `l` without leading and trailing whitespace, as `str::trim` gives it.
pub open spec fn trim_spaces(l: Seq<char>) -> Seq<char> {
    trim_end_spaces(trim_start_spaces(l))
}

/// `l` without one trailing carriage return, if it has one.
pub open spec fn strip_cr(l: Seq<char>) -> Seq<char> {
    if l.len() > 0 && l.last() == '\r' {
        l.drop_last()
    } else {
        l
    }
}

/// The lines of a text, as `str::lines` yields them: split at every
/// line feed, one carriage return stripped before each line feed, and
/// no empty line for a trailing line feed.
pub open spec fn str_lines(t: Seq<char>) -> Seq<Seq<char>> {
    let ps = split_by(t, '\n');
    let body = ps.drop_last().map_values(|l: Seq<char>| strip_cr(l));
    if ps.last().len() == 0 {
        body
    } else {
        body.push(ps.last())
    }
}

/// The name one ignore-file line excludes, if any: none for a blank
/// line or a `#` comment; the rest of the line after a leading `/`;
/// otherwise the trimmed line itself.
pub open spec fn line_name(l: Seq<char>) -> Option<Seq<char>> {
    if trim_spaces(l).len() == 0 {
        None
    } else if l.len() > 1 && l.first() == '/' {
        Some(l.drop_first())
    } else if l.first() == '#' {
        None
    } else {
        Some(trim_spaces(l))
    }
}

/// The names excluded by a sequence of lines.
pub open spec fn lines_names(ls: Seq<Seq<char>>) -> Set<Seq<char>>
    decreases ls.len(),
{
    if ls.len() == 0 {
        Set::empty()
    } else {
        match line_name(ls.last()) {
            Some(n) => lines_names(ls.drop_last()).insert(n),
            None => lines_names(ls.drop_last()),
        }
    }
}

/// The names excluded by an ignore file with text `t`.
pub open spec fn ignore_names(t: Seq<char>) -> Set<Seq<char>> {
    lines_names(str_lines(t))
}

/// The set of views of the elements of a sequence of name vectors.
pub open spec fn names_set(s: Seq<Vec<char>>) -> Set<Seq<char>> {
    Set::new(|n: Seq<char>| exists|i: int| 0 <= i < s.len() && s[i]@ == n)
}

proof fn lemma_names_set_push(s: Seq<Vec<char>>, x: Vec<char>)
    ensures
        names_set(s.push(x)) == names_set(s).insert(x@),
{
    assert forall|n: Seq<char>| names_set(s.push(x)).contains(n) implies names_set(
        s,
    ).insert(x@).contains(n) by {
        let i = choose|i: int| 0 <= i < s.push(x).len() && s.push(x)[i]@ == n;
        if i < s.len() {
            assert(s[i]@ == n);
        } else {
            assert(x@ == n);
        }
    }
    assert forall|n: Seq<char>| names_set(s).insert(x@).contains(n) implies names_set(
        s.push(x),
    ).contains(n) by {
        if names_set(s).contains(n) {
            let i = choose|i: int| 0 <= i < s.len() && s[i]@ == n;
            assert(s.push(x)[i]@ == n);
        } else {
            assert(s.push(x)[s.len() as int]@ == n);
        }
    }
    assert(names_set(s.push(x)) =~= names_set(s).insert(x@));
}

/// The set of child names one directory's ignore file excludes.
pub struct IgnoreSet {
    names: Vec<Vec<char>>,
}

impl View for IgnoreSet {
    type V = Set<Seq<char>>;

    closed spec fn view(&self) -> Set<Seq<char>> {
        names_set(self.names@)
    }
}

impl IgnoreSet {
    /// The ignore set of a directory without an ignore file.
    pub fn empty() -> (r: IgnoreSet)
        ensures
            r@ == Set::<Seq<char>>::empty(),
    {
        let r = IgnoreSet { names: Vec::new() };
        proof {
            assert(r@ =~= Set::<Seq<char>>::empty());
        }
        r
    }
}

/// The characters of a string slice.
pub fn chars_of_str(s: &str) -> (r: Vec<char>)
    ensures
        r@ == s@,
{
    let n = s.unicode_len();
    let mut r: Vec<char> = Vec::new();
    for i in 0..n
        invariant
            n == s@.len(),
            r@ =~= s@.subrange(0, i as int),
        decreases n - i,
    {
        r.push(s.get_char(i));
    }
    proof {
        assert(r@ =~= s@);
    }
    r
}

/// Whether two character vectors hold the same characters.
pub fn chars_eq(a: &Vec<char>, b: &Vec<char>) -> (r: bool)
    ensures
        r == (a@ == b@),
{
    if a.len() != b.len() {
        return false;
    }
    let n = a.len();
    for i in 0..n
        invariant
            n == a@.len(),
            a@.len() == b@.len(),
            forall|j: int| 0 <= j < i ==> a@[j] == b@[j],
        decreases n - i,
    {
        if a[i] != b[i] {
            return false;
        }
    }
    proof {
        assert(a@ =~= b@);
    }
    true
}

/// Whether `c` is whitespace in the sense of `str::trim`.
fn is_space_char(c: char) -> (b: bool)
    ensures
        b == is_space(c),
{
    let u = c as u32;
    (9 <= u && u <= 13) || u == 32 || u == 0x85 || u == 0xa0 || u == 0x1680 || (0x2000 <= u && u
        <= 0x200a) || u == 0x2028 || u == 0x2029 || u == 0x202f || u == 0x205f || u == 0x3000
}

/// The characters of `l` from `a` (inclusive) to `b` (exclusive).
fn chars_subrange(l: &Vec<char>, a: usize, b: usize) -> (r: Vec<char>)
    requires
        a <= b <= l@.len(),
    ensures
        r@ == l@.subrange(a as int, b as int),
{
    let mut r: Vec<char> = Vec::new();
    let mut i = a;
    while i < b
        invariant
            a <= i <= b <= l@.len(),
            r@ =~= l@.subrange(a as int, i as int),
        decreases b - i,
    {
        r.push(l[i]);
        i = i + 1;
    }
    r
}

/// `l` without leading and trailing whitespace.
fn trim_line(l: &Vec<char>) -> (r: Vec<char>)
    ensures
        r@ == trim_spaces(l@),
{
    let mut a: usize = 0;
    proof {
        assert(l@.skip(0) == l@);
    }
    while a < l.len() && is_space_char(l[a])
        invariant
            a <= l@.len(),
            trim_start_spaces(l@) == trim_start_spaces(l@.skip(a as int)),
        decreases l@.len() - a,
    {
        proof {
            assert(l@.skip(a as int).first() == l@[a as int]);
            assert(l@.skip(a as int).drop_first() =~= l@.skip(a as int + 1));
        }
        a = a + 1;
    }
    proof {
        assert(trim_start_spaces(l@) == l@.skip(a as int));
    }
    let mut b: usize = l.len();
    proof {
        assert(l@.skip(a as int) =~= l@.subrange(a as int, l@.len() as int));
    }
    while b > a && is_space_char(l[b - 1])
        invariant
            a <= b <= l@.len(),
            trim_end_spaces(l@.skip(a as int)) == trim_end_spaces(
                l@.subrange(a as int, b as int),
            ),
        decreases b,
    {
        proof {
            assert(l@.subrange(a as int, b as int).last() == l@[b as int - 1]);
            assert(l@.subrange(a as int, b as int).drop_last() =~= l@.subrange(
                a as int,
                b as int - 1,
            ));
        }
        b = b - 1;
    }
    proof {
        assert(trim_end_spaces(l@.skip(a as int)) == l@.subrange(a as int, b as int));
    }
    chars_subrange(l, a, b)
}

/// Splits text into its pieces at every line feed.
fn split_text_pieces(cs: &Vec<char>) -> (r: Vec<Vec<char>>)
    ensures
        r@.map_values(|l: Vec<char>| l@) == split_by(cs@, '\n'),
        r@.len() >= 1,
{
    let ghost all = split_by(cs@, '\n');
    let mut pieces: Vec<Vec<char>> = Vec::new();
    let mut cur: Vec<char> = Vec::new();
    proof {
        lemma_split_by_nonempty(cs@, '\n');
        assert(cs@.skip(0) == cs@);
    }
    let n = cs.len();
    for i in 0..n
        invariant
            n == cs@.len(),
            split_by(cs@.skip(i as int), '\n').len() >= 1,
            all =~= pieces@.map_values(|l: Vec<char>| l@) + seq![
                cur@ + split_by(cs@.skip(i as int), '\n').first(),
            ] + split_by(cs@.skip(i as int), '\n').drop_first(),
        decreases n - i,
    {
        let ghost rest = cs@.skip(i as int);
        let ghost tail = split_by(cs@.skip(i as int + 1), '\n');
        let ghost prev = pieces@.map_values(|l: Vec<char>| l@);
        let ghost curv = cur@;
        proof {
            assert(rest.first() == cs@[i as int]);
            assert(rest.drop_first() =~= cs@.skip(i as int + 1));
            lemma_split_by_nonempty(cs@.skip(i as int + 1), '\n');
            assert(tail =~= seq![tail.first()] + tail.drop_first());
        }
        if cs[i] == '\n' {
            pieces.push(cur);
            cur = Vec::new();
            proof {
                assert(split_by(rest, '\n') == seq![Seq::<char>::empty()] + tail);
                assert(split_by(rest, '\n').first() =~= Seq::<char>::empty());
                assert(split_by(rest, '\n').drop_first() =~= tail);
                assert(curv + split_by(rest, '\n').first() =~= curv);
                assert(cur@ + tail.first() =~= tail.first());
                assert(pieces@.map_values(|l: Vec<char>| l@) =~= prev.push(curv));
                assert(prev + seq![curv] + tail =~= prev.push(curv) + seq![tail.first()]
                    + tail.drop_first());
                assert(all =~= pieces@.map_values(|l: Vec<char>| l@) + seq![cur@ + tail.first()]
                    + tail.drop_first());
            }
        } else {
            cur.push(cs[i]);
            proof {
                let c = cs@[i as int];
                assert(split_by(rest, '\n') == seq![seq![c] + tail.first()] + tail.drop_first());
                assert(split_by(rest, '\n').first() == seq![c] + tail.first());
                assert(split_by(rest, '\n').drop_first() =~= tail.drop_first());
                assert(curv + (seq![c] + tail.first()) =~= cur@ + tail.first());
                assert(all =~= pieces@.map_values(|l: Vec<char>| l@) + seq![cur@ + tail.first()]
                    + tail.drop_first());
            }
        }
    }
    let ghost prev = pieces@.map_values(|l: Vec<char>| l@);
    let ghost curv = cur@;
    proof {
        assert(cs@.skip(n as int) =~= Seq::<char>::empty());
        assert(split_by(cs@.skip(n as int), '\n') == seq![Seq::<char>::empty()]);
        assert(curv + Seq::<char>::empty() =~= curv);
        assert(all =~= prev.push(curv));
    }
    pieces.push(cur);
    proof {
        assert(pieces@.map_values(|l: Vec<char>| l@) =~= prev.push(curv));
    }
    pieces
}

/// `l` without one trailing carriage return.
fn strip_cr_line(l: Vec<char>) -> (r: Vec<char>)
    ensures
        r@ == strip_cr(l@),
{
    let mut l = l;
    if l.len() > 0 {
        let last = l[l.len() - 1];
        if last == '\r' {
            let ghost before = l@;
            l.pop();
            proof {
                assert(l@ =~= before.drop_last());
            }
        }
    }
    l
}

/// Parses the text of one directory's ignore file into the set of
/// excluded child names.
pub fn read_ignore_file(contents: &str) -> (r: IgnoreSet)
    ensures
        r@ == ignore_names(contents@),
{
    let cs = chars_of_str(contents);
    let pieces = split_text_pieces(&cs);
    let ghost ps = split_by(cs@, '\n');
    let ghost body = ps.drop_last().map_values(|l: Seq<char>| strip_cr(l));
    let ghost ls = str_lines(contents@);

    // Assemble the lines as `str::lines` would yield them.
    let mut lines: Vec<Vec<char>> = Vec::new();
    let np = pieces.len();
    let mut k: usize = 0;
    while k < np - 1
        invariant
            np == pieces@.len(),
            np >= 1,
            pieces@.map_values(|l: Vec<char>| l@) == ps,
            body == ps.drop_last().map_values(|l: Seq<char>| strip_cr(l)),
            k <= np - 1,
            lines@.map_values(|l: Vec<char>| l@) =~= body.subrange(0, k as int),
        decreases np - 1 - k,
    {
        let ghost prev = lines@.map_values(|l: Vec<char>| l@);
        let piece = clone_chars(&pieces[k]);
        let stripped = strip_cr_line(piece);
        lines.push(stripped);
        proof {
            assert(ps.drop_last()[k as int] == ps[k as int]);
            assert(body[k as int] == strip_cr(ps[k as int]));
            assert(lines@.map_values(|l: Vec<char>| l@) =~= prev.push(strip_cr(ps[k as int])));
            assert(lines@.map_values(|l: Vec<char>| l@) =~= body.subrange(0, k as int + 1));
        }
        k = k + 1;
    }
    proof {
        assert(lines@.map_values(|l: Vec<char>| l@) =~= body);
    }
    if pieces[np - 1].len() > 0 {
        let lastpiece = clone_chars(&pieces[np - 1]);
        let ghost prev = lines@.map_values(|l: Vec<char>| l@);
        lines.push(lastpiece);
        proof {
            assert(ps.last() == ps[np as int - 1]);
            assert(lines@.map_values(|l: Vec<char>| l@) =~= prev.push(ps.last()));
        }
    }
    proof {
        assert(lines@.map_values(|l: Vec<char>| l@) =~= ls);
    }

    // Extract one excluded name from each line that names one.
    let mut names: Vec<Vec<char>> = Vec::new();
    let nl = lines.len();
    proof {
        assert(ls.subrange(0, 0) =~= Seq::<Seq<char>>::empty());
        assert(names_set(names@) =~= lines_names(ls.subrange(0, 0)));
    }
    for k in 0..nl
        invariant
            nl == lines@.len(),
            lines@.map_values(|l: Vec<char>| l@) == ls,
            names_set(names@) == lines_names(ls.subrange(0, k as int)),
        decreases nl - k,
    {
        let ghost prevset = names_set(names@);
        let line = &lines[k];
        let ghost lv = ls[k as int];
        proof {
            assert(lv == line@);
            assert(ls.subrange(0, k as int + 1).drop_last() =~= ls.subrange(0, k as int));
            assert(ls.subrange(0, k as int + 1).last() == lv);
        }
        let trimmed = trim_line(line);
        if trimmed.len() == 0 {
            proof {
                assert(line_name(lv) is None);
            }
        } else if line.len() > 1 && line[0] == '/' {
            let rest = chars_subrange(line, 1, line.len());
            proof {
                assert(rest@ =~= lv.drop_first());
                lemma_names_set_push(names@, rest);
            }
            names.push(rest);
        } else if line[0] == '#' {
            proof {
                assert(line_name(lv) is None);
            }
        } else {
            proof {
                lemma_names_set_push(names@, trimmed);
            }
            names.push(trimmed);
        }
        proof {
            assert(names_set(names@) =~= lines_names(ls.subrange(0, k as int + 1)));
        }
    }
    proof {
        assert(ls.subrange(0, nl as int) =~= ls);
    }
    IgnoreSet { names }
}

/// A copy of a character vector.
pub fn clone_chars(a: &Vec<char>) -> (r: Vec<char>)
    ensures
        r@ == a@,
{
    let mut r: Vec<char> = Vec::new();
    let n = a.len();
    for i in 0..n
        invariant
            n == a@.len(),
            r@ =~= a@.subrange(0, i as int),
        decreases n - i,
    {
        r.push(a[i]);
    }
    proof {
        assert(r@ =~= a@);
    }
    r
}

/// Whether `name` is excluded by the given ignore set: an exact
/// membership test.
pub fn is_ignored(name: &str, ignore_list: &IgnoreSet) -> (b: bool)
    ensures
        b == ignore_list@.contains(name@),
{
    let n = chars_of_str(name);
    let len = ignore_list.names.len();
    for i in 0..len
        invariant
            n@ == name@,
            len == ignore_list.names@.len(),
            forall|j: int| 0 <= j < i ==> ignore_list.names@[j]@ != name@,
        decreases len - i,
    {
        if chars_eq(&ignore_list.names[i], &n) {
            proof {
                assert(ignore_list.names@[i as int]@ == name@);
            }
            return true;
        }
    }
    false
}

} // verus!
