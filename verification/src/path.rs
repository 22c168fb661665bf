//! Paths as the engine compares them: split on either separator, `.` and empty segments dropped,
//! `..` resolved, and segments compared ignoring ASCII case, the way Windows compares them.
use vstd::prelude::*;

use crate::scan::emulator::text::{ascii_lower, char_to_ascii_lower, string_from};

verus! {

/// A path as the user or the backup wrote it.
#[derive(Debug, PartialEq, Eq, PartialOrd, Ord, Hash, Default)]
pub struct StrictPath {
    raw: String,
}

impl View for StrictPath {
    type V = Seq<char>;

    closed spec fn view(&self) -> Seq<char> {
        self.raw@
    }
}

pub open spec fn is_sep(c: char) -> bool {
    c == '/' || c == '\\'
}

/// The pieces between separators, empty ones included.
pub open spec fn split_parts(s: Seq<char>) -> Seq<Seq<char>>
    decreases s.len(),
{
    if s.len() == 0 {
        seq![seq![]]
    } else {
        let before = split_parts(s.drop_last());
        if is_sep(s.last()) {
            before.push(seq![])
        } else {
            before.update(before.len() - 1, before.last().push(s.last()))
        }
    }
}

/// One piece applied to the segments before it: empty and `.` change nothing, `..` goes up one
/// level (and nowhere at the top), anything else goes down into it.
pub open spec fn step(done: Seq<Seq<char>>, part: Seq<char>) -> Seq<Seq<char>> {
    if part.len() == 0 || part == seq!['.'] {
        done
    } else if part == seq!['.', '.'] {
        if done.len() > 0 {
            done.drop_last()
        } else {
            done
        }
    } else {
        done.push(part)
    }
}

pub open spec fn resolve(parts: Seq<Seq<char>>) -> Seq<Seq<char>>
    decreases parts.len(),
{
    if parts.len() == 0 {
        seq![]
    } else {
        step(resolve(parts.drop_last()), parts.last())
    }
}

/// The segments a path stands for.
pub open spec fn components(raw: Seq<char>) -> Seq<Seq<char>> {
    resolve(split_parts(raw))
}

/// Two segments that are equal ignoring ASCII case.
pub open spec fn same_folded(a: Seq<char>, b: Seq<char>) -> bool {
    a.len() == b.len() && forall|k: int| 0 <= k < a.len() ==> ascii_lower(#[trigger] a[k]) == ascii_lower(b[k])
}

/// `root`'s segments begin `path`'s, ignoring ASCII case.
pub open spec fn folded_prefix(root: Seq<Seq<char>>, path: Seq<Seq<char>>) -> bool {
    root.len() <= path.len() && forall|k: int| 0 <= k < root.len() ==> same_folded(#[trigger] root[k], path[k])
}

/// Two paths name the same place.
pub open spec fn same_place(a: Seq<char>, b: Seq<char>) -> bool {
    let ca = components(a);
    let cb = components(b);
    ca.len() == cb.len() && folded_prefix(ca, cb)
}

/// The segments of `path` below `root`, when `path` is under it.
pub open spec fn tail_under(path: Seq<char>, root: Seq<char>) -> Option<Seq<Seq<char>>> {
    let cp = components(path);
    let cr = components(root);
    if folded_prefix(cr, cp) {
        Some(cp.skip(cr.len() as int))
    } else {
        None
    }
}

/// `a` followed by a separator and `b`, unless `a` is empty or already ends with a separator.
pub open spec fn join(a: Seq<char>, b: Seq<char>) -> Seq<char> {
    if a.len() == 0 || is_sep(a.last()) {
        a + b
    } else {
        a + seq!['/'] + b
    }
}

/// The segments joined with `/`.
pub open spec fn join_all(parts: Seq<Seq<char>>) -> Seq<char>
    decreases parts.len(),
{
    if parts.len() == 0 {
        seq![]
    } else if parts.len() == 1 {
        parts[0]
    } else {
        join_all(parts.drop_last()) + seq!['/'] + parts.last()
    }
}

/// `\\` written as `/`.
pub open spec fn forward(c: char) -> char {
    if c == '\\' {
        '/'
    } else {
        c
    }
}

/// The last piece of a path: what follows the last separator.
pub open spec fn leaf_of(raw: Seq<char>) -> Seq<char> {
    split_parts(raw).last()
}

proof fn lemma_split_parts_nonempty(s: Seq<char>)
    ensures
        split_parts(s).len() >= 1,
    decreases s.len(),
{
    if s.len() > 0 {
        lemma_split_parts_nonempty(s.drop_last());
    }
}

/// Naming the same place is an equivalence: a path names its own place, the relation reads both
/// ways, and two paths that name a third one's place name each other's.
pub proof fn same_place_is_an_equivalence(a: Seq<char>, b: Seq<char>, c: Seq<char>)
    ensures
        same_place(a, a),
        same_place(a, b) ==> same_place(b, a),
        same_place(a, b) && same_place(b, c) ==> same_place(a, c),
{
    let ca = components(a);
    let cb = components(b);
    let cc = components(c);
    assert forall|k: int| 0 <= k < ca.len() implies same_folded(#[trigger] ca[k], ca[k]) by {}
    if same_place(a, b) {
        assert forall|k: int| 0 <= k < cb.len() implies same_folded(#[trigger] cb[k], ca[k]) by {
            assert(same_folded(ca[k], cb[k]));
        }
        if same_place(b, c) {
            assert forall|k: int| 0 <= k < ca.len() implies same_folded(#[trigger] ca[k], cc[k]) by {
                assert(same_folded(ca[k], cb[k]));
                assert(same_folded(cb[k], cc[k]));
                assert forall|i: int| 0 <= i < ca[k].len() implies ascii_lower(#[trigger] ca[k][i]) == ascii_lower(cc[k][i]) by {
                    assert(ascii_lower(ca[k][i]) == ascii_lower(cb[k][i]));
                    assert(ascii_lower(cb[k][i]) == ascii_lower(cc[k][i]));
                }
            }
        }
    }
}

/// A segment as [`components`] yields them: not empty, not `.` or `..`, and free of separators.
pub open spec fn normal_segment(p: Seq<char>) -> bool {
    &&& p.len() > 0
    &&& p != seq!['.']
    &&& p != seq!['.', '.']
    &&& forall|i: int| 0 <= i < p.len() ==> !is_sep(#[trigger] p[i])
}

pub open spec fn all_normal(parts: Seq<Seq<char>>) -> bool {
    forall|k: int| 0 <= k < parts.len() ==> normal_segment(#[trigger] parts[k])
}

/// `parts` applied one after the other to the segments `done`.
pub open spec fn resolve_from(done: Seq<Seq<char>>, parts: Seq<Seq<char>>) -> Seq<Seq<char>>
    decreases parts.len(),
{
    if parts.len() == 0 {
        done
    } else {
        step(resolve_from(done, parts.drop_last()), parts.last())
    }
}

proof fn lemma_split_parts_sep_free(s: Seq<char>)
    ensures
        forall|k: int, i: int|
            0 <= k < split_parts(s).len() && 0 <= i < split_parts(s)[k].len() ==> !is_sep(#[trigger] split_parts(s)[k][i]),
    decreases s.len(),
{
    if s.len() > 0 {
        lemma_split_parts_sep_free(s.drop_last());
        lemma_split_parts_nonempty(s.drop_last());
        let before = split_parts(s.drop_last());
        if !is_sep(s.last()) {
            assert forall|k: int, i: int|
                0 <= k < split_parts(s).len() && 0 <= i < split_parts(s)[k].len() implies !is_sep(#[trigger] split_parts(s)[k][i]) by {
                if k == before.len() - 1 {
                    if i < before.last().len() {
                        assert(split_parts(s)[k][i] == before[k][i]);
                    }
                } else {
                    assert(split_parts(s)[k] == before[k]);
                }
            }
        } else {
            assert forall|k: int, i: int|
                0 <= k < split_parts(s).len() && 0 <= i < split_parts(s)[k].len() implies !is_sep(#[trigger] split_parts(s)[k][i]) by {
                if k < before.len() {
                    assert(split_parts(s)[k] == before[k]);
                }
            }
        }
    }
}

proof fn lemma_resolve_normal(parts: Seq<Seq<char>>)
    requires
        forall|k: int, i: int| 0 <= k < parts.len() && 0 <= i < parts[k].len() ==> !is_sep(#[trigger] parts[k][i]),
    ensures
        all_normal(resolve(parts)),
    decreases parts.len(),
{
    if parts.len() > 0 {
        let init = parts.drop_last();
        assert forall|k: int, i: int| 0 <= k < init.len() && 0 <= i < init[k].len() implies !is_sep(#[trigger] init[k][i]) by {
            assert(init[k] == parts[k]);
        }
        lemma_resolve_normal(init);
        let d = resolve(init);
        let part = parts.last();
        if part.len() == 0 || part == seq!['.'] {
        } else if part == seq!['.', '.'] {
            if d.len() > 0 {
                assert forall|k: int| 0 <= k < d.drop_last().len() implies normal_segment(#[trigger] d.drop_last()[k]) by {
                    assert(d.drop_last()[k] == d[k]);
                }
            }
        } else {
            assert forall|i: int| 0 <= i < part.len() implies !is_sep(#[trigger] part[i]) by {
                assert(part[i] == parts[parts.len() - 1][i]);
            }
            assert forall|k: int| 0 <= k < d.push(part).len() implies normal_segment(#[trigger] d.push(part)[k]) by {
                if k < d.len() {
                    assert(d.push(part)[k] == d[k]);
                }
            }
        }
    }
}

/// Every segment a path stands for is a normal one.
pub proof fn lemma_components_normal(raw: Seq<char>)
    ensures
        all_normal(components(raw)),
{
    lemma_split_parts_sep_free(raw);
    lemma_resolve_normal(split_parts(raw));
}

proof fn lemma_split_parts_concat(a: Seq<char>, b: Seq<char>)
    ensures
        split_parts(a + seq!['/'] + b) == split_parts(a) + split_parts(b),
    decreases b.len(),
{
    lemma_split_parts_nonempty(a);
    if b.len() == 0 {
        assert((a + seq!['/'] + b).drop_last() =~= a);
        assert(split_parts(a) + split_parts(b) =~= split_parts(a).push(seq![]));
    } else {
        lemma_split_parts_concat(a, b.drop_last());
        lemma_split_parts_nonempty(b.drop_last());
        let x = a + seq!['/'] + b;
        assert(x.drop_last() =~= a + seq!['/'] + b.drop_last());
        assert(x.last() == b.last());
        let left = split_parts(a);
        let right = split_parts(b.drop_last());
        if is_sep(b.last()) {
            assert((left + right).push(seq![]) =~= left + right.push(seq![]));
        } else {
            let both = left + right;
            assert(both.last() == right.last());
            assert(both.update(both.len() - 1, both.last().push(b.last())) =~= left + right.update(
                right.len() - 1,
                right.last().push(b.last()),
            ));
        }
    }
}

proof fn lemma_split_parts_sep_free_single(s: Seq<char>)
    requires
        forall|i: int| 0 <= i < s.len() ==> !is_sep(#[trigger] s[i]),
    ensures
        split_parts(s) == seq![s],
    decreases s.len(),
{
    if s.len() > 0 {
        assert forall|i: int| 0 <= i < s.drop_last().len() implies !is_sep(#[trigger] s.drop_last()[i]) by {
            assert(s.drop_last()[i] == s[i]);
        }
        lemma_split_parts_sep_free_single(s.drop_last());
        assert(!is_sep(s[s.len() - 1]));
        assert(s.drop_last().push(s.last()) =~= s);
        assert(seq![s.drop_last()].update(0, s.drop_last().push(s.last())) =~= seq![s]);
    } else {
        assert(s =~= Seq::<char>::empty());
    }
}

proof fn lemma_split_join_all(parts: Seq<Seq<char>>)
    requires
        parts.len() > 0,
        all_normal(parts),
    ensures
        split_parts(join_all(parts)) == parts,
    decreases parts.len(),
{
    if parts.len() == 1 {
        assert(normal_segment(parts[0]));
        lemma_split_parts_sep_free_single(parts[0]);
        assert(parts =~= seq![parts[0]]);
    } else {
        let init = parts.drop_last();
        assert forall|k: int| 0 <= k < init.len() implies normal_segment(#[trigger] init[k]) by {
            assert(init[k] == parts[k]);
        }
        lemma_split_join_all(init);
        assert(normal_segment(parts[parts.len() - 1]));
        lemma_split_parts_sep_free_single(parts.last());
        lemma_split_parts_concat(join_all(init), parts.last());
        assert(init + seq![parts.last()] =~= parts);
    }
}

proof fn lemma_resolve_concat(p: Seq<Seq<char>>, q: Seq<Seq<char>>)
    ensures
        resolve(p + q) == resolve_from(resolve(p), q),
    decreases q.len(),
{
    if q.len() == 0 {
        assert(p + q =~= p);
    } else {
        lemma_resolve_concat(p, q.drop_last());
        assert((p + q).drop_last() =~= p + q.drop_last());
        assert((p + q).last() == q.last());
    }
}

proof fn lemma_resolve_from_normal(d: Seq<Seq<char>>, q: Seq<Seq<char>>)
    requires
        all_normal(q),
    ensures
        resolve_from(d, q) == d + q,
    decreases q.len(),
{
    if q.len() == 0 {
        assert(d + q =~= d);
    } else {
        let init = q.drop_last();
        assert forall|k: int| 0 <= k < init.len() implies normal_segment(#[trigger] init[k]) by {
            assert(init[k] == q[k]);
        }
        lemma_resolve_from_normal(d, init);
        assert(normal_segment(q[q.len() - 1]));
        assert((d + init).push(q.last()) =~= d + q);
    }
}

/// Below a folder, normal segments are the segments of the path they make: joining them to the
/// folder and splitting the result again gives the folder's segments followed by them.
pub proof fn lemma_components_of_join(root: Seq<char>, tail: Seq<Seq<char>>)
    requires
        all_normal(tail),
    ensures
        components(join(root, join_all(tail))) == components(root) + tail,
{
    let jt = join_all(tail);
    // What the tail's own pieces contribute.
    let tail_parts = split_parts(jt);
    if tail.len() > 0 {
        lemma_split_join_all(tail);
    } else {
        assert(jt =~= Seq::<char>::empty());
        assert(tail_parts == seq![Seq::<char>::empty()]);
    }
    assert(resolve_from(components(root), tail_parts) == components(root) + tail) by {
        if tail.len() > 0 {
            lemma_resolve_from_normal(components(root), tail);
        } else {
            assert(tail_parts.len() == 1);
            assert(tail_parts.drop_last() =~= Seq::<Seq<char>>::empty());
            assert(tail_parts.last() =~= Seq::<char>::empty());
            assert(resolve_from(components(root), tail_parts.drop_last()) == components(root));
            assert(components(root) + tail =~= components(root));
        }
    }
    if root.len() == 0 {
        assert(join(root, jt) =~= jt);
        lemma_resolve_concat(Seq::<Seq<char>>::empty(), tail_parts);
        assert(Seq::<Seq<char>>::empty() + tail_parts =~= tail_parts);
        assert(resolve(Seq::<Seq<char>>::empty()) =~= Seq::<Seq<char>>::empty());
        assert(split_parts(root) == seq![Seq::<char>::empty()]);
        assert(split_parts(root).drop_last() =~= Seq::<Seq<char>>::empty());
        assert(split_parts(root).last() =~= Seq::<char>::empty());
        assert(resolve(split_parts(root).drop_last()) =~= Seq::<Seq<char>>::empty());
        assert(components(root) =~= Seq::<Seq<char>>::empty());
    } else if is_sep(root.last()) {
        let front = root.drop_last();
        assert(root =~= front + seq!['/'] + Seq::<char>::empty() || root =~= front.push(root.last()));
        assert(join(root, jt) =~= front + seq![root.last()] + jt);
        // A trailing separator ends the last piece exactly as `/` does.
        assert(split_parts(front + seq![root.last()] + jt) == split_parts(front) + tail_parts) by {
            lemma_split_parts_concat_any_sep(front, root.last(), jt);
        }
        lemma_resolve_concat(split_parts(front), tail_parts);
        assert(components(root) == resolve(split_parts(front))) by {
            assert(root.drop_last() =~= front);
            assert(split_parts(root) == split_parts(front).push(seq![]));
            assert(split_parts(root).drop_last() =~= split_parts(front));
        }
    } else {
        assert(join(root, jt) =~= root + seq!['/'] + jt);
        lemma_split_parts_concat(root, jt);
        lemma_resolve_concat(split_parts(root), tail_parts);
    }
}

proof fn lemma_split_parts_concat_any_sep(a: Seq<char>, sep: char, b: Seq<char>)
    requires
        is_sep(sep),
    ensures
        split_parts(a + seq![sep] + b) == split_parts(a) + split_parts(b),
    decreases b.len(),
{
    lemma_split_parts_nonempty(a);
    if b.len() == 0 {
        assert((a + seq![sep] + b).drop_last() =~= a);
        assert(split_parts(a) + split_parts(b) =~= split_parts(a).push(seq![]));
    } else {
        lemma_split_parts_concat_any_sep(a, sep, b.drop_last());
        lemma_split_parts_nonempty(b.drop_last());
        let x = a + seq![sep] + b;
        assert(x.drop_last() =~= a + seq![sep] + b.drop_last());
        assert(x.last() == b.last());
        let left = split_parts(a);
        let right = split_parts(b.drop_last());
        if is_sep(b.last()) {
            assert((left + right).push(seq![]) =~= left + right.push(seq![]));
        } else {
            let both = left + right;
            assert(both.last() == right.last());
            assert(both.update(both.len() - 1, both.last().push(b.last())) =~= left + right.update(
                right.len() - 1,
                right.last().push(b.last()),
            ));
        }
    }
}

/// A path's segments below a folder, joined back onto that folder, are below it again.
pub proof fn lemma_tail_of_join(root: Seq<char>, tail: Seq<Seq<char>>)
    requires
        all_normal(tail),
    ensures
        tail_under(join(root, join_all(tail)), root) == Some(tail),
{
    lemma_components_of_join(root, tail);
    let cr = components(root);
    let cp = cr + tail;
    assert forall|k: int| 0 <= k < cr.len() implies same_folded(#[trigger] cr[k], cp[k]) by {
        assert(cp[k] == cr[k]);
    }
    assert(cp.skip(cr.len() as int) =~= tail);
}

fn vec_eq(a: &Vec<char>, b: &Vec<char>) -> (r: bool)
    ensures
        r == (a@ == b@),
{
    if a.len() != b.len() {
        return false;
    }
    let mut i: usize = 0;
    while i < a.len()
        invariant
            a.len() == b.len(),
            i <= a.len(),
            forall|k: int| 0 <= k < i ==> a@[k] == b@[k],
        decreases a.len() - i,
    {
        if a[i] != b[i] {
            return false;
        }
        i = i + 1;
    }
    assert(a@ == b@);
    true
}

fn segment_step(done: &mut Vec<Vec<char>>, part: Vec<char>)
    ensures
        final(done)@.map_values(|v: Vec<char>| v@) == step(old(done)@.map_values(|v: Vec<char>| v@), part@),
{
    let dot = vec!['.'];
    let dots = vec!['.', '.'];
    assert(dot@ == seq!['.']);
    assert(dots@ == seq!['.', '.']);
    let ghost before = done@.map_values(|v: Vec<char>| v@);
    if part.len() == 0 || vec_eq(&part, &dot) {
        return;
    }
    if vec_eq(&part, &dots) {
        if done.len() > 0 {
            done.pop();
            assert(done@.map_values(|v: Vec<char>| v@) == before.drop_last());
        }
        return;
    }
    let ghost p = part@;
    done.push(part);
    assert(done@.map_values(|v: Vec<char>| v@) == before.push(p));
}

/// Two segments equal ignoring ASCII case.
fn segments_match(a: &Vec<char>, b: &Vec<char>) -> (r: bool)
    ensures
        r == same_folded(a@, b@),
{
    if a.len() != b.len() {
        return false;
    }
    let mut i: usize = 0;
    while i < a.len()
        invariant
            a.len() == b.len(),
            i <= a.len(),
            forall|k: int| 0 <= k < i ==> ascii_lower(#[trigger] a@[k]) == ascii_lower(b@[k]),
        decreases a.len() - i,
    {
        if char_to_ascii_lower(a[i]) != char_to_ascii_lower(b[i]) {
            return false;
        }
        i = i + 1;
    }
    true
}

/// `root`'s segments begin `path`'s, ignoring ASCII case.
fn starts_with_segments(root: &Vec<Vec<char>>, path: &Vec<Vec<char>>) -> (r: bool)
    ensures
        r == folded_prefix(root@.map_values(|v: Vec<char>| v@), path@.map_values(|v: Vec<char>| v@)),
{
    let ghost rv = root@.map_values(|v: Vec<char>| v@);
    let ghost pv = path@.map_values(|v: Vec<char>| v@);
    if root.len() > path.len() {
        return false;
    }
    let mut i: usize = 0;
    while i < root.len()
        invariant
            root.len() <= path.len(),
            i <= root.len(),
            rv == root@.map_values(|v: Vec<char>| v@),
            pv == path@.map_values(|v: Vec<char>| v@),
            forall|k: int| 0 <= k < i ==> same_folded(#[trigger] rv[k], pv[k]),
        decreases root.len() - i,
    {
        if !segments_match(&root[i], &path[i]) {
            assert(!same_folded(rv[i as int], pv[i as int]));
            return false;
        }
        i = i + 1;
    }
    true
}

impl Clone for StrictPath {
    fn clone(&self) -> (r: Self)
        ensures
            r@ == self@,
    {
        StrictPath { raw: self.raw.clone() }
    }
}

/// The segments joined with `/`.
pub(crate) fn segments_joined(parts: &Vec<Vec<char>>) -> (r: String)
    ensures
        r@ == join_all(parts@.map_values(|v: Vec<char>| v@)),
{
    let ghost ps = parts@.map_values(|v: Vec<char>| v@);
    let mut out: Vec<char> = Vec::new();
    let mut i: usize = 0;
    assert(ps.take(0) =~= Seq::<Seq<char>>::empty());
    while i < parts.len()
        invariant
            i <= parts.len(),
            ps == parts@.map_values(|v: Vec<char>| v@),
            out@ == join_all(ps.take(i as int)),
        decreases parts.len() - i,
    {
        assert(ps.take(i + 1).drop_last() == ps.take(i as int));
        assert(ps.take(i + 1).last() == parts@[i as int]@);
        if i > 0 {
            out.push('/');
        }
        let mut seg = parts[i].clone();
        out.append(&mut seg);
        i = i + 1;
        assert(out@ =~= join_all(ps.take(i as int)));
    }
    assert(ps.take(i as int) == ps);
    crate::scan::emulator::text::string_from(&out)
}

/// `path` with `old`, when it is `old` or lies below it, swapped for `new`; the segments below
/// are kept as they were. Any other path stays as it is.
pub open spec fn replaced(path: Seq<char>, old: Seq<char>, new: Seq<char>) -> Seq<char> {
    match tail_under(path, old) {
        Some(tail) => if tail.len() == 0 {
            new
        } else {
            join(new, join_all(tail))
        },
        None => path,
    }
}

impl StrictPath {
    pub fn new(raw: String) -> (r: Self)
        ensures
            r@ == raw@,
    {
        StrictPath { raw }
    }

    /// The path as it was written.
    pub fn raw(&self) -> (r: String)
        ensures
            r@ == self@,
    {
        self.raw.clone()
    }

    /// The path with `/` as its only separator.
    pub fn render(&self) -> (r: String)
        ensures
            r@ == self@.map_values(|c: char| forward(c)),
    {
        let chars = crate::scan::emulator::text::chars_of(self.raw.as_str());
        let mut out: Vec<char> = Vec::new();
        let mut i: usize = 0;
        while i < chars.len()
            invariant
                i <= chars.len(),
                chars@ == self@,
                out@ == chars@.take(i as int).map_values(|c: char| forward(c)),
            decreases chars.len() - i,
        {
            out.push(if chars[i] == '\\' { '/' } else { chars[i] });
            i = i + 1;
            assert(out@ == chars@.take(i as int).map_values(|c: char| forward(c)));
        }
        assert(chars@.take(chars.len() as int) == chars@);
        string_from(&out)
    }

    /// This path with `old`, when it is `old` or lies below it, swapped for `new`.
    ///
    /// Whether the path lies below `old` is decided by resolved segments, ignoring ASCII case,
    /// like every comparison of places here.
    pub fn replace(&self, old: &StrictPath, new: &StrictPath) -> (r: StrictPath)
        ensures
            r@ == replaced(self@, old@, new@),
    {
        match self.case_insensitive_tail_for(old) {
            Some(tail) => {
                if tail.len() == 0 {
                    new.clone()
                } else {
                    new.joined(segments_joined(&tail).as_str())
                }
            },
            None => self.clone(),
        }
    }

    /// This path with `sub` below it.
    pub fn joined(&self, sub: &str) -> (r: Self)
        ensures
            r@ == join(self@, sub@),
    {
        let mut chars = crate::scan::emulator::text::chars_of(self.raw.as_str());
        let n = chars.len();
        if n > 0 && chars[n - 1] != '/' && chars[n - 1] != '\\' {
            chars.push('/');
        }
        let mut rest = crate::scan::emulator::text::chars_of(sub);
        chars.append(&mut rest);
        StrictPath { raw: string_from(&chars) }
    }

    /// The segments this path stands for.
    pub fn components(&self) -> (r: Vec<Vec<char>>)
        ensures
            r@.map_values(|v: Vec<char>| v@) == components(self@),
    {
        let chars = crate::scan::emulator::text::chars_of(self.raw.as_str());
        let ghost s = self@;
        let mut done: Vec<Vec<char>> = Vec::new();
        let mut cur: Vec<char> = Vec::new();
        let mut i: usize = 0;
        proof {
            assert(s.take(0) == Seq::<char>::empty());
            assert(done@.map_values(|v: Vec<char>| v@) == Seq::<Seq<char>>::empty());
        }
        while i < chars.len()
            invariant
                i <= chars.len(),
                chars@ == s,
                split_parts(s.take(i as int)).len() >= 1,
                cur@ == split_parts(s.take(i as int)).last(),
                done@.map_values(|v: Vec<char>| v@) == resolve(split_parts(s.take(i as int)).drop_last()),
            decreases chars.len() - i,
        {
            let ghost parts = split_parts(s.take(i as int));
            let c = chars[i];
            assert(s.take(i + 1).drop_last() == s.take(i as int));
            assert(s.take(i + 1).last() == c);
            if c == '/' || c == '\\' {
                let part = cur;
                segment_step(&mut done, part);
                cur = Vec::new();
                proof {
                    let next = split_parts(s.take(i + 1));
                    assert(next == parts.push(seq![]));
                    assert(next.drop_last() == parts);
                    assert(parts == parts.drop_last().push(parts.last()));
                }
            } else {
                cur.push(c);
                proof {
                    let next = split_parts(s.take(i + 1));
                    assert(next == parts.update(parts.len() - 1, parts.last().push(c)));
                    assert(next.drop_last() == parts.drop_last());
                }
            }
            i = i + 1;
            proof {
                lemma_split_parts_nonempty(s.take(i as int));
            }
        }
        let ghost parts = split_parts(s.take(i as int));
        assert(s.take(i as int) == s);
        assert(parts == parts.drop_last().push(parts.last()));
        segment_step(&mut done, cur);
        done
    }

    /// Both paths name the same place, comparing their segments ignoring ASCII case.
    pub fn equivalent(&self, other: &StrictPath) -> (r: bool)
        ensures
            r == same_place(self@, other@),
    {
        let a = self.components();
        let b = other.components();
        if a.len() != b.len() {
            return false;
        }
        starts_with_segments(&a, &b)
    }

    /// The segments of this path below `root`, when it is under it, ignoring ASCII case.
    ///
    /// The segments are resolved before comparing, so a path that walks out of `root` with `..`
    /// is not under it.
    pub fn case_insensitive_tail_for(&self, root: &StrictPath) -> (r: Option<Vec<Vec<char>>>)
        ensures
            match r {
                Some(t) => tail_under(self@, root@) == Some(t@.map_values(|v: Vec<char>| v@)),
                None => tail_under(self@, root@) is None,
            },
    {
        let mine = self.components();
        let theirs = root.components();
        if !starts_with_segments(&theirs, &mine) {
            return None;
        }
        let ghost mv = mine@.map_values(|v: Vec<char>| v@);
        let mut tail: Vec<Vec<char>> = Vec::new();
        let mut i: usize = theirs.len();
        while i < mine.len()
            invariant
                theirs.len() <= i <= mine.len(),
                mv == mine@.map_values(|v: Vec<char>| v@),
                tail@.map_values(|v: Vec<char>| v@) == mv.subrange(theirs.len() as int, i as int),
            decreases mine.len() - i,
        {
            let ghost before = tail@.map_values(|v: Vec<char>| v@);
            tail.push(mine[i].clone());
            assert(tail@.map_values(|v: Vec<char>| v@) == before.push(mv[i as int]));
            i = i + 1;
            assert(mv.subrange(theirs.len() as int, i as int) == mv.subrange(theirs.len() as int, i - 1).push(mv[i - 1]));
        }
        Some(tail)
    }
}

} // verus!
