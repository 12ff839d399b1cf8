//! File paths as text, read the way `std::path` reads a Unix path.
//!
//! Paths are held as strings throughout the library: `/` separates components, and
//! the last component of a path is its file name.

use crate::art::views;
use crate::text::{chars_of, concat, push_char, same, string_of_range};
use vstd::prelude::*;

verus! {

/// The index of the last `c` in `s`, or `-1` when there is none.
pub open spec fn rfind(s: Seq<char>, c: char) -> int
    decreases s.len(),
{
    if s.len() == 0 {
        -1
    } else if s.last() == c {
        s.len() - 1
    } else {
        rfind(s.drop_last(), c)
    }
}

/// `rfind` names the last `c`, or says there is none.
pub proof fn lemma_rfind(s: Seq<char>, c: char)
    ensures
        -1 <= rfind(s, c) < s.len(),
        rfind(s, c) >= 0 ==> s[rfind(s, c)] == c,
        forall|j: int| rfind(s, c) < j < s.len() ==> s[j] != c,
    decreases s.len(),
{
    if s.len() > 0 && s.last() != c {
        let t = s.drop_last();
        lemma_rfind(t, c);
        assert forall|j: int| rfind(s, c) < j < s.len() implies s[j] != c by {
            if j < t.len() {
                assert(s[j] == t[j]);
            }
        }
    }
}

/// `s` without the `/` characters it ends with.
pub open spec fn trim_slashes(s: Seq<char>) -> Seq<char>
    decreases s.len(),
{
    if s.len() > 0 && s.last() == '/' {
        trim_slashes(s.drop_last())
    } else {
        s
    }
}

/// `s` without what `Path::components` passes over at its end: trailing `/`, and
/// `.` components after a `/` (a `.` that begins a path is a component of its own).
pub open spec fn trim_tail(s: Seq<char>) -> Seq<char>
    decreases s.len(),
{
    if s.len() > 0 && s.last() == '/' {
        trim_tail(s.drop_last())
    } else if s.len() >= 2 && s.last() == '.' && s[s.len() - 2] == '/' {
        trim_tail(s.drop_last())
    } else {
        s
    }
}

/// The last component of `p`, as `Path::file_name` gives it: the text after the last
/// `/`, trailing `/` and `.` components aside. A path that ends in nothing, `.` or
/// `..` has none.
pub open spec fn file_name_spec(p: Seq<char>) -> Option<Seq<char>> {
    let q = trim_tail(p);
    let name = q.skip(rfind(q, '/') + 1);
    if name.len() == 0 || name == seq!['.'] || name == seq!['.', '.'] {
        None
    } else {
        Some(name)
    }
}

/// A file name split at its last `.`, as `Path::file_stem` and `Path::extension`
/// split it: a name with no `.`, or whose only `.` is its first character, is all
/// stem and has no extension.
pub open spec fn split_dot(name: Seq<char>) -> (Seq<char>, Option<Seq<char>>) {
    let k = rfind(name, '.');
    if k <= 0 {
        (name, None)
    } else {
        (name.take(k), Some(name.skip(k + 1)))
    }
}

/// `Path::file_stem`.
pub open spec fn file_stem_spec(p: Seq<char>) -> Option<Seq<char>> {
    match file_name_spec(p) {
        Some(name) => Some(split_dot(name).0),
        None => None,
    }
}

/// `Path::extension`.
pub open spec fn extension_spec(p: Seq<char>) -> Option<Seq<char>> {
    match file_name_spec(p) {
        Some(name) => split_dot(name).1,
        None => None,
    }
}

/// `rest` joined onto `base` as `PathBuf::push` joins them on Unix: an absolute
/// `rest` replaces `base`, and a `/` goes between the two unless `base` is empty or
/// already ends in one.
pub open spec fn join_spec(base: Seq<char>, rest: Seq<char>) -> Seq<char> {
    if rest.len() > 0 && rest[0] == '/' {
        rest
    } else if base.len() == 0 || base.last() == '/' {
        base + rest
    } else {
        base + seq!['/'] + rest
    }
}

/// Whether `name` is one plain path component: not empty, no `/`, and neither `.`
/// nor `..`. A path `join_spec(dir, name)` with such a `name` stands directly in
/// `dir`.
pub open spec fn is_component(name: Seq<char>) -> bool {
    &&& name.len() > 0
    &&& !name.contains('/')
    &&& name != seq!['.']
    &&& name != seq!['.', '.']
}

/// One past where the last `c` in `v[..to]` is, or `0` if there is none.
pub fn rfind_in(v: &Vec<char>, to: usize, c: char) -> (k: usize)
    requires
        to <= v.len(),
    ensures
        k == rfind(v@.take(to as int), c) + 1,
{
    let mut i = to;
    while i > 0 && v[i - 1] != c
        invariant
            i <= to <= v.len(),
            rfind(v@.take(to as int), c) == rfind(v@.take(i as int), c),
        decreases i,
    {
        assert(v@.take(i as int).drop_last() =~= v@.take(i - 1));
        i = i - 1;
    }
    if i == 0 {
        assert(v@.take(0) =~= Seq::<char>::empty());
    }
    i
}

/// Where `v[..to]` ends once trailing `/` and `.` components are set aside.
fn tail_end(v: &Vec<char>, to: usize) -> (k: usize)
    requires
        to <= v.len(),
    ensures
        k <= to,
        trim_tail(v@.take(to as int)) == v@.take(k as int),
{
    let mut k = to;
    while k > 0 && (v[k - 1] == '/' || (k >= 2 && v[k - 1] == '.' && v[k - 2] == '/'))
        invariant
            k <= to <= v.len(),
            trim_tail(v@.take(to as int)) == trim_tail(v@.take(k as int)),
        decreases k,
    {
        assert(v@.take(k as int).drop_last() =~= v@.take(k - 1));
        k = k - 1;
    }
    k
}

/// Where the file name of `v` lies, as a range of positions, if it has one.
pub fn file_name_range(v: &Vec<char>) -> (r: Option<(usize, usize)>)
    ensures
        match r {
            Some((a, b)) => a <= b <= v.len() && file_name_spec(v@) == Some(
                v@.subrange(a as int, b as int),
            ),
            None => file_name_spec(v@) is None,
        },
{
    let end = tail_end(v, v.len());
    let start = rfind_in(v, end, '/');
    proof {
        lemma_rfind(v@.take(end as int), '/');
    }
    proof {
        assert(v@.take(v.len() as int) =~= v@);
        let q = v@.take(end as int);
        assert(q.skip(start as int) =~= v@.subrange(start as int, end as int));
    }
    let len = end - start;
    if len == 0 || (len == 1 && v[start] == '.') || (len == 2 && v[start] == '.' && v[start + 1]
        == '.') {
        proof {
            let name = v@.subrange(start as int, end as int);
            if len == 1 {
                assert(name =~= seq!['.']);
            }
            if len == 2 {
                assert(name =~= seq!['.', '.']);
            }
        }
        None
    } else {
        proof {
            let name = v@.subrange(start as int, end as int);
            if len == 1 {
                assert(name[0] != '.');
                assert(name != seq!['.']);
            }
            if len == 2 {
                assert(name[0] != '.' || name[1] != '.');
                assert(name != seq!['.', '.']);
            }
            assert(name.len() != 1 ==> name != seq!['.']);
            assert(name.len() != 2 ==> name != seq!['.', '.']);
        }
        Some((start, end))
    }
}

/// The file name of `p`, if it has one.
pub fn file_name(p: &str) -> (r: Option<String>)
    ensures
        match r {
            Some(n) => file_name_spec(p@) == Some(n@),
            None => file_name_spec(p@) is None,
        },
{
    let v = chars_of(p);
    match file_name_range(&v) {
        Some((a, b)) => Some(string_of_range(&v, a, b)),
        None => None,
    }
}

/// Where the stem and extension of the name `v[a..b]` lie: the stem is `v[a..m]`,
/// and the extension, if any, starts at `m + 1`.
pub fn split_dot_at(v: &Vec<char>, a: usize, b: usize) -> (m: usize)
    requires
        a <= b <= v.len(),
    ensures
        a <= m <= b,
        ({
            let name = v@.subrange(a as int, b as int);
            let (stem, ext) = split_dot(name);
            &&& stem == v@.subrange(a as int, m as int)
            &&& (m == b) == (ext is None)
            &&& m < b ==> ext == Some(v@.subrange(m + 1, b as int))
        }),
{
    let mut i = b;
    while i > a && v[i - 1] != '.'
        invariant
            a <= i <= b <= v.len(),
            rfind(v@.subrange(a as int, b as int), '.') == rfind(
                v@.subrange(a as int, i as int),
                '.',
            ),
        decreases i,
    {
        assert(v@.subrange(a as int, i as int).drop_last() =~= v@.subrange(a as int, i - 1));
        i = i - 1;
    }
    let ghost name = v@.subrange(a as int, b as int);
    if i == a {
        assert(v@.subrange(a as int, a as int) =~= Seq::<char>::empty());
        assert(name =~= v@.subrange(a as int, b as int));
        b
    } else if i - 1 == a {
        b
    } else {
        assert(name.take(i - 1 - a) =~= v@.subrange(a as int, i - 1));
        assert(name.skip(i - a) =~= v@.subrange(i as int, b as int));
        i - 1
    }
}

/// `rest` joined onto `base`.
pub fn join(base: &str, rest: &str) -> (p: String)
    ensures
        p@ == join_spec(base@, rest@),
{
    let rv = chars_of(rest);
    if rv.len() > 0 && rv[0] == '/' {
        return String::from_str(rest);
    }
    let bv = chars_of(base);
    if bv.len() == 0 || bv[bv.len() - 1] == '/' {
        concat(base, rest)
    } else {
        let mut p = String::from_str(base);
        push_char(&mut p, '/');
        p.append(rest);
        p
    }
}

/// The last `c` in `a + b` is the last in `b` if `b` has one, and else the last in `a`.
pub proof fn lemma_rfind_concat(a: Seq<char>, b: Seq<char>, c: char)
    ensures
        rfind(a + b, c) == if rfind(b, c) >= 0 {
            a.len() + rfind(b, c)
        } else {
            rfind(a, c)
        },
    decreases b.len(),
{
    if b.len() == 0 {
        assert(a + b =~= a);
    } else {
        assert((a + b).drop_last() =~= a + b.drop_last());
        lemma_rfind_concat(a, b.drop_last(), c);
    }
}

/// A sequence without `c` has no last `c`.
pub proof fn lemma_rfind_absent(s: Seq<char>, c: char)
    requires
        !s.contains(c),
    ensures
        rfind(s, c) == -1,
    decreases s.len(),
{
    if s.len() > 0 {
        assert(s.last() == s[s.len() - 1]);
        assert(!s.drop_last().contains(c)) by {
            if s.drop_last().contains(c) {
                let i = choose|i: int| 0 <= i < s.drop_last().len() && s.drop_last()[i] == c;
                assert(s[i] == c);
            }
        }
        lemma_rfind_absent(s.drop_last(), c);
    }
}

/// A plain name joined onto a directory is the file name of the result.
pub proof fn lemma_file_name_of_join(base: Seq<char>, name: Seq<char>)
    requires
        name.len() > 0,
        !name.contains('/'),
        name != seq!['.'],
        name != seq!['.', '.'],
    ensures
        file_name_spec(join_spec(base, name)) == Some(name),
{
    assert(name[0] != '/') by {
        assert(name.contains(name[0]));
    }
    assert(name.last() != '/') by {
        assert(name.contains(name[name.len() - 1]));
    }
    let j = join_spec(base, name);
    lemma_rfind_absent(name, '/');
    let dir = if base.len() == 0 || base.last() == '/' {
        base
    } else {
        base + seq!['/']
    };
    assert(j =~= dir + name);
    assert(trim_tail(j) == j) by {
        assert(j.last() == name.last());
        if name.len() >= 2 {
            assert(j[j.len() - 2] == name[name.len() - 2]);
            assert(name.contains(name[name.len() - 2]));
        } else if name.last() == '.' {
            assert(name =~= seq!['.']);
        }
    }
    lemma_rfind_concat(dir, name, '/');
    if dir.len() > 0 {
        assert(dir.last() == '/');
        assert(dir.drop_last() + seq![dir.last()] =~= dir);
        lemma_rfind_concat(dir.drop_last(), seq![dir.last()], '/');
        assert(rfind(seq![dir.last()], '/') == 0) by {
            assert(seq![dir.last()].drop_last() =~= Seq::<char>::empty());
        }
    }
    assert(rfind(dir, '/') == dir.len() - 1);
    assert(j.skip(dir.len() as int) =~= name);
}

/// Whether `p` begins at the root.
pub open spec fn is_rooted(p: Seq<char>) -> bool {
    p.len() > 0 && p[0] == '/'
}

/// The named components of `p`, as `Path::components` reads a Unix path, the root
/// aside: the texts between `/`, with empty ones and `.` passed over, except that a
/// `.` beginning the path stands for itself.
pub open spec fn parts(p: Seq<char>) -> Seq<Seq<char>>
    decreases p.len(),
{
    let k = rfind(p, '/');
    if k < 0 {
        if p.len() == 0 {
            Seq::empty()
        } else {
            seq![p]
        }
    } else {
        let seg = p.skip(k + 1);
        proof {
            lemma_rfind(p, '/');
        }
        let head = parts(p.take(k));
        if seg.len() == 0 || seg == seq!['.'] {
            head
        } else {
            head.push(seg)
        }
    }
}

/// Whether two paths are the same path, as `Path`'s `==` compares them: component
/// by component, so that `a//b`, `a/b/` and `a/./b` are all `a/b`.
pub open spec fn path_eq(a: Seq<char>, b: Seq<char>) -> bool {
    is_rooted(a) == is_rooted(b) && parts(a) == parts(b)
}

/// The named components of `v[..to]`.
fn parts_in(v: &Vec<char>, to: usize) -> (r: Vec<String>)
    requires
        to <= v.len(),
    ensures
        views(r@) == parts(v@.take(to as int)),
    decreases to,
{
    let k = rfind_in(v, to, '/');
    proof {
        lemma_rfind(v@.take(to as int), '/');
    }
    if k == 0 {
        if to == 0 {
            let r: Vec<String> = Vec::new();
            assert(views(r@) =~= Seq::<Seq<char>>::empty());
            r
        } else {
            let mut r: Vec<String> = Vec::new();
            r.push(string_of_range(v, 0, to));
            assert(v@.subrange(0, to as int) =~= v@.take(to as int));
            assert(views(r@) =~= seq![v@.take(to as int)]);
            r
        }
    } else {
        let ghost p = v@.take(to as int);
        assert(p.take(k - 1) =~= v@.take(k - 1));
        assert(p.skip(k as int) =~= v@.subrange(k as int, to as int));
        let mut r = parts_in(v, k - 1);
        let len = to - k;
        if len == 0 || (len == 1 && v[k] == '.') {
            proof {
                if len == 1 {
                    assert(p.skip(k as int) =~= seq!['.']);
                }
            }
            r
        } else {
            proof {
                if len == 1 {
                    assert(p.skip(k as int)[0] != '.');
                }
            }
            let seg = string_of_range(v, k, to);
            r.push(seg);
            assert(views(r@) =~= views(r@.drop_last()).push(seg@));
            r
        }
    }
}

/// Whether two lists of names hold the same names in the same order.
fn same_names(x: &Vec<String>, y: &Vec<String>) -> (r: bool)
    ensures
        r == (views(x@) == views(y@)),
{
    if x.len() != y.len() {
        assert(views(x@).len() != views(y@).len());
        return false;
    }
    let mut i: usize = 0;
    while i < x.len()
        invariant
            i <= x.len() == y.len(),
            forall|j: int| 0 <= j < i ==> #[trigger] x@[j]@ == y@[j]@,
        decreases x.len() - i,
    {
        if !same(x[i].as_str(), y[i].as_str()) {
            assert(views(x@)[i as int] != views(y@)[i as int]);
            return false;
        }
        i = i + 1;
    }
    assert(views(x@) =~= views(y@));
    true
}

/// Whether `a` and `b` are the same path, compared component by component.
pub fn same_path(a: &str, b: &str) -> (r: bool)
    ensures
        r == path_eq(a@, b@),
{
    let va = chars_of(a);
    let vb = chars_of(b);
    let ra = va.len() > 0 && va[0] == '/';
    let rb = vb.len() > 0 && vb[0] == '/';
    if ra != rb {
        return false;
    }
    let pa = parts_in(&va, va.len());
    let pb = parts_in(&vb, vb.len());
    assert(va@.take(va.len() as int) =~= a@);
    assert(vb@.take(vb.len() as int) =~= b@);
    same_names(&pa, &pb)
}

/// The last named component of a path joined with a plain component is that
/// component.
pub proof fn lemma_parts_of_join(dir: Seq<char>, name: Seq<char>)
    requires
        is_component(name),
    ensures
        parts(join_spec(dir, name)).len() > 0,
        parts(join_spec(dir, name)).last() == name,
{
    assert(name[0] != '/') by {
        assert(name.contains(name[0]));
    }
    let j = join_spec(dir, name);
    lemma_rfind_absent(name, '/');
    let pre = if dir.len() == 0 || dir.last() == '/' {
        dir
    } else {
        dir + seq!['/']
    };
    assert(j =~= pre + name);
    lemma_rfind_concat(pre, name, '/');
    if pre.len() > 0 {
        assert(pre.last() == '/');
        assert(pre.drop_last() + seq![pre.last()] =~= pre);
        lemma_rfind_concat(pre.drop_last(), seq![pre.last()], '/');
        assert(rfind(seq![pre.last()], '/') == 0) by {
            assert(seq![pre.last()].drop_last() =~= Seq::<char>::empty());
        }
        assert(rfind(j, '/') == pre.len() - 1);
        assert(j.skip(pre.len() as int) =~= name);
    } else {
        assert(rfind(j, '/') == -1);
        assert(j =~= name);
    }
}

} // verus!
