//! Slash-separated file paths, read the way `std::path::Path` reads them on Unix.

use vstd::prelude::*;
use crate::strings::{join, string_from_chars, to_chars, views};

verus! {

/// The pieces of `s` between occurrences of `c` (empty pieces included).
pub open spec fn split_on(s: Seq<char>, c: char) -> Seq<Seq<char>>
    decreases s.len(),
{
    if s.len() == 0 {
        seq![Seq::empty()]
    } else {
        let r = split_on(s.drop_last(), c);
        if s.last() == c {
            r.push(Seq::empty())
        } else {
            r.update(r.len() - 1, r.last().push(s.last()))
        }
    }
}

/// Splitting always yields at least one piece.
pub proof fn lemma_split_nonempty(s: Seq<char>, c: char)
    ensures
        split_on(s, c).len() >= 1,
    decreases s.len(),
{
    if s.len() > 0 {
        lemma_split_nonempty(s.drop_last(), c);
    }
}

/// A piece that is a normal component: not empty, not `.` and not `..`.
pub open spec fn is_normal(x: Seq<char>) -> bool {
    x.len() > 0 && x != seq!['.'] && x != seq!['.', '.']
}

/// A piece that names a component at all: not empty and not `.`.
pub open spec fn is_significant(x: Seq<char>) -> bool {
    x.len() > 0 && x != seq!['.']
}

/// The pieces that are normal components, in order.
pub open spec fn normal_pieces(ps: Seq<Seq<char>>) -> Seq<Seq<char>>
    decreases ps.len(),
{
    if ps.len() == 0 {
        Seq::empty()
    } else if is_normal(ps.last()) {
        normal_pieces(ps.drop_last()).push(ps.last())
    } else {
        normal_pieces(ps.drop_last())
    }
}

/// The pieces that name a component, in order.
pub open spec fn significant_pieces(ps: Seq<Seq<char>>) -> Seq<Seq<char>>
    decreases ps.len(),
{
    if ps.len() == 0 {
        Seq::empty()
    } else if is_significant(ps.last()) {
        significant_pieces(ps.drop_last()).push(ps.last())
    } else {
        significant_pieces(ps.drop_last())
    }
}

/// The normal components of a path.
pub open spec fn normal_components(p: Seq<char>) -> Seq<Seq<char>> {
    normal_pieces(split_on(p, '/'))
}

/// The final component of a path when it is a normal one, as `Path::file_name` gives it.
pub open spec fn file_name(p: Seq<char>) -> Option<Seq<char>> {
    let s = significant_pieces(split_on(p, '/'));
    if s.len() > 0 && s.last() != seq!['.', '.'] {
        Some(s.last())
    } else {
        None
    }
}

/// The position of the last `.` in `s`, or -1.
pub open spec fn last_dot(s: Seq<char>) -> int
    decreases s.len(),
{
    if s.len() == 0 {
        -1
    } else if s.last() == '.' {
        s.len() - 1
    } else {
        last_dot(s.drop_last())
    }
}

/// A file name without its extension, as `Path::file_stem` gives it.
pub open spec fn file_stem(name: Seq<char>) -> Seq<char> {
    if last_dot(name) <= 0 {
        name
    } else {
        name.subrange(0, last_dot(name))
    }
}

/// A file name's extension, as `Path::extension` gives it.
pub open spec fn file_extension(name: Seq<char>) -> Option<Seq<char>> {
    if last_dot(name) <= 0 {
        None
    } else {
        Some(name.subrange(last_dot(name) + 1, name.len() as int))
    }
}

/// The components that follow the first `src` component.
pub open spec fn after_src(cs: Seq<Seq<char>>) -> Seq<Seq<char>>
    decreases cs.len(),
{
    if cs.len() == 0 {
        Seq::empty()
    } else if cs[0] == seq!['s', 'r', 'c'] {
        cs.drop_first()
    } else {
        after_src(cs.drop_first())
    }
}

/// The pieces of `v` split at `c`.
pub fn split_chars(v: &Vec<char>, c: char) -> (r: Vec<Vec<char>>)
    ensures
        r@.map_values(|x: Vec<char>| x@) == split_on(v@, c),
{
    let mut r: Vec<Vec<char>> = Vec::new();
    r.push(Vec::new());
    let mut i: usize = 0;
    assert(r@.map_values(|x: Vec<char>| x@) =~= split_on(v@.subrange(0, 0), c));
    while i < v.len()
        invariant
            i <= v@.len(),
            r@.len() > 0,
            r@.map_values(|x: Vec<char>| x@) == split_on(v@.subrange(0, i as int), c),
        decreases v@.len() - i,
    {
        let ghost before = r@.map_values(|x: Vec<char>| x@);
        assert(v@.subrange(0, i + 1).drop_last() =~= v@.subrange(0, i as int));
        if v[i] == c {
            r.push(Vec::new());
            assert(r@.map_values(|x: Vec<char>| x@) =~= before.push(Seq::empty()));
        } else {
            let last = r.len() - 1;
            let mut piece = r.pop().unwrap();
            piece.push(v[i]);
            r.push(piece);
            assert(r@.map_values(|x: Vec<char>| x@) =~= before.update(before.len() - 1, before.last().push(v@[i as int])));
        }
        i = i + 1;
    }
    assert(v@.subrange(0, v@.len() as int) =~= v@);
    r
}

/// Whether the characters of `a` are those of `b`.
pub fn chars_eq(a: &Vec<char>, b: &Vec<char>) -> (eq: bool)
    ensures
        eq == (a@ == b@),
{
    if a.len() != b.len() {
        return false;
    }
    let mut i: usize = 0;
    while i < a.len()
        invariant
            a@.len() == b@.len(),
            i <= a@.len(),
            forall|j: int| 0 <= j < i ==> a@[j] == b@[j],
        decreases a@.len() - i,
    {
        if a[i] != b[i] {
            return false;
        }
        i = i + 1;
    }
    assert(a@ =~= b@);
    true
}

fn is_normal_piece(x: &Vec<char>) -> (b: bool)
    ensures
        b == is_normal(x@),
{
    let dot = vec!['.'];
    let dots = vec!['.', '.'];
    assert(dot@ =~= seq!['.']);
    assert(dots@ =~= seq!['.', '.']);
    x.len() > 0 && !chars_eq(x, &dot) && !chars_eq(x, &dots)
}

fn is_significant_piece(x: &Vec<char>) -> (b: bool)
    ensures
        b == is_significant(x@),
{
    let dot = vec!['.'];
    assert(dot@ =~= seq!['.']);
    x.len() > 0 && !chars_eq(x, &dot)
}

/// The normal components of `path`, each as a string.
pub fn path_normal_components(path: &str) -> (r: Vec<String>)
    ensures
        views(r@) == normal_components(path@),
{
    let v = to_chars(path);
    let pieces = split_chars(&v, '/');
    let ghost ps = pieces@.map_values(|x: Vec<char>| x@);
    let mut r: Vec<String> = Vec::new();
    let mut i: usize = 0;
    while i < pieces.len()
        invariant
            i <= pieces@.len(),
            ps == pieces@.map_values(|x: Vec<char>| x@),
            views(r@) == normal_pieces(ps.subrange(0, i as int)),
        decreases pieces@.len() - i,
    {
        assert(ps.subrange(0, i + 1).drop_last() =~= ps.subrange(0, i as int));
        if is_normal_piece(&pieces[i]) {
            let ghost before = views(r@);
            r.push(string_from_chars(&pieces[i], 0, pieces[i].len()));
            assert(pieces[i as int]@.subrange(0, pieces[i as int]@.len() as int) =~= pieces[i as int]@);
            assert(views(r@) =~= before.push(ps[i as int]));
        }
        i = i + 1;
    }
    assert(ps.subrange(0, ps.len() as int) =~= ps);
    r
}

/// The final component of `path` when it is a normal one, as `Path::file_name` gives it.
pub fn path_file_name(path: &str) -> (r: Option<Vec<char>>)
    ensures
        match r {
            Some(v) => file_name(path@) == Some(v@),
            None => file_name(path@) is None,
        },
{
    let v = to_chars(path);
    let pieces = split_chars(&v, '/');
    let ghost ps = pieces@.map_values(|x: Vec<char>| x@);
    let mut last: Option<usize> = None;
    let mut count: usize = 0;
    let mut i: usize = 0;
    while i < pieces.len()
        invariant
            i <= pieces@.len(),
            ps == pieces@.map_values(|x: Vec<char>| x@),
            count == significant_pieces(ps.subrange(0, i as int)).len(),
            count <= i,
            match last {
                Some(k) => k < i && count > 0 && significant_pieces(ps.subrange(0, i as int)).last() == ps[k as int],
                None => count == 0,
            },
        decreases pieces@.len() - i,
    {
        assert(ps.subrange(0, i + 1).drop_last() =~= ps.subrange(0, i as int));
        if is_significant_piece(&pieces[i]) {
            last = Some(i);
            count = count + 1;
        }
        i = i + 1;
    }
    assert(ps.subrange(0, ps.len() as int) =~= ps);
    match last {
        Some(k) => {
            let dots = vec!['.', '.'];
            assert(dots@ =~= seq!['.', '.']);
            if chars_eq(&pieces[k], &dots) {
                None
            } else {
                let mut name: Vec<char> = Vec::new();
                let mut j: usize = 0;
                while j < pieces[k].len()
                    invariant
                        k < pieces@.len(),
                        j <= pieces@[k as int]@.len(),
                        name@ == pieces@[k as int]@.subrange(0, j as int),
                    decreases pieces@[k as int]@.len() - j,
                {
                    name.push(pieces[k][j]);
                    assert(name@ =~= pieces@[k as int]@.subrange(0, j + 1));
                    j = j + 1;
                }
                assert(name@ =~= pieces@[k as int]@);
                Some(name)
            }
        },
        None => None,
    }
}

/// The position of the last `.` in `v`, if any.
fn find_last_dot(v: &Vec<char>) -> (r: Option<usize>)
    ensures
        match r {
            Some(k) => last_dot(v@) == k as int && k < v@.len(),
            None => last_dot(v@) == -1,
        },
{
    let mut i: usize = v.len();
    assert(v@.subrange(0, v@.len() as int) =~= v@);
    while i > 0
        invariant
            i <= v@.len(),
            last_dot(v@) == last_dot(v@.subrange(0, i as int)),
        decreases i,
    {
        assert(v@.subrange(0, i as int).drop_last() =~= v@.subrange(0, i - 1));
        if v[i - 1] == '.' {
            return Some(i - 1);
        }
        i = i - 1;
    }
    None
}

/// A file name without its extension, as `Path::file_stem` gives it.
pub fn name_stem(name: &Vec<char>) -> (r: String)
    ensures
        r@ == file_stem(name@),
{
    match find_last_dot(name) {
        Some(k) if k > 0 => string_from_chars(name, 0, k),
        _ => {
            assert(name@.subrange(0, name@.len() as int) =~= name@);
            string_from_chars(name, 0, name.len())
        },
    }
}

/// A file name's extension, as `Path::extension` gives it.
pub fn name_extension(name: &Vec<char>) -> (r: Option<String>)
    ensures
        match r {
            Some(s) => file_extension(name@) == Some(s@),
            None => file_extension(name@) is None,
        },
{
    match find_last_dot(name) {
        Some(k) => {
            if k > 0 && k < name.len() {
                Some(string_from_chars(name, k + 1, name.len()))
            } else {
                None
            }
        },
        None => None,
    }
}

/// The components that follow the first `src` component.
pub fn components_after_src(cs: &Vec<String>) -> (r: Vec<String>)
    ensures
        views(r@) == after_src(views(cs@)),
{
    let ghost all = views(cs@);
    let src = String::from_str("src");
    proof {
        reveal_strlit("src");
        assert(src@ =~= seq!['s', 'r', 'c']);
    }
    let mut r: Vec<String> = Vec::new();
    let mut found = false;
    let ghost mut k: int = 0;
    let mut i: usize = 0;
    assert(all.subrange(0, all.len() as int) =~= all);
    while i < cs.len()
        invariant
            i <= cs@.len(),
            all == views(cs@),
            src@ == seq!['s', 'r', 'c'],
            !found ==> r@.len() == 0 && after_src(all) == after_src(all.subrange(i as int, all.len() as int)),
            found ==> 0 <= k < i && after_src(all) == all.subrange(k + 1, all.len() as int)
                && views(r@) == all.subrange(k + 1, i as int),
        decreases cs@.len() - i,
    {
        if found {
            let ghost before = views(r@);
            r.push(cs[i].clone());
            assert(views(r@) =~= all.subrange(k + 1, i + 1));
        } else {
            let is_src = cs[i] == src;
            proof {
                let rest = all.subrange(i as int, all.len() as int);
                assert(rest[0] == all[i as int]);
                assert(rest.drop_first() =~= all.subrange(i + 1, all.len() as int));
                if is_src {
                    assert(views(r@) =~= all.subrange(i + 1, i + 1));
                }
            }
            if is_src {
                found = true;
                proof { k = i as int; }
            }
        }
        i = i + 1;
    }
    proof {
        if !found {
            assert(all.subrange(all.len() as int, all.len() as int) =~= Seq::<Seq<char>>::empty());
            assert(views(r@) =~= Seq::<Seq<char>>::empty());
        }
    }
    r
}

} // verus!

verus! {

/// The module components a source file stands for: the directories after the
/// first `src`, then the file's stem unless the file is a `mod.rs`.
/// (When the path has a file name, its last normal component is that name.)
pub open spec fn module_components(p: Seq<char>, name: Seq<char>) -> Seq<Seq<char>> {
    let base = after_src(parent_components(p));
    if name == "mod.rs"@ {
        base
    } else {
        base.push(file_stem(name))
    }
}

/// The normal components of a path but the last.
pub open spec fn parent_components(p: Seq<char>) -> Seq<Seq<char>> {
    let n = normal_components(p);
    if n.len() > 0 {
        n.drop_last()
    } else {
        n
    }
}

/// The view of an optional string.
pub open spec fn opt_view(o: Option<String>) -> Option<Seq<char>> {
    match o {
        Some(s) => Some(s@),
        None => None,
    }
}

/// The file name of `path` and the module components it stands for;
/// `None` when the path has no file name.
pub fn file_module_components(path: &str) -> (r: Option<(Vec<char>, Vec<String>)>)
    ensures
        match r {
            Some((name, cs)) => file_name(path@) == Some(name@) && views(cs@) == module_components(path@, name@),
            None => file_name(path@) is None,
        },
{
    let name = match path_file_name(path) {
        Some(name) => name,
        None => return None,
    };
    let all = path_normal_components(path);
    let mut parent: Vec<String> = Vec::new();
    let mut i: usize = 0;
    let n = if all.len() > 0 { all.len() - 1 } else { 0 };
    while i < n
        invariant
            n == if all@.len() > 0 { all@.len() - 1 } else { 0 },
            i <= n,
            views(parent@) == views(all@).subrange(0, i as int),
        decreases n - i,
    {
        let ghost before = views(parent@);
        parent.push(all[i].clone());
        assert(views(parent@) =~= before.push(all@[i as int]@));
        assert(views(parent@) =~= views(all@).subrange(0, i + 1));
        i = i + 1;
    }
    assert(views(parent@) =~= parent_components(path@));
    let mut cs = components_after_src(&parent);
    let mod_rs = to_chars("mod.rs");
    if !chars_eq(&name, &mod_rs) {
        let ghost before = views(cs@);
        cs.push(name_stem(&name));
        assert(views(cs@) =~= before.push(file_stem(name@)));
    }
    Some((name, cs))
}

} // verus!

verus! {

/// The position of the last `/` in `s`, or -1.
pub open spec fn last_slash(s: Seq<char>) -> int
    decreases s.len(),
{
    if s.len() == 0 {
        -1
    } else if s.last() == '/' {
        s.len() - 1
    } else {
        last_slash(s.drop_last())
    }
}

/// The parent of a path, as `Path::parent` gives it: `None` for an empty path
/// and for the root; the empty path for a single relative component; otherwise
/// the path without its last component and the separators before it, or the
/// root when nothing else is left.
pub open spec fn path_parent(p: Seq<char>) -> Option<Seq<char>> {
    let q = crate::strings::strip_suffixes(p, '/');
    if q.len() == 0 {
        None
    } else {
        let i = last_slash(q);
        if i < 0 {
            Some(Seq::empty())
        } else {
            let head = crate::strings::strip_suffixes(q.subrange(0, i), '/');
            if head.len() == 0 {
                Some(seq!['/'])
            } else {
                Some(head)
            }
        }
    }
}

/// A path `rel` joined onto `base`, as `Path::join` does: `rel` itself when it
/// is absolute or `base` is empty, and with one `/` between them unless `base`
/// ends in one.
pub open spec fn path_join(base: Seq<char>, rel: Seq<char>) -> Seq<char> {
    if base.len() == 0 || (rel.len() > 0 && rel[0] == '/') {
        rel
    } else if base.last() == '/' {
        base + rel
    } else {
        base + seq!['/'] + rel
    }
}

/// The position of the last `/` in `v[..end]`, if any.
fn find_last_slash(v: &Vec<char>, end: usize) -> (r: Option<usize>)
    requires
        end <= v@.len(),
    ensures
        match r {
            Some(k) => last_slash(v@.subrange(0, end as int)) == k as int && k < end,
            None => last_slash(v@.subrange(0, end as int)) == -1,
        },
{
    let mut i: usize = end;
    while i > 0
        invariant
            i <= end <= v@.len(),
            last_slash(v@.subrange(0, end as int)) == last_slash(v@.subrange(0, i as int)),
        decreases i,
    {
        assert(v@.subrange(0, i as int).drop_last() =~= v@.subrange(0, i - 1));
        if v[i - 1] == '/' {
            return Some(i - 1);
        }
        i = i - 1;
    }
    None
}

/// The parent of a path, as `Path::parent` gives it.
pub fn parent_path(path: &str) -> (r: Option<String>)
    ensures
        opt_view(r) == path_parent(path@),
{
    let v = crate::strings::to_chars(path);
    assert(v@.subrange(0, v@.len() as int) =~= v@);
    let q = crate::strings::skip_suffixes(&v, v.len(), '/');
    if q == 0 {
        return None;
    }
    assert(v@.subrange(0, q as int).subrange(0, q as int) =~= v@.subrange(0, q as int));
    match find_last_slash(&v, q) {
        None => Some(String::new()),
        Some(i) => {
            assert(v@.subrange(0, q as int).subrange(0, i as int) =~= v@.subrange(0, i as int));
            let h = crate::strings::skip_suffixes(&v, i, '/');
            if h == 0 {
                let mut root = String::new();
                crate::strings::push_char(&mut root, '/');
                assert(root@ =~= seq!['/']);
                Some(root)
            } else {
                Some(crate::strings::string_from_chars(&v, 0, h))
            }
        },
    }
}

/// A path joined onto `base`, as `Path::join` does.
pub fn join_path(base: &str, rel: &str) -> (r: String)
    ensures
        r@ == path_join(base@, rel@),
{
    let b = crate::strings::to_chars(base);
    let t = crate::strings::to_chars(rel);
    let mut r = String::from_str(base);
    if b.len() == 0 || (t.len() > 0 && t[0] == '/') {
        return String::from_str(rel);
    }
    if b[b.len() - 1] != '/' {
        crate::strings::push_char(&mut r, '/');
    }
    r.append(rel);
    r
}

} // verus!

verus! {

/// Whether the file `path` names has an extension, as `Path::extension` gives
/// it, that is one of `extensions`.
pub open spec fn has_listed_extension(path: Seq<char>, extensions: Seq<Seq<char>>) -> bool {
    match file_name(path) {
        Some(name) => match file_extension(name) {
            Some(e) => extensions.contains(e),
            None => false,
        },
        None => false,
    }
}

/// Whether the file `path` names has one of `extensions` as its extension.
pub fn extension_listed(path: &str, extensions: &[String]) -> (b: bool)
    ensures
        b == has_listed_extension(path@, views(extensions@)),
{
    let name = match path_file_name(path) {
        Some(n) => n,
        None => return false,
    };
    let ext = match name_extension(&name) {
        Some(e) => e,
        None => return false,
    };
    let ghost es = views(extensions@);
    let mut i: usize = 0;
    while i < extensions.len()
        invariant
            i <= extensions@.len(),
            es == views(extensions@),
            file_name(path@) == Some(name@),
            file_extension(name@) == Some(ext@),
            forall|j: int| 0 <= j < i ==> es[j] != ext@,
        decreases extensions@.len() - i,
    {
        if crate::strings::str_eq(extensions[i].as_str(), ext.as_str()) {
            assert(es[i as int] == ext@);
            assert(es.contains(ext@));
            return true;
        }
        i = i + 1;
    }
    assert(!es.contains(ext@));
    false
}

} // verus!

verus! {

/// Splitting text with a tail free of separators extends the last piece.
proof fn lemma_split_extend(x: Seq<char>, y: Seq<char>, c: char)
    requires
        !y.contains(c),
    ensures
        split_on(x + y, c) == split_on(x, c).update(split_on(x, c).len() - 1, split_on(x, c).last() + y),
    decreases y.len(),
{
    lemma_split_nonempty(x, c);
    if y.len() == 0 {
        assert(x + y =~= x);
        assert(split_on(x, c).last() + y =~= split_on(x, c).last());
        assert(split_on(x, c).update(split_on(x, c).len() - 1, split_on(x, c).last()) =~= split_on(x, c));
    } else {
        let y0 = y.drop_last();
        assert(!y0.contains(c)) by {
            if y0.contains(c) {
                let t = choose|t: int| 0 <= t < y0.len() && y0[t] == c;
                assert(y[t] == c);
            }
        }
        assert(y.last() != c) by {
            assert(y[y.len() - 1] == y.last());
        }
        lemma_split_extend(x, y0, c);
        assert((x + y).drop_last() =~= x + y0);
        assert((x + y).last() == y.last());
        let r = split_on(x, c);
        let r0 = r.update(r.len() - 1, r.last() + y0);
        assert(r0.last() == r.last() + y0);
        assert(r0.update(r0.len() - 1, r0.last().push(y.last())) =~= r.update(r.len() - 1, r.last() + y)) by {
            assert((r.last() + y0).push(y.last()) =~= r.last() + y);
        }
    }
}

/// Splitting the text of parts joined with a separator they do not contain
/// gives the parts back.
pub proof fn lemma_split_join(parts: Seq<Seq<char>>, c: char)
    requires
        parts.len() > 0,
        forall|i: int| 0 <= i < parts.len() ==> !(#[trigger] parts[i]).contains(c),
    ensures
        split_on(join(parts, seq![c]), c) == parts,
    decreases parts.len(),
{
    if parts.len() == 1 {
        lemma_split_extend(Seq::empty(), parts[0], c);
        assert(Seq::<char>::empty() + parts[0] =~= parts[0]);
        assert(seq![Seq::<char>::empty()].update(0, Seq::<char>::empty() + parts[0]) =~= parts);
    } else {
        let init = parts.drop_last();
        assert forall|i: int| 0 <= i < init.len() implies !(#[trigger] init[i]).contains(c) by {
            assert(init[i] == parts[i]);
        }
        lemma_split_join(init, c);
        let x = join(init, seq![c]) + seq![c];
        assert(x.drop_last() =~= join(init, seq![c]));
        assert(x.last() == c);
        assert(split_on(x, c) == init.push(Seq::empty()));
        assert(!parts.last().contains(c)) by {
            assert(parts[parts.len() - 1] == parts.last());
        }
        lemma_split_extend(x, parts.last(), c);
        assert(join(parts, seq![c]) == x + parts.last());
        assert(init.push(Seq::empty()).update(init.len() as int, Seq::<char>::empty() + parts.last()) =~= parts) by {
            assert(Seq::<char>::empty() + parts.last() =~= parts.last());
        }
    }
}

/// Normal pieces are all kept, as are significant ones.
pub proof fn lemma_pieces_all_normal(ps: Seq<Seq<char>>)
    requires
        forall|i: int| 0 <= i < ps.len() ==> is_normal(#[trigger] ps[i]),
    ensures
        normal_pieces(ps) == ps,
        significant_pieces(ps) == ps,
    decreases ps.len(),
{
    if ps.len() > 0 {
        let init = ps.drop_last();
        assert forall|i: int| 0 <= i < init.len() implies is_normal(#[trigger] init[i]) by {
            assert(init[i] == ps[i]);
        }
        lemma_pieces_all_normal(init);
        assert(is_normal(ps[ps.len() - 1]));
        assert(init.push(ps.last()) =~= ps);
    }
}

/// An empty piece in front, as a path that starts at the root splits into,
/// is dropped with the others kept.
pub proof fn lemma_pieces_after_root(ps: Seq<Seq<char>>)
    requires
        forall|i: int| 0 <= i < ps.len() ==> is_normal(#[trigger] ps[i]),
    ensures
        normal_pieces(seq![Seq::<char>::empty()] + ps) == ps,
        significant_pieces(seq![Seq::<char>::empty()] + ps) == ps,
    decreases ps.len(),
{
    let e = seq![Seq::<char>::empty()];
    if ps.len() == 0 {
        assert(e + ps =~= e);
        assert(e.drop_last() =~= Seq::<Seq<char>>::empty());
        assert(e.last().len() == 0);
        assert(!is_normal(e.last()) && !is_significant(e.last()));
        assert(normal_pieces(e) == normal_pieces(e.drop_last()));
        assert(significant_pieces(e) == significant_pieces(e.drop_last()));
        assert(ps =~= Seq::<Seq<char>>::empty());
    } else {
        let init = ps.drop_last();
        assert forall|i: int| 0 <= i < init.len() implies is_normal(#[trigger] init[i]) by {
            assert(init[i] == ps[i]);
        }
        lemma_pieces_after_root(init);
        assert((e + ps).drop_last() =~= e + init);
        assert((e + ps).last() == ps.last());
        assert(is_normal(ps[ps.len() - 1]));
        assert(is_normal(ps.last()) && is_significant(ps.last()));
        assert(normal_pieces(e + ps) == normal_pieces((e + ps).drop_last()).push((e + ps).last()));
        assert(significant_pieces(e + ps) == significant_pieces((e + ps).drop_last()).push((e + ps).last()));
        assert(init.push(ps.last()) =~= ps);
    }
}

/// The stem of `k.rs` for a name `k` without dots is `k`.
pub proof fn lemma_rs_stem(k: Seq<char>)
    requires
        k.len() > 0,
        !k.contains('.'),
    ensures
        file_stem(k + ".rs"@) == k,
        last_dot(k + ".rs"@) == k.len(),
{
    reveal_strlit(".rs");
    let n = k + ".rs"@;
    assert(n.len() == k.len() + 3);
    assert(n.last() == 's');
    assert(n.drop_last().last() == 'r');
    assert(n.drop_last().drop_last().last() == '.');
    assert(n.drop_last().drop_last().len() == k.len() + 1);
    assert(last_dot(n.drop_last().drop_last()) == k.len());
    assert(last_dot(n.drop_last()) == k.len());
    assert(last_dot(n) == k.len());
    assert(n.subrange(0, k.len() as int) =~= k);
}

} // verus!
