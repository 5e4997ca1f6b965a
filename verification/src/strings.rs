//! Character-level text utilities with exact specifications.

use vstd::prelude::*;
use vstd::string::StringSliceAdditionalSpecFns;

verus! {

/// Appends one character to a string.
///
/// Calls `String::push`, which std documents as appending the given char to
/// the end of the string.
#[verifier::external_body]
pub(crate) fn push_char(s: &mut String, c: char)
    ensures
        final(s)@ == old(s)@.push(c),
{
    s.push(c);
}

/// The Unicode uppercase of a text, as `str::to_uppercase` gives it.
pub uninterp spec fn unicode_uppercase(text: Seq<char>) -> Seq<char>;

/// The Unicode lowercase of a text, as `str::to_lowercase` gives it.
pub uninterp spec fn unicode_lowercase(text: Seq<char>) -> Seq<char>;

/// The Unicode uppercase of a character, as `char::to_uppercase` gives it.
pub uninterp spec fn unicode_char_uppercase(c: char) -> Seq<char>;

/// `str::to_uppercase`. The contract claims that the result is a function of
/// the text; the Unicode case tables are not written out.
#[verifier::external_body]
pub(crate) fn to_uppercase(s: &str) -> (r: String)
    ensures
        r@ == unicode_uppercase(s@),
{
    s.to_uppercase()
}

/// `str::to_lowercase`. The contract claims that the result is a function of
/// the text; the Unicode case tables are not written out.
#[verifier::external_body]
pub(crate) fn to_lowercase(s: &str) -> (r: String)
    ensures
        r@ == unicode_lowercase(s@),
{
    s.to_lowercase()
}

/// `char::to_uppercase`, collected into a `String`. The contract claims that
/// the result is a function of the character.
#[verifier::external_body]
pub(crate) fn char_to_uppercase(c: char) -> (r: String)
    ensures
        r@ == unicode_char_uppercase(c),
{
    c.to_uppercase().to_string()
}

/// The characters of a string slice, in order.
pub fn to_chars(s: &str) -> (v: Vec<char>)
    ensures
        v@ == s@,
{
    let mut v: Vec<char> = Vec::new();
    for c in it: s.chars()
        invariant
            v@ == it.seq().take(it.index() as int),
            it.seq() == s@,
    {
        v.push(c);
    }
    v
}

} // verus!

verus! {

/// A character boundary of a valid encoding is still one in any prefix that
/// ends at a later character boundary.
proof fn lemma_boundary_in_prefix(bytes: Seq<u8>, start: int, end: int)
    requires
        vstd::utf8::valid_utf8(bytes),
        0 <= start <= end <= bytes.len(),
        vstd::utf8::is_char_boundary(bytes, start),
        vstd::utf8::is_char_boundary(bytes, end),
    ensures
        vstd::utf8::valid_utf8(bytes.subrange(0, end)),
        vstd::utf8::is_char_boundary(bytes.subrange(0, end), start),
{
    broadcast use vstd::utf8::group_utf8_lib;
    let left = bytes.subrange(0, end);
    vstd::utf8::valid_utf8_split(bytes, end);
    if start == end {
        vstd::utf8::is_char_boundary_start_end_of_seq(left);
    } else {
        vstd::utf8::is_char_boundary_iff_not_is_continuation_byte(bytes, start);
        vstd::utf8::is_char_boundary_iff_not_is_continuation_byte(left, start);
    }
}

/// The text between two byte offsets of a string slice.
pub fn byte_slice(s: &str, start: usize, end: usize) -> (r: &str)
    requires
        start <= end <= s.spec_bytes().len(),
        vstd::utf8::is_char_boundary(s.spec_bytes(), start as int),
        vstd::utf8::is_char_boundary(s.spec_bytes(), end as int),
    ensures
        r@ == vstd::utf8::decode_utf8(s.spec_bytes().subrange(start as int, end as int)),
{
    proof {
        broadcast use vstd::utf8::group_utf8_lib;
        lemma_boundary_in_prefix(s.spec_bytes(), start as int, end as int);
    }
    let (left, _) = s.split_at(end);
    let (_, mid) = left.split_at(start);
    proof {
        broadcast use vstd::utf8::group_utf8_lib;
        assert(mid.spec_bytes() =~= s.spec_bytes().subrange(start as int, end as int));
        vstd::utf8::encode_utf8_decode_utf8(mid@);
    }
    mid
}

} // verus!

verus! {

/// Characters with the Unicode `White_Space` property, which `char::is_whitespace` tests.
pub open spec fn is_ws(c: char) -> bool {
    ||| ('\u{9}' <= c && c <= '\u{d}')
    ||| c == ' '
    ||| c == '\u{85}'
    ||| c == '\u{a0}'
    ||| c == '\u{1680}'
    ||| ('\u{2000}' <= c && c <= '\u{200a}')
    ||| c == '\u{2028}'
    ||| c == '\u{2029}'
    ||| c == '\u{202f}'
    ||| c == '\u{205f}'
    ||| c == '\u{3000}'
}

/// `s` without its leading whitespace.
pub open spec fn trim_start(s: Seq<char>) -> Seq<char>
    decreases s.len(),
{
    if s.len() > 0 && is_ws(s[0]) {
        trim_start(s.drop_first())
    } else {
        s
    }
}

/// `s` without its trailing whitespace.
pub open spec fn trim_end(s: Seq<char>) -> Seq<char>
    decreases s.len(),
{
    if s.len() > 0 && is_ws(s.last()) {
        trim_end(s.drop_last())
    } else {
        s
    }
}

/// `s` without leading and trailing whitespace.
pub open spec fn trim(s: Seq<char>) -> Seq<char> {
    trim_end(trim_start(s))
}

/// The parts, in order, with `sep` between each two neighbours.
pub open spec fn join(parts: Seq<Seq<char>>, sep: Seq<char>) -> Seq<char>
    decreases parts.len(),
{
    if parts.len() == 0 {
        Seq::empty()
    } else if parts.len() == 1 {
        parts[0]
    } else {
        join(parts.drop_last(), sep) + sep + parts.last()
    }
}

/// The views of a sequence of strings.
pub open spec fn views(v: Seq<String>) -> Seq<Seq<char>> {
    v.map_values(|x: String| x@)
}

/// Whether `c` is whitespace in the sense of `char::is_whitespace`.
pub fn is_whitespace(c: char) -> (b: bool)
    ensures
        b == is_ws(c),
{
    ('\u{9}' <= c && c <= '\u{d}') || c == ' ' || c == '\u{85}' || c == '\u{a0}'
        || c == '\u{1680}' || ('\u{2000}' <= c && c <= '\u{200a}') || c == '\u{2028}'
        || c == '\u{2029}' || c == '\u{202f}' || c == '\u{205f}' || c == '\u{3000}'
}

/// The characters `v[start..end]` as a string.
pub fn string_from_chars(v: &Vec<char>, start: usize, end: usize) -> (r: String)
    requires
        start <= end <= v@.len(),
    ensures
        r@ == v@.subrange(start as int, end as int),
{
    let mut r = String::new();
    let mut i = start;
    while i < end
        invariant
            start <= i <= end <= v@.len(),
            r@ == v@.subrange(start as int, i as int),
        decreases end - i,
    {
        push_char(&mut r, v[i]);
        assert(v@.subrange(start as int, i + 1) =~= v@.subrange(start as int, i as int).push(v@[i as int]));
        i = i + 1;
    }
    r
}

proof fn lemma_trim_start_skip(s: Seq<char>, i: int)
    requires
        0 <= i < s.len(),
        is_ws(s[i]),
    ensures
        trim_start(s.subrange(i, s.len() as int)) == trim_start(s.subrange(i + 1, s.len() as int)),
{
    assert(s.subrange(i, s.len() as int).drop_first() =~= s.subrange(i + 1, s.len() as int));
}

proof fn lemma_trim_end_skip(s: Seq<char>, j: int)
    requires
        0 < j <= s.len(),
        is_ws(s[j - 1]),
    ensures
        trim_end(s.subrange(0, j)) == trim_end(s.subrange(0, j - 1)),
{
    assert(s.subrange(0, j).drop_last() =~= s.subrange(0, j - 1));
}

/// The index of the first character of `v[..end]` that is not whitespace, or `end`.
fn skip_leading_ws(v: &Vec<char>, end: usize) -> (k: usize)
    requires
        end <= v@.len(),
    ensures
        k <= end,
        trim_start(v@.subrange(0, end as int)) == v@.subrange(k as int, end as int),
{
    let ghost s = v@.subrange(0, end as int);
    let mut k: usize = 0;
    assert(s.subrange(0, s.len() as int) =~= s);
    while k < end && is_whitespace(v[k])
        invariant
            k <= end <= v@.len(),
            s == v@.subrange(0, end as int),
            trim_start(s) == trim_start(s.subrange(k as int, end as int)),
        decreases end - k,
    {
        proof { lemma_trim_start_skip(s, k as int); }
        k = k + 1;
    }
    assert(s.subrange(k as int, end as int) =~= v@.subrange(k as int, end as int));
    k
}

/// The index just past the last character of `v[start..end]` that is not whitespace, or `start`.
fn skip_trailing_ws(v: &Vec<char>, start: usize, end: usize) -> (k: usize)
    requires
        start <= end <= v@.len(),
    ensures
        start <= k <= end,
        trim_end(v@.subrange(start as int, end as int)) == v@.subrange(start as int, k as int),
{
    let ghost s = v@.subrange(start as int, end as int);
    let mut k: usize = end;
    assert(s.subrange(0, end - start) =~= s);
    while k > start && is_whitespace(v[k - 1])
        invariant
            start <= k <= end <= v@.len(),
            s == v@.subrange(start as int, end as int),
            trim_end(s) == trim_end(s.subrange(0, k - start)),
        decreases k,
    {
        proof { lemma_trim_end_skip(s, k - start); }
        k = k - 1;
    }
    assert(s.subrange(0, k - start) =~= v@.subrange(start as int, k as int));
    k
}

/// `s` with leading and trailing whitespace removed, as `str::trim` does.
pub fn trim_str(s: &str) -> (r: String)
    ensures
        r@ == trim(s@),
{
    let v = to_chars(s);
    let a = skip_leading_ws(&v, v.len());
    let b = skip_trailing_ws(&v, a, v.len());
    proof {
        assert(v@.subrange(0, v@.len() as int) =~= v@);
    }
    string_from_chars(&v, a, b)
}

/// `s` with trailing whitespace removed, as `str::trim_end` does.
pub fn trim_end_str(s: &str) -> (r: String)
    ensures
        r@ == trim_end(s@),
{
    let v = to_chars(s);
    let b = skip_trailing_ws(&v, 0, v.len());
    proof {
        assert(v@.subrange(0, v@.len() as int) =~= v@);
    }
    string_from_chars(&v, 0, b)
}

/// The strings of `parts` joined with `sep` between each two neighbours, as `[String]::join` does.
pub fn join_strings(parts: &[String], sep: &str) -> (r: String)
    ensures
        r@ == join(views(parts@), sep@),
{
    let mut r = String::new();
    let mut i: usize = 0;
    while i < parts.len()
        invariant
            i <= parts@.len(),
            r@ == join(views(parts@.subrange(0, i as int)), sep@),
        decreases parts@.len() - i,
    {
        if i > 0 {
            r.append(sep);
        }
        r.append(parts[i].as_str());
        proof {
            let pre = views(parts@.subrange(0, i as int));
            let post = views(parts@.subrange(0, i + 1));
            assert(post.drop_last() =~= pre);
            assert(post.last() == parts@[i as int]@);
            if i == 0 {
                assert(post =~= seq![parts@[0]@]);
            }
        }
        i = i + 1;
    }
    assert(parts@.subrange(0, parts@.len() as int) =~= parts@);
    r
}

} // verus!

verus! {

/// Whether two string slices hold the same characters.
pub fn str_eq(a: &str, b: &str) -> (eq: bool)
    ensures
        eq == (a@ == b@),
{
    let x = to_chars(a);
    let y = to_chars(b);
    if x.len() != y.len() {
        return false;
    }
    let mut i: usize = 0;
    while i < x.len()
        invariant
            x@ == a@,
            y@ == b@,
            x@.len() == y@.len(),
            i <= x@.len(),
            forall|j: int| 0 <= j < i ==> x@[j] == y@[j],
        decreases x@.len() - i,
    {
        if x[i] != y[i] {
            return false;
        }
        i = i + 1;
    }
    assert(x@ =~= y@);
    true
}

} // verus!

verus! {

/// `s` with every leading copy of `p` removed, as `str::trim_start_matches` does.
pub open spec fn strip_prefixes(s: Seq<char>, p: Seq<char>) -> Seq<char>
    decreases s.len(),
{
    if p.len() > 0 && p.len() <= s.len() && s.subrange(0, p.len() as int) == p {
        strip_prefixes(s.subrange(p.len() as int, s.len() as int), p)
    } else {
        s
    }
}

/// `s` with every trailing `c` removed, as `str::trim_end_matches` does for a char.
pub open spec fn strip_suffixes(s: Seq<char>, c: char) -> Seq<char>
    decreases s.len(),
{
    if s.len() > 0 && s.last() == c {
        strip_suffixes(s.drop_last(), c)
    } else {
        s
    }
}

/// `x` without one trailing carriage return.
pub open spec fn strip_one_cr(x: Seq<char>) -> Seq<char> {
    if x.len() > 0 && x.last() == '\r' {
        x.drop_last()
    } else {
        x
    }
}

/// The lines of `s`, as `str::lines` gives them: split at each `\n`, one `\r`
/// before a `\n` dropped, and no empty last line after a final `\n`.
pub open spec fn lines(s: Seq<char>) -> Seq<Seq<char>> {
    let p = crate::paths::split_on(s, '\n');
    let full = p.drop_last().map_values(|x: Seq<char>| strip_one_cr(x));
    if p.last().len() > 0 {
        full.push(p.last())
    } else {
        full
    }
}

/// Whether `p` occurs in `v` at position `k`.
fn occurs_at(v: &Vec<char>, k: usize, p: &Vec<char>) -> (b: bool)
    requires
        k + p@.len() <= v@.len(),
    ensures
        b == (v@.subrange(k as int, k + p@.len()) == p@),
{
    let n = v.len();
    let mut j: usize = 0;
    while j < p.len()
        invariant
            n == v@.len(),
            k + p@.len() <= v@.len(),
            j <= p@.len(),
            forall|t: int| 0 <= t < j ==> v@[k + t] == p@[t],
        decreases p@.len() - j,
    {
        if v[k + j] != p[j] {
            assert(v@.subrange(k as int, k + p@.len())[j as int] != p@[j as int]);
            return false;
        }
        j = j + 1;
    }
    assert(v@.subrange(k as int, k + p@.len()) =~= p@);
    true
}

/// `v[start..]` with every leading copy of `p` removed, as a start index into `v`.
pub fn skip_prefixes(v: &Vec<char>, start: usize, p: &Vec<char>) -> (k: usize)
    requires
        start <= v@.len(),
    ensures
        start <= k <= v@.len(),
        strip_prefixes(v@.subrange(start as int, v@.len() as int), p@) == v@.subrange(k as int, v@.len() as int),
{
    let n = v.len();
    let mut k = start;
    while p.len() > 0 && p.len() <= n - k && occurs_at(v, k, p)
        invariant
            n == v@.len(),
            start <= k <= n,
            strip_prefixes(v@.subrange(start as int, n as int), p@) == strip_prefixes(v@.subrange(k as int, n as int), p@),
        decreases n - k,
    {
        proof {
            let t = v@.subrange(k as int, n as int);
            assert(t.subrange(0, p@.len() as int) =~= v@.subrange(k as int, k + p@.len()));
            assert(t.subrange(p@.len() as int, t.len() as int) =~= v@.subrange(k + p@.len(), n as int));
        }
        k = k + p.len();
    }
    proof {
        let t = v@.subrange(k as int, n as int);
        if p@.len() > 0 && p@.len() <= n - k {
            assert(t.subrange(0, p@.len() as int) =~= v@.subrange(k as int, k + p@.len()));
        }
    }
    k
}

/// `v[..end]` with every trailing `c` removed, as an end index into `v`.
pub fn skip_suffixes(v: &Vec<char>, end: usize, c: char) -> (k: usize)
    requires
        end <= v@.len(),
    ensures
        k <= end,
        strip_suffixes(v@.subrange(0, end as int), c) == v@.subrange(0, k as int),
{
    let mut k = end;
    while k > 0 && v[k - 1] == c
        invariant
            k <= end <= v@.len(),
            strip_suffixes(v@.subrange(0, end as int), c) == strip_suffixes(v@.subrange(0, k as int), c),
        decreases k,
    {
        assert(v@.subrange(0, k as int).drop_last() =~= v@.subrange(0, k - 1));
        k = k - 1;
    }
    k
}

/// The lines of `s`, as `str::lines` gives them, each as a character vector.
pub fn split_lines(s: &Vec<char>) -> (r: Vec<Vec<char>>)
    ensures
        r@.map_values(|x: Vec<char>| x@) == lines(s@),
{
    let pieces = crate::paths::split_chars(s, '\n');
    let ghost p = pieces@.map_values(|x: Vec<char>| x@);
    proof { crate::paths::lemma_split_nonempty(s@, '\n'); }
    let mut r: Vec<Vec<char>> = Vec::new();
    let mut i: usize = 0;
    let n = pieces.len() - 1;
    while i < n
        invariant
            n + 1 == pieces@.len(),
            p == pieces@.map_values(|x: Vec<char>| x@),
            i <= n,
            r@.map_values(|x: Vec<char>| x@) == p.drop_last().subrange(0, i as int).map_values(|x: Seq<char>| strip_one_cr(x)),
        decreases n - i,
    {
        let piece = &pieces[i];
        let mut line: Vec<char> = Vec::new();
        let end = if piece.len() > 0 && piece[piece.len() - 1] == '\r' { piece.len() - 1 } else { piece.len() };
        let mut j: usize = 0;
        while j < end
            invariant
                i < pieces@.len(),
                *piece == pieces@[i as int],
                end <= piece@.len(),
                j <= end,
                line@ == piece@.subrange(0, j as int),
            decreases end - j,
        {
            line.push(piece[j]);
            assert(line@ =~= piece@.subrange(0, j + 1));
            j = j + 1;
        }
        let ghost before = r@.map_values(|x: Vec<char>| x@);
        proof {
            if piece@.len() > 0 && piece@.last() == '\r' {
                assert(line@ =~= piece@.drop_last());
            } else {
                assert(line@ =~= piece@);
            }
        }
        r.push(line);
        proof {
            let f = |x: Seq<char>| strip_one_cr(x);
            assert(p.drop_last()[i as int] == piece@);
            assert(p.drop_last().subrange(0, i + 1).map_values(f) =~= p.drop_last().subrange(0, i as int).map_values(f).push(f(piece@)));
            assert(r@.map_values(|x: Vec<char>| x@) =~= before.push(line@));
        }
        i = i + 1;
    }
    assert(p.drop_last().subrange(0, n as int) =~= p.drop_last());
    let last = &pieces[n];
    if last.len() > 0 {
        let ghost before = r@.map_values(|x: Vec<char>| x@);
        let mut copy: Vec<char> = Vec::new();
        let mut j: usize = 0;
        while j < last.len()
            invariant
                n + 1 == pieces@.len(),
                *last == pieces@[n as int],
                j <= last@.len(),
                copy@ == last@.subrange(0, j as int),
            decreases last@.len() - j,
        {
            copy.push(last[j]);
            assert(copy@ =~= last@.subrange(0, j + 1));
            j = j + 1;
        }
        assert(copy@ =~= last@);
        r.push(copy);
        assert(r@.map_values(|x: Vec<char>| x@) =~= before.push(p.last()));
    }
    r
}

} // verus!

verus! {

/// The first position at or after `i` where `sep` occurs in `s`, or -1.
pub open spec fn find_from(s: Seq<char>, sep: Seq<char>, i: int) -> int
    decreases s.len() + 1 - i,
{
    if i < 0 || i + sep.len() > s.len() {
        -1
    } else if s.subrange(i, i + sep.len()) == sep {
        i
    } else {
        find_from(s, sep, i + 1)
    }
}

/// The pieces of `s` between the non-overlapping occurrences of `sep`, found
/// left to right, as `str::split` gives them for a non-empty separator.
pub open spec fn split_str(s: Seq<char>, sep: Seq<char>) -> Seq<Seq<char>>
    decreases s.len(),
{
    let k = find_from(s, sep, 0);
    if sep.len() == 0 || k < 0 || k + sep.len() > s.len() {
        seq![s]
    } else {
        seq![s.subrange(0, k)] + split_str(s.subrange(k + sep.len(), s.len() as int), sep)
    }
}

pub proof fn lemma_split_str_nonempty(s: Seq<char>, sep: Seq<char>)
    ensures
        split_str(s, sep).len() >= 1,
{
}

pub proof fn lemma_find_from_range(s: Seq<char>, sep: Seq<char>, i: int)
    requires
        0 <= i,
    ensures
        find_from(s, sep, i) == -1 || (i <= find_from(s, sep, i) && find_from(s, sep, i) + sep.len() <= s.len()
            && s.subrange(find_from(s, sep, i), find_from(s, sep, i) + sep.len()) == sep),
    decreases s.len() + 1 - i,
{
    if i + sep.len() <= s.len() && s.subrange(i, i + sep.len()) != sep {
        lemma_find_from_range(s, sep, i + 1);
    }
}

proof fn lemma_find_from_shift(s: Seq<char>, sep: Seq<char>, base: int, i: int)
    requires
        0 <= base <= i,
        base <= s.len(),
    ensures
        find_from(s.subrange(base, s.len() as int), sep, i - base) == if find_from(s, sep, i) < 0 { -1 } else { find_from(s, sep, i) - base },
    decreases s.len() + 1 - i,
{
    let t = s.subrange(base, s.len() as int);
    if i + sep.len() <= s.len() {
        assert(t.subrange(i - base, i - base + sep.len()) =~= s.subrange(i, i + sep.len()));
        if s.subrange(i, i + sep.len()) != sep {
            lemma_find_from_shift(s, sep, base, i + 1);
        }
    }
}

/// The pieces of `s` split at `sep`, as `str::split` gives them.
pub fn split_on_str(s: &str, sep: &str) -> (r: Vec<String>)
    requires
        sep@.len() > 0,
    ensures
        views(r@) == split_str(s@, sep@),
{
    let v = to_chars(s);
    let p = to_chars(sep);
    let n = v.len();
    let mut r: Vec<String> = Vec::new();
    let mut start: usize = 0;
    let mut i: usize = 0;
    assert(v@.subrange(0, n as int) =~= v@);
    while i < n
        invariant
            n == v@.len(),
            v@ == s@,
            p@ == sep@,
            p@.len() > 0,
            start <= i <= n,
            find_from(v@, p@, start as int) == find_from(v@, p@, i as int),
            split_str(s@, sep@) == views(r@) + split_str(v@.subrange(start as int, n as int), p@),
        decreases n - i,
    {
        if p.len() <= n - i && occurs_at(&v, i, &p) {
            proof {
                lemma_find_from_shift(v@, p@, start as int, start as int);
                let t = v@.subrange(start as int, n as int);
                assert(t.subrange(0, i - start) =~= v@.subrange(start as int, i as int));
                assert(t.subrange(i - start + p@.len(), t.len() as int) =~= v@.subrange(i + p@.len(), n as int));
            }
            let ghost before = views(r@);
            r.push(string_from_chars(&v, start, i));
            assert(views(r@) =~= before.push(v@.subrange(start as int, i as int)));
            proof {
                let t = v@.subrange(start as int, n as int);
                assert(split_str(t, p@) =~= seq![v@.subrange(start as int, i as int)] + split_str(v@.subrange(i + p@.len(), n as int), p@));
                assert(views(r@) + split_str(v@.subrange(i + p@.len(), n as int), p@) =~= before + split_str(t, p@));
                assert(v@.subrange(i + p@.len(), n as int).subrange(0, n - (i + p@.len())) =~= v@.subrange(i + p@.len(), n as int));
            }
            start = i + p.len();
            i = start;
        } else {
            i = i + 1;
        }
    }
    proof {
        lemma_find_from_shift(v@, p@, start as int, start as int);
        let t = v@.subrange(start as int, n as int);
        assert(find_from(t, p@, 0) == -1);
    }
    let ghost before = views(r@);
    r.push(string_from_chars(&v, start, n));
    assert(views(r@) =~= before.push(v@.subrange(start as int, n as int)));
    assert(views(r@) =~= before + seq![v@.subrange(start as int, n as int)]);
    r
}

} // verus!

verus! {

/// A copy of a vector of strings.
pub fn clone_strings(v: &Vec<String>) -> (r: Vec<String>)
    ensures
        views(r@) == views(v@),
{
    let mut r: Vec<String> = Vec::new();
    let mut i: usize = 0;
    while i < v.len()
        invariant
            i <= v@.len(),
            views(r@) == views(v@).subrange(0, i as int),
        decreases v@.len() - i,
    {
        let ghost before = views(r@);
        r.push(v[i].clone());
        assert(views(r@) =~= before.push(v@[i as int]@));
        assert(views(r@) =~= views(v@).subrange(0, i + 1));
        i = i + 1;
    }
    assert(views(v@).subrange(0, v@.len() as int) =~= views(v@));
    r
}

} // verus!

verus! {

/// `s` with every non-overlapping occurrence of `from`, found left to right,
/// replaced by `to`, as `str::replace` does for a non-empty pattern.
pub open spec fn replace_all(s: Seq<char>, from: Seq<char>, to: Seq<char>) -> Seq<char> {
    join(split_str(s, from), to)
}

/// `s` with every occurrence of `from` replaced by `to`, as `str::replace` does.
pub fn replace_str(s: &str, from: &str, to: &str) -> (r: String)
    requires
        from@.len() > 0,
    ensures
        r@ == replace_all(s@, from@, to@),
{
    let pieces = split_on_str(s, from);
    join_strings(pieces.as_slice(), to)
}

} // verus!

verus! {

/// Whether `p` occurs somewhere in `s`.
pub fn contains_text(s: &str, p: &str) -> (b: bool)
    ensures
        b == (find_from(s@, p@, 0) >= 0),
{
    let v = to_chars(s);
    let q = to_chars(p);
    let n = v.len();
    let m = q.len();
    if m > n {
        return false;
    }
    let mut k: usize = 0;
    while k <= n - m
        invariant
            n == v@.len(),
            m == q@.len(),
            m <= n,
            v@ == s@,
            q@ == p@,
            find_from(s@, p@, 0) == find_from(s@, p@, k as int),
        decreases n + 1 - k,
    {
        if occurs_at(&v, k, &q) {
            return true;
        }
        if k == n - m {
            assert(find_from(s@, p@, k + 1) == -1);
            return false;
        }
        k = k + 1;
    }
    false
}

} // verus!
