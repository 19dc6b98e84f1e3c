//! File paths as text, as each platform reads them: `/` between the parts, and
//! on Windows `\` as well, behind a drive or a share. A `\\?\` or `\\.\` at the
//! start of a path on Windows is read as a share like any other.

use crate::platform::Platform;
use crate::text::{self, ascii_lower, is_lower, is_upper};
use vstd::prelude::*;

verus! {

/// Whether `c` stands between two parts of a path.
pub open spec fn is_separator(c: char, here: Platform) -> bool {
    c == '/' || (c == '\\' && here == Platform::Windows)
}

/// Where the first separator of `p` from `i` on is, or where `p` ends.
pub open spec fn next_separator(p: Seq<char>, i: int, here: Platform) -> int
    decreases p.len() - i,
{
    if i >= p.len() || is_separator(p[i], here) {
        i
    } else {
        next_separator(p, i + 1, here)
    }
}

/// How much of `p` is a prefix that names a drive, `C:`, or a share,
/// `\\server\share`. Only Windows has them.
pub open spec fn prefix_len(p: Seq<char>, here: Platform) -> int {
    if here != Platform::Windows || p.len() < 2 {
        0
    } else if is_separator(p[0], here) && is_separator(p[1], here) {
        let server = next_separator(p, 2, here);
        let share = next_separator(p, server + 1, here);
        if server > 2 && server < p.len() && share > server + 1 {
            share
        } else {
            0
        }
    } else if (is_lower(p[0]) || is_upper(p[0])) && p[1] == ':' {
        2
    } else {
        0
    }
}

/// `p`, whose prefix is `from` long, without trailing separators and without
/// trailing `.` parts.
pub open spec fn trimmed(p: Seq<char>, from: int, here: Platform) -> Seq<char>
    decreases p.len(),
{
    if p.len() > from + 1 && p.len() > 1 && (is_separator(p.last(), here) || (p.last() == '.'
        && is_separator(p[p.len() - 2], here))) {
        trimmed(p.drop_last(), from, here)
    } else {
        p
    }
}

/// `p` without trailing separators and without trailing `.` parts.
pub open spec fn bare(p: Seq<char>, here: Platform) -> Seq<char> {
    trimmed(p, prefix_len(p, here), here)
}

/// Where the last part of `p`, whose prefix is `from` long, starts.
pub open spec fn part_from(p: Seq<char>, from: int, here: Platform) -> int
    decreases p.len(),
{
    if p.len() <= from || p.len() == 0 || is_separator(p.last(), here) {
        p.len() as int
    } else {
        part_from(p.drop_last(), from, here)
    }
}

/// What stands before the last part of `p`.
pub open spec fn folder_of(p: Seq<char>, here: Platform) -> Seq<char> {
    let b = bare(p, here);
    b.take(part_from(b, prefix_len(p, here), here))
}

/// The last part of `p`.
pub open spec fn last_part(p: Seq<char>, here: Platform) -> Seq<char> {
    let b = bare(p, here);
    b.skip(part_from(b, prefix_len(p, here), here))
}

/// Where the last dot of `s` is, or -1.
pub open spec fn last_dot(s: Seq<char>) -> int
    decreases s.len(),
{
    if s.len() == 0 {
        -1
    } else if s.last() == '.' {
        s.len() - 1
    } else {
        last_dot(s.drop_last())
    }
}

/// The name of the file `p` stands for; a path that ends in the root, in `.`
/// or in `..` names none.
pub open spec fn file_name_of(p: Seq<char>, here: Platform) -> Option<Seq<char>> {
    let name = last_part(p, here);
    if name.len() == 0 || name == seq!['.'] || name == seq!['.', '.'] {
        None
    } else {
        Some(name)
    }
}

/// A file's name up to its last dot; a name whose only dot comes first is all
/// stem.
pub open spec fn stem_of(name: Seq<char>) -> Seq<char> {
    if last_dot(name) <= 0 {
        name
    } else {
        name.take(last_dot(name))
    }
}

/// What follows the last dot of a file's name.
pub open spec fn extension_of(name: Seq<char>) -> Option<Seq<char>> {
    if last_dot(name) <= 0 {
        None
    } else {
        Some(name.skip(last_dot(name) + 1))
    }
}

/// Whether nothing but a prefix and a root is left of `b`, a path without
/// trailing separators whose prefix is `from` long.
pub open spec fn is_top(b: Seq<char>, from: int, here: Platform) -> bool {
    b.len() <= from || (b.len() == from + 1 && is_separator(b.last(), here))
}

/// The directory `p` is in; a root, a bare prefix and the empty path are in none.
pub open spec fn parent_of(p: Seq<char>, here: Platform) -> Option<Seq<char>> {
    let from = prefix_len(p, here);
    if is_top(bare(p, here), from, here) {
        None
    } else {
        Some(trimmed(folder_of(p, here), from, here))
    }
}

/// What a path is joined with on this platform.
pub open spec fn separator_of(here: Platform) -> char {
    if here == Platform::Windows {
        '\\'
    } else {
        '/'
    }
}

/// `name` inside the directory `dir`. A name with a prefix of its own stands for
/// itself, and one that starts at the root keeps only the prefix of `dir`.
pub open spec fn join_of(dir: Seq<char>, name: Seq<char>, here: Platform) -> Seq<char> {
    let from = prefix_len(dir, here);
    if prefix_len(name, here) > 0 {
        name
    } else if name.len() > 0 && is_separator(name[0], here) {
        dir.take(from) + name
    } else if dir.len() == 0 || is_separator(dir.last(), here) || (from == 2 && dir.len() == 2) {
        dir + name
    } else {
        dir.push(separator_of(here)) + name
    }
}

/// `p` with the extension of its file replaced; a path that names no file is
/// left as it is.
pub open spec fn with_extension_of(p: Seq<char>, ext: Seq<char>, here: Platform) -> Seq<char> {
    match file_name_of(p, here) {
        Some(name) => folder_of(p, here) + stem_of(name) + "."@ + ext,
        None => p,
    }
}

/// The parts of `p` behind its prefix, which is `from` long, and its root: empty
/// parts are none, and a `.` counts only at the start of a path without a root.
pub open spec fn parts_from(p: Seq<char>, from: int, here: Platform) -> Seq<Seq<char>>
    decreases p.len(),
{
    let b = trimmed(p, from, here);
    let k = part_from(b, from, here);
    if is_top(b, from, here) || !(0 <= k < b.len() <= p.len()) {
        Seq::empty()
    } else {
        parts_from(b.take(k), from, here).push(b.skip(k))
    }
}

/// Whether `p` starts at a root, which every share has.
pub open spec fn is_rooted(p: Seq<char>, here: Platform) -> bool {
    let from = prefix_len(p, here);
    from > 2 || (p.len() > from && is_separator(p[from], here))
}

/// A character of a prefix as prefixes are compared: one separator is as good as
/// the other, and the case of a drive's letter does not matter.
pub open spec fn prefix_char(c: char, drive: bool, here: Platform) -> char {
    if is_separator(c, here) {
        '/'
    } else if drive {
        ascii_lower(c)
    } else {
        c
    }
}

/// The prefix of `p`, as prefixes are compared.
pub open spec fn prefix_of(p: Seq<char>, here: Platform) -> Seq<char> {
    let from = prefix_len(p, here);
    Seq::new(from as nat, |i: int| prefix_char(p[i], from == 2, here))
}

/// Whether two texts are the same path, part by part.
pub open spec fn is_same_path(a: Seq<char>, b: Seq<char>, here: Platform) -> bool {
    &&& prefix_of(a, here) == prefix_of(b, here)
    &&& is_rooted(a, here) == is_rooted(b, here)
    &&& parts_from(a, prefix_len(a, here), here) == parts_from(b, prefix_len(b, here), here)
}

proof fn lemma_next_separator(p: Seq<char>, i: int, here: Platform)
    requires
        0 <= i,
    ensures
        i <= next_separator(p, i, here),
        i <= p.len() ==> next_separator(p, i, here) <= p.len(),
        next_separator(p, i, here) < p.len() ==> is_separator(
            p[next_separator(p, i, here)],
            here,
        ),
        forall|j: int|
            i <= j < next_separator(p, i, here) && j < p.len() ==> !is_separator(
                #[trigger] p[j],
                here,
            ),
    decreases p.len() - i,
{
    if i < p.len() && !is_separator(p[i], here) {
        lemma_next_separator(p, i + 1, here);
    }
}

proof fn lemma_prefix_len(p: Seq<char>, here: Platform)
    ensures
        0 <= prefix_len(p, here) <= p.len(),
        prefix_len(p, here) != 1,
        prefix_len(p, here) > 2 && prefix_len(p, here) < p.len() ==> is_separator(
            p[prefix_len(p, here)],
            here,
        ),
{
    if p.len() >= 2 {
        lemma_next_separator(p, 2, here);
        lemma_next_separator(p, next_separator(p, 2, here) + 1, here);
    }
}

proof fn lemma_trimmed(p: Seq<char>, from: int, here: Platform)
    requires
        0 <= from <= p.len(),
    ensures
        from <= trimmed(p, from, here).len() <= p.len(),
        trimmed(p, from, here) == p.take(trimmed(p, from, here).len() as int),
        trimmed(p, from, here).len() > from + 1 ==> !is_separator(
            trimmed(p, from, here).last(),
            here,
        ),
    decreases p.len(),
{
    if p.len() > from + 1 && p.len() > 1 && (is_separator(p.last(), here) || (p.last() == '.'
        && is_separator(p[p.len() - 2], here))) {
        lemma_trimmed(p.drop_last(), from, here);
        let n = trimmed(p, from, here).len() as int;
        assert(p.drop_last().take(n) == p.take(n));
    } else {
        assert(p.take(p.len() as int) == p);
    }
}

/// What stands before a last part is a prefix, or ends in a separator.
proof fn lemma_part_from(p: Seq<char>, from: int, here: Platform)
    requires
        0 <= from <= p.len(),
    ensures
        from <= part_from(p, from, here) <= p.len(),
        part_from(p, from, here) > from ==> is_separator(
            p[part_from(p, from, here) - 1],
            here,
        ),
        forall|i: int|
            part_from(p, from, here) <= i < p.len() ==> !is_separator(#[trigger] p[i], here),
    decreases p.len(),
{
    if p.len() > from && !is_separator(p.last(), here) {
        let d = p.drop_last();
        lemma_part_from(d, from, here);
        assert forall|i: int| part_from(p, from, here) <= i < p.len() implies !is_separator(
            #[trigger] p[i],
            here,
        ) by {
            if i < d.len() {
                assert(d[i] == p[i]);
            }
        }
    }
}

proof fn lemma_part_at(p: Seq<char>, from: int, k: int, here: Platform)
    requires
        0 <= from <= k <= p.len(),
        k > from ==> is_separator(p[k - 1], here),
        forall|i: int| k <= i < p.len() ==> !is_separator(#[trigger] p[i], here),
    ensures
        part_from(p, from, here) == k,
    decreases p.len(),
{
    if p.len() > k {
        assert(!is_separator(p[p.len() - 1], here));
        let d = p.drop_last();
        assert forall|i: int| k <= i < d.len() implies !is_separator(#[trigger] d[i], here) by {
            assert(d[i] == p[i]);
        }
        lemma_part_at(d, from, k, here);
    }
}

proof fn lemma_last_dot(s: Seq<char>)
    ensures
        -1 <= last_dot(s) < s.len(),
        last_dot(s) >= 0 ==> s[last_dot(s)] == '.',
    decreases s.len(),
{
    if s.len() > 0 && s.last() != '.' {
        lemma_last_dot(s.drop_last());
    }
}

fn separates(c: char, here: Platform) -> (r: bool)
    ensures
        r == is_separator(c, here),
{
    c == '/' || (c == '\\' && here == Platform::Windows)
}

fn separator_from(v: &Vec<char>, i: usize, here: Platform) -> (k: usize)
    requires
        i <= v@.len(),
    ensures
        i <= k <= v@.len(),
        k == next_separator(v@, i as int, here),
{
    let mut k: usize = i;
    while k < v.len() && !separates(v[k], here)
        invariant
            i <= k <= v@.len(),
            next_separator(v@, i as int, here) == next_separator(v@, k as int, here),
        decreases v@.len() - k,
    {
        k += 1;
    }
    k
}

fn prefix(v: &Vec<char>, here: Platform) -> (n: usize)
    ensures
        n <= v@.len(),
        n == prefix_len(v@, here),
{
    proof {
        lemma_prefix_len(v@, here);
    }
    if here != Platform::Windows || v.len() < 2 {
        return 0;
    }
    let c = v[0];
    if separates(c, here) && separates(v[1], here) {
        let server: usize = separator_from(v, 2, here);
        if server > 2 && server < v.len() {
            let share: usize = separator_from(v, server + 1, here);
            if share > server + 1 {
                return share;
            }
        }
        return 0;
    }
    if (('a' <= c && c <= 'z') || ('A' <= c && c <= 'Z')) && v[1] == ':' {
        2
    } else {
        0
    }
}

fn trimmed_len(v: &Vec<char>, from: usize, to: usize, here: Platform) -> (n: usize)
    requires
        from <= to <= v@.len(),
    ensures
        from <= n <= to,
        trimmed(v@.take(to as int), from as int, here) == v@.take(n as int),
{
    let mut n: usize = to;
    while n > 1 && n - 1 > from && (separates(v[n - 1], here) || (v[n - 1] == '.' && separates(
        v[n - 2],
        here,
    )))
        invariant
            from <= n <= to <= v@.len(),
            trimmed(v@.take(to as int), from as int, here) == trimmed(
                v@.take(n as int),
                from as int,
                here,
            ),
        decreases n,
    {
        assert(v@.take(n as int).drop_last() == v@.take(n - 1));
        assert(v@.take(n as int).last() == v@[n - 1]);
        assert(v@.take(n as int)[n - 2] == v@[n - 2]);
        n -= 1;
    }
    if n > 0 {
        assert(v@.take(n as int).last() == v@[n - 1]);
    }
    if n > 1 {
        assert(v@.take(n as int)[n - 2] == v@[n - 2]);
    }
    n
}

fn part_start(v: &Vec<char>, from: usize, to: usize, here: Platform) -> (k: usize)
    requires
        from <= to <= v@.len(),
    ensures
        from <= k <= to,
        k == part_from(v@.take(to as int), from as int, here),
{
    let mut k: usize = to;
    while k > from && !separates(v[k - 1], here)
        invariant
            from <= k <= to <= v@.len(),
            part_from(v@.take(to as int), from as int, here) == part_from(
                v@.take(k as int),
                from as int,
                here,
            ),
        decreases k,
    {
        assert(v@.take(k as int).drop_last() == v@.take(k - 1));
        assert(v@.take(k as int).last() == v@[k - 1]);
        k -= 1;
    }
    assert(k > 0 ==> v@.take(k as int).last() == v@[k - 1]);
    k
}

fn dot_at(v: &Vec<char>) -> (r: Option<usize>)
    ensures
        match r {
            Some(k) => k == last_dot(v@),
            None => last_dot(v@) == -1,
        },
{
    let mut k: usize = v.len();
    assert(v@.take(k as int) == v@);
    while k > 0
        invariant
            k <= v@.len(),
            last_dot(v@) == last_dot(v@.take(k as int)),
        decreases k,
    {
        assert(v@.take(k as int).drop_last() == v@.take(k - 1));
        if v[k - 1] == '.' {
            return Some(k - 1);
        }
        k -= 1;
    }
    None
}

/// The bounds of the last part of `v`, trailing separators left out.
fn last_bounds(v: &Vec<char>, here: Platform) -> (r: (usize, usize))
    ensures
        r.0 <= r.1 <= v@.len(),
        prefix_len(v@, here) <= r.0,
        bare(v@, here) == v@.take(r.1 as int),
        folder_of(v@, here) == v@.take(r.0 as int),
        last_part(v@, here) == v@.subrange(r.0 as int, r.1 as int),
{
    assert(v@.take(v@.len() as int) == v@);
    let from: usize = prefix(v, here);
    let n: usize = trimmed_len(v, from, v.len(), here);
    let k: usize = part_start(v, from, n, here);
    assert(v@.take(n as int).take(k as int) == v@.take(k as int));
    assert(v@.take(n as int).skip(k as int) == v@.subrange(k as int, n as int));
    (k, n)
}

pub fn file_name(p: &str, here: Platform) -> (r: Option<String>)
    ensures
        text::opt_view(r) == file_name_of(p@, here),
{
    let v = text::chars_of(p);
    let (k, n) = last_bounds(&v, here);
    let name = text::string_from(&v, k, n);
    if n == k {
        return None;
    }
    if n - k == 1 && v[k] == '.' {
        assert(name@ =~= seq!['.']);
        return None;
    }
    if n - k == 2 && v[k] == '.' && v[k + 1] == '.' {
        assert(name@ =~= seq!['.', '.']);
        return None;
    }
    proof {
        if name@ == seq!['.'] {
            assert(name@[0] == v@[k as int]);
            assert(name@.len() == 1);
        }
        if name@ == seq!['.', '.'] {
            assert(name@[0] == v@[k as int] && name@[1] == v@[k + 1]);
            assert(name@.len() == 2);
        }
    }
    Some(name)
}

pub fn stem(name: &str) -> (r: String)
    ensures
        r@ == stem_of(name@),
{
    let v = text::chars_of(name);
    assert(v@.subrange(0, v@.len() as int) == v@);
    match dot_at(&v) {
        Some(k) => {
            proof {
                lemma_last_dot(v@);
            }
            if k > 0 {
                assert(v@.subrange(0, k as int) == v@.take(k as int));
                text::string_from(&v, 0, k)
            } else {
                text::string_from(&v, 0, v.len())
            }
        },
        None => text::string_from(&v, 0, v.len()),
    }
}

pub fn extension(name: &str) -> (r: Option<String>)
    ensures
        text::opt_view(r) == extension_of(name@),
{
    let v = text::chars_of(name);
    let n: usize = v.len();
    match dot_at(&v) {
        Some(k) => {
            proof {
                lemma_last_dot(v@);
            }
            if k > 0 {
                assert(v@.subrange(k + 1, v@.len() as int) == v@.skip(k + 1));
                Some(text::string_from(&v, k + 1, n))
            } else {
                None
            }
        },
        None => None,
    }
}

pub fn parent(p: &str, here: Platform) -> (r: Option<String>)
    ensures
        text::opt_view(r) == parent_of(p@, here),
{
    let v = text::chars_of(p);
    let from: usize = prefix(&v, here);
    let (k, n) = last_bounds(&v, here);
    proof {
        lemma_trimmed(v@, from as int, here);
    }
    if n <= from || (n - 1 == from && separates(v[n - 1], here)) {
        return None;
    }
    let m: usize = trimmed_len(&v, from, k, here);
    assert(v@.subrange(0, m as int) == v@.take(m as int));
    Some(text::string_from(&v, 0, m))
}

pub fn join(dir: &str, name: &str, here: Platform) -> (r: String)
    ensures
        r@ == join_of(dir@, name@, here),
{
    let d = text::chars_of(dir);
    let n = text::chars_of(name);
    let from: usize = prefix(&d, here);
    if prefix(&n, here) > 0 {
        return name.to_owned();
    }
    if n.len() > 0 && separates(n[0], here) {
        assert(d@.subrange(0, from as int) == d@.take(from as int));
        let mut out = text::string_from(&d, 0, from);
        out.append(name);
        return out;
    }
    let mut out = dir.to_owned();
    if d.len() > 0 && !separates(d[d.len() - 1], here) && !(from == 2 && d.len() == 2) {
        let c = if here == Platform::Windows {
            '\\'
        } else {
            '/'
        };
        text::push_char(&mut out, c);
    }
    out.append(name);
    out
}

/// `p` up to its last part.
pub fn folder(p: &str, here: Platform) -> (r: String)
    ensures
        r@ == folder_of(p@, here),
{
    let v = text::chars_of(p);
    let (k, _n) = last_bounds(&v, here);
    assert(v@.take(k as int) == v@.subrange(0, k as int));
    text::string_from(&v, 0, k)
}

pub fn with_extension(p: &str, ext: &str, here: Platform) -> (r: String)
    ensures
        r@ == with_extension_of(p@, ext@, here),
{
    match file_name(p, here) {
        Some(name) => {
            let mut out = folder(p, here);
            let s = stem(name.as_str());
            out.append(s.as_str());
            out.append(".");
            out.append(ext);
            out
        },
        None => p.to_owned(),
    }
}

/// Whether `a` up to `to_a` and `b` up to `to_b` have the same parts.
fn same_parts(
    a: &Vec<char>,
    from_a: usize,
    to_a: usize,
    b: &Vec<char>,
    from_b: usize,
    to_b: usize,
    here: Platform,
) -> (r: bool)
    requires
        from_a <= to_a <= a@.len(),
        from_b <= to_b <= b@.len(),
    ensures
        r == (parts_from(a@.take(to_a as int), from_a as int, here) == parts_from(
            b@.take(to_b as int),
            from_b as int,
            here,
        )),
    decreases to_a,
{
    let ghost p = parts_from(a@.take(to_a as int), from_a as int, here);
    let ghost q = parts_from(b@.take(to_b as int), from_b as int, here);
    let n: usize = trimmed_len(a, from_a, to_a, here);
    let m: usize = trimmed_len(b, from_b, to_b, here);
    let top_a: bool = n == from_a || (n - 1 == from_a && separates(a[n - 1], here));
    let top_b: bool = m == from_b || (m - 1 == from_b && separates(b[m - 1], here));
    let k: usize = part_start(a, from_a, n, here);
    let l: usize = part_start(b, from_b, m, here);
    proof {
        lemma_trimmed(a@.take(to_a as int), from_a as int, here);
        lemma_trimmed(b@.take(to_b as int), from_b as int, here);
        lemma_part_from(a@.take(n as int), from_a as int, here);
        lemma_part_from(b@.take(m as int), from_b as int, here);
        assert(a@.take(n as int).take(k as int) == a@.take(k as int));
        assert(b@.take(m as int).take(l as int) == b@.take(l as int));
        assert(a@.take(n as int).skip(k as int) == a@.subrange(k as int, n as int));
        assert(b@.take(m as int).skip(l as int) == b@.subrange(l as int, m as int));
        if n > 0 {
            assert(a@.take(n as int).last() == a@[n - 1]);
        }
        if m > 0 {
            assert(b@.take(m as int).last() == b@[m - 1]);
        }
    }
    if top_a || top_b {
        proof {
            if !top_a {
                assert(p.len() > 0);
            }
            if !top_b {
                assert(q.len() > 0);
            }
        }
        return top_a && top_b;
    }
    let x = text::string_from(a, k, n);
    let y = text::string_from(b, l, m);
    let rest: bool = same_parts(a, from_a, k, b, from_b, l, here);
    proof {
        assert(p.last() == x@ && q.last() == y@);
        assert(p.drop_last() == parts_from(a@.take(k as int), from_a as int, here));
        assert(q.drop_last() == parts_from(b@.take(l as int), from_b as int, here));
        if p.drop_last() == q.drop_last() && p.last() == q.last() {
            assert(p =~= p.drop_last().push(p.last()));
            assert(q =~= q.drop_last().push(q.last()));
        }
    }
    rest && text::same(x.as_str(), y.as_str())
}

fn prefix_text(v: &Vec<char>, here: Platform) -> (r: String)
    ensures
        r@ == prefix_of(v@, here),
{
    let from: usize = prefix(v, here);
    let mut out = String::new();
    let mut i: usize = 0;
    while i < from
        invariant
            i <= from <= v@.len(),
            from == prefix_len(v@, here),
            out@ == prefix_of(v@, here).take(i as int),
        decreases from - i,
    {
        let c = if separates(v[i], here) {
            '/'
        } else if from == 2 {
            text::lower_char(v[i])
        } else {
            v[i]
        };
        text::push_char(&mut out, c);
        assert(prefix_of(v@, here).take(i + 1) == prefix_of(v@, here).take(i as int).push(c));
        i += 1;
    }
    assert(prefix_of(v@, here).take(from as int) == prefix_of(v@, here));
    out
}

/// Whether two texts are the same path.
pub fn same_path(a: &str, b: &str, here: Platform) -> (r: bool)
    ensures
        r == is_same_path(a@, b@, here),
{
    let v = text::chars_of(a);
    let w = text::chars_of(b);
    let f: usize = prefix(&v, here);
    let g: usize = prefix(&w, here);
    let x = prefix_text(&v, here);
    let y = prefix_text(&w, here);
    let rooted_v: bool = f > 2 || (v.len() > f && separates(v[f], here));
    let rooted_w: bool = g > 2 || (w.len() > g && separates(w[g], here));
    assert(v@.take(v@.len() as int) == v@);
    assert(w@.take(w@.len() as int) == w@);
    text::same(x.as_str(), y.as_str()) && rooted_v == rooted_w && same_parts(
        &v,
        f,
        v.len(),
        &w,
        g,
        w.len(),
        here,
    )
}

proof fn lemma_next_separator_at(p: Seq<char>, i: int, k: int, here: Platform)
    requires
        0 <= i <= k <= p.len(),
        k < p.len() ==> is_separator(p[k], here),
        forall|j: int| i <= j < k ==> !is_separator(#[trigger] p[j], here),
    ensures
        next_separator(p, i, here) == k,
    decreases k - i,
{
    if i < k {
        assert(!is_separator(p[i], here));
        lemma_next_separator_at(p, i + 1, k, here);
    }
}

/// A path has the same prefix whichever plain name it ends in.
proof fn lemma_prefix_of_a_file(dir: Seq<char>, old_name: Seq<char>, name: Seq<char>, here: Platform)
    requires
        prefix_len(dir + old_name, here) <= dir.len(),
        dir.len() > prefix_len(dir + old_name, here) ==> is_separator(dir.last(), here),
        old_name.len() > 0,
        name.len() > 1,
        forall|i: int| 0 <= i < old_name.len() ==> !is_separator(#[trigger] old_name[i], here),
        forall|i: int| 0 <= i < name.len() ==> !is_separator(#[trigger] name[i], here),
        name[1] != ':',
    ensures
        prefix_len(dir + name, here) == prefix_len(dir + old_name, here),
{
    let p = dir + old_name;
    let q = dir + name;
    let from = prefix_len(p, here);
    let d = dir.len() as int;
    assert forall|i: int| d <= i < p.len() implies !is_separator(#[trigger] p[i], here) by {
        assert(p[i] == old_name[i - d]);
    }
    assert forall|i: int| d <= i < q.len() implies !is_separator(#[trigger] q[i], here) by {
        assert(q[i] == name[i - d]);
    }
    assert forall|i: int| 0 <= i < d implies #[trigger] q[i] == p[i] by {}
    if here == Platform::Windows && d >= 2 && is_separator(dir[0], here) && is_separator(
        dir[1],
        here,
    ) {
        assert(is_separator(p[0], here) && is_separator(p[1], here));
        assert(is_separator(q[0], here) && is_separator(q[1], here));
        lemma_next_separator(p, 2, here);
        let s = next_separator(p, 2, here);
        lemma_next_separator(p, s + 1, here);
        let e = next_separator(p, s + 1, here);
        if s < d {
            lemma_next_separator_at(q, 2, s, here);
            if e < d {
                lemma_next_separator_at(q, s + 1, e, here);
            } else {
                if s + 1 <= d {
                    assert forall|j: int| s + 1 <= j < q.len() implies !is_separator(
                        #[trigger] q[j],
                        here,
                    ) by {
                        if j < d {
                            assert(!is_separator(p[j], here));
                        }
                    }
                }
                if e < p.len() {
                    assert(is_separator(p[e], here));
                }
                assert(e == p.len());
                if from == 0 && s > 2 {
                    assert(e > s + 1);
                }
                if from > 0 {
                    assert(from == e);
                }
                lemma_next_separator_at(q, s + 1, q.len() as int, here);
            }
        } else {
            if s < p.len() {
                assert(is_separator(p[s], here));
            }
            assert forall|j: int| 2 <= j < q.len() implies !is_separator(#[trigger] q[j], here) by {
                if j < d {
                    assert(!is_separator(p[j], here));
                }
            }
            lemma_next_separator_at(q, 2, q.len() as int, here);
        }
    } else if here == Platform::Windows && d >= 2 {
        assert(p[0] == dir[0] && p[1] == dir[1] && q[0] == dir[0] && q[1] == dir[1]);
    } else if here == Platform::Windows && d == 1 {
        assert(is_separator(dir[0], here));
        assert(q[0] == dir[0] && q[1] == name[0]);
        assert(!is_separator(name[0], here));
        assert(p[0] == dir[0] && p[1] == old_name[0]);
    } else if here == Platform::Windows {
        assert(q =~= name);
        assert(!is_separator(name[0], here));
    }
}

/// A path cut behind its prefix has the same prefix.
proof fn lemma_prefix_kept(p: Seq<char>, n: int, here: Platform)
    requires
        prefix_len(p, here) <= n <= p.len(),
    ensures
        prefix_len(p.take(n), here) == prefix_len(p, here),
{
    let q = p.take(n);
    if here == Platform::Windows && p.len() >= 2 && is_separator(p[0], here) && is_separator(
        p[1],
        here,
    ) {
        lemma_next_separator(p, 2, here);
        let s = next_separator(p, 2, here);
        lemma_next_separator(p, s + 1, here);
        let e = next_separator(p, s + 1, here);
        if n >= 2 {
            if s < n {
                assert forall|j: int| 2 <= j < s implies !is_separator(#[trigger] q[j], here) by {
                    assert(q[j] == p[j]);
                }
                lemma_next_separator_at(q, 2, s, here);
                let f = if e < n {
                    e
                } else {
                    n
                };
                assert forall|j: int| s + 1 <= j < f implies !is_separator(#[trigger] q[j], here) by {
                    assert(q[j] == p[j]);
                }
                lemma_next_separator_at(q, s + 1, f, here);
            } else {
                assert forall|j: int| 2 <= j < n implies !is_separator(#[trigger] q[j], here) by {
                    assert(q[j] == p[j]);
                }
                lemma_next_separator_at(q, 2, n, here);
            }
        }
    }
}

/// A plain name put in the place of a path's file is the name of the file there,
/// and what stands before it stays.
pub proof fn lemma_renamed(p: Seq<char>, name: Seq<char>, here: Platform)
    requires
        file_name_of(p, here) is Some,
        name.len() > 1,
        forall|i: int| 0 <= i < name.len() ==> !is_separator(#[trigger] name[i], here),
        name[1] != ':',
        name.last() != '.',
    ensures
        file_name_of(folder_of(p, here) + name, here) == Some(name),
        folder_of(folder_of(p, here) + name, here) == folder_of(p, here),
{
    let from = prefix_len(p, here);
    let b = bare(p, here);
    lemma_prefix_len(p, here);
    lemma_trimmed(p, from, here);
    lemma_part_from(b, from, here);
    let k = part_from(b, from, here);
    let dir = folder_of(p, here);
    let old_name = last_part(p, here);
    assert(dir + old_name =~= b);
    lemma_prefix_kept(p, b.len() as int, here);
    assert(b == p.take(b.len() as int));
    assert forall|i: int| 0 <= i < old_name.len() implies !is_separator(
        #[trigger] old_name[i],
        here,
    ) by {
        assert(old_name[i] == b[k + i]);
    }
    if k > from {
        assert(dir.last() == b[k - 1]);
    }
    lemma_prefix_of_a_file(dir, old_name, name, here);
    let q = dir + name;
    assert(prefix_len(q, here) == from);
    assert(q.last() == name.last());
    assert(!is_separator(name[name.len() - 1], here));
    assert(trimmed(q, from, here) == q);
    assert forall|i: int| dir.len() <= i < q.len() implies !is_separator(#[trigger] q[i], here) by {
        assert(q[i] == name[i - dir.len()]);
    }
    if dir.len() > from {
        assert(q[dir.len() - 1] == dir.last());
    }
    lemma_part_at(q, from, dir.len() as int, here);
    assert(q.skip(dir.len() as int) =~= name);
    assert(q.take(dir.len() as int) =~= dir);
    if name == seq!['.', '.'] {
        assert(name.last() == '.');
    }
}

/// A file's name has something in it and no separator.
pub proof fn lemma_a_file_name_is_plain(p: Seq<char>, here: Platform)
    requires
        file_name_of(p, here) is Some,
    ensures
        file_name_of(p, here)->0.len() > 0,
        forall|i: int|
            0 <= i < file_name_of(p, here)->0.len() ==> !is_separator(
                #[trigger] file_name_of(p, here)->0[i],
                here,
            ),
{
    let from = prefix_len(p, here);
    lemma_prefix_len(p, here);
    lemma_trimmed(p, from, here);
    let b = bare(p, here);
    lemma_part_from(b, from, here);
    let k = part_from(b, from, here);
    let name = file_name_of(p, here)->0;
    assert forall|i: int| 0 <= i < name.len() implies !is_separator(#[trigger] name[i], here) by {
        assert(name[i] == b[k + i]);
    }
}

/// A path is a folder, a file's name, and nothing more but separators and dots.
/// The folder is empty, a prefix, or ends in a separator.
pub proof fn lemma_a_path_is_a_folder_and_a_name(p: Seq<char>, here: Platform)
    requires
        file_name_of(p, here) is Some,
    ensures
        ({
            let both = folder_of(p, here) + file_name_of(p, here)->0;
            let dir = folder_of(p, here);
            &&& both.len() <= p.len()
            &&& p.take(both.len() as int) == both
            &&& forall|i: int|
                both.len() <= i < p.len() ==> is_separator(#[trigger] p[i], here) || p[i] == '.'
            &&& dir.len() == prefix_len(p, here) || is_separator(dir.last(), here)
        }),
{
    let from = prefix_len(p, here);
    lemma_prefix_len(p, here);
    lemma_trimmed(p, from, here);
    lemma_trimmed_off(p, from, here);
    let b = bare(p, here);
    lemma_part_from(b, from, here);
    let k = part_from(b, from, here);
    assert(folder_of(p, here) + file_name_of(p, here)->0 =~= b);
    if k > from {
        assert(folder_of(p, here).last() == b[k - 1]);
    }
}

proof fn lemma_trimmed_off(p: Seq<char>, from: int, here: Platform)
    requires
        0 <= from <= p.len(),
    ensures
        forall|i: int|
            trimmed(p, from, here).len() <= i < p.len() ==> is_separator(#[trigger] p[i], here)
                || p[i] == '.',
    decreases p.len(),
{
    let d = p.drop_last();
    if p.len() > from + 1 && p.len() > 1 && (is_separator(p.last(), here) || (p.last() == '.'
        && is_separator(p[p.len() - 2], here))) {
        lemma_trimmed_off(d, from, here);
        assert forall|i: int| trimmed(p, from, here).len() <= i < p.len() implies is_separator(
            #[trigger] p[i],
            here,
        ) || p[i] == '.' by {
            if i < d.len() {
                assert(d[i] == p[i]);
            }
        }
    }
}

/// A name is its stem, and behind the last dot its extension; a name without a
/// dot, or with none but the first character, has no extension.
pub proof fn lemma_a_name_is_stem_and_extension(name: Seq<char>)
    ensures
        match extension_of(name) {
            Some(e) => name == stem_of(name).push('.') + e && stem_of(name).len() > 0 && !e.contains(
                '.',
            ),
            None => stem_of(name) == name && (name.len() > 0 ==> !name.skip(1).contains('.')),
        },
{
    lemma_last_dot(name);
    lemma_after_last_dot(name);
    let k = last_dot(name);
    if k > 0 {
        assert(name =~= stem_of(name).push('.') + name.skip(k + 1));
        let e = name.skip(k + 1);
        if e.contains('.') {
            let i = choose|i: int| 0 <= i < e.len() && e[i] == '.';
            assert(name[k + 1 + i] == '.');
        }
    } else if name.len() > 0 {
        let t = name.skip(1);
        if t.contains('.') {
            let i = choose|i: int| 0 <= i < t.len() && t[i] == '.';
            assert(name[i + 1] == '.');
        }
    }
}

proof fn lemma_after_last_dot(s: Seq<char>)
    ensures
        forall|i: int| last_dot(s) < i < s.len() ==> #[trigger] s[i] != '.',
    decreases s.len(),
{
    if s.len() > 0 && s.last() != '.' {
        let d = s.drop_last();
        lemma_last_dot(d);
        lemma_after_last_dot(d);
        assert forall|i: int| last_dot(s) < i < s.len() implies #[trigger] s[i] != '.' by {
            if i < d.len() {
                assert(d[i] == s[i]);
            }
        }
    }
}

/// A relative name goes into the directory: the path begins with the one, ends
/// with the other, and at most one separator stands between.
pub proof fn lemma_a_name_goes_into_its_directory(dir: Seq<char>, name: Seq<char>, here: Platform)
    requires
        name.len() > 0,
        !is_separator(name[0], here),
        prefix_len(name, here) == 0,
    ensures
        ({
            let p = join_of(dir, name, here);
            let gap = p.len() - dir.len() - name.len();
            &&& 0 <= gap <= 1
            &&& p.take(dir.len() as int) == dir
            &&& p.skip(p.len() - name.len()) == name
            &&& gap == 1 ==> is_separator(p[dir.len() as int], here)
            &&& dir.len() > 0 && !is_separator(dir.last(), here) && here != Platform::Windows ==> gap
                == 1
        }),
{
    let p = join_of(dir, name, here);
    assert(p.take(dir.len() as int) =~= dir);
    assert(p.skip(p.len() - name.len()) =~= name);
}

/// A name that starts at the root is not put into any directory.
pub proof fn lemma_a_rooted_name_stands_alone(dir: Seq<char>, name: Seq<char>, here: Platform)
    requires
        name.len() > 0,
        is_separator(name[0], here) || prefix_len(name, here) > 0,
    ensures
        join_of(dir, name, here).len() >= name.len(),
        join_of(dir, name, here).skip(join_of(dir, name, here).len() - name.len()) == name,
        join_of(dir, name, here).len() > name.len() ==> here == Platform::Windows && join_of(
            dir,
            name,
            here,
        ).len() - name.len() == prefix_len(dir, here),
{
    let p = join_of(dir, name, here);
    lemma_prefix_len(dir, here);
    assert(p.skip(p.len() - name.len()) =~= name);
}

/// Off Windows, a plain name put into a directory is the name of the file there.
pub proof fn lemma_a_joined_name_is_the_files(dir: Seq<char>, name: Seq<char>, here: Platform)
    requires
        here != Platform::Windows,
        name.len() > 0,
        forall|i: int| 0 <= i < name.len() ==> #[trigger] name[i] != '/',
        name.last() != '.',
    ensures
        file_name_of(join_of(dir, name, here), here) == Some(name),
{
    let p = join_of(dir, name, here);
    let k = p.len() - name.len();
    assert(!is_separator(name[0], here));
    assert(p.skip(k) =~= name);
    assert(p.last() == name.last());
    assert(name[name.len() - 1] != '/');
    assert(trimmed(p, 0, here) == p);
    if k > 0 {
        assert(is_separator(p[k - 1], here));
    }
    assert forall|i: int| k <= i < p.len() implies !is_separator(#[trigger] p[i], here) by {
        assert(p[i] == name[i - k]);
    }
    lemma_part_at(p, 0, k, here);
    if name == seq!['.'] || name == seq!['.', '.'] {
        assert(name.last() == '.');
    }
}

/// The directory a path is in is where the path begins.
pub proof fn lemma_a_path_begins_with_its_directory(p: Seq<char>, here: Platform)
    requires
        parent_of(p, here) is Some,
    ensures
        parent_of(p, here)->0.len() < p.len(),
        p.take(parent_of(p, here)->0.len() as int) == parent_of(p, here)->0,
        file_name_of(p, here) is Some ==> forall|i: int|
            parent_of(p, here)->0.len() <= i < folder_of(p, here).len() ==> is_separator(
                #[trigger] p[i],
                here,
            ) || p[i] == '.',
{
    let from = prefix_len(p, here);
    lemma_prefix_len(p, here);
    lemma_trimmed(p, from, here);
    let b = bare(p, here);
    lemma_part_from(b, from, here);
    let k = part_from(b, from, here);
    let dir = folder_of(p, here);
    lemma_trimmed(dir, from, here);
    lemma_trimmed_off(dir, from, here);
    let d = parent_of(p, here)->0;
    assert(p.take(d.len() as int) =~= d);
    if k == b.len() {
        assert(b.len() > from);
        if b.len() > from + 1 {
            assert(!is_separator(b.last(), here));
        }
        assert(part_from(b, from, here) < b.len());
    }
    assert forall|i: int| d.len() <= i < dir.len() implies is_separator(#[trigger] p[i], here)
        || p[i] == '.' by {
        assert(dir[i] == p[i]);
    }
}

/// Off Windows only `/` parts a path, and nothing names a drive.
pub proof fn lemma_only_windows_has_drives(c: char, p: Seq<char>, here: Platform)
    ensures
        here != Platform::Windows ==> (is_separator(c, here) <==> c == '/') && prefix_len(p, here)
            == 0,
        here == Platform::Windows ==> (is_separator(c, here) <==> c == '/' || c == '\\'),
        here == Platform::Windows && p.len() >= 2 && (('a' <= p[0] && p[0] <= 'z') || ('A' <= p[0]
            && p[0] <= 'Z')) && p[1] == ':' ==> prefix_len(p, here) == 2,
{
}

/// Being the same path is a relation that any path has to itself, that goes both
/// ways, and that two paths have when both have it to a third.
pub proof fn lemma_same_path_is_an_equivalence(
    a: Seq<char>,
    b: Seq<char>,
    c: Seq<char>,
    here: Platform,
)
    ensures
        is_same_path(a, a, here),
        is_same_path(a, b, here) ==> is_same_path(b, a, here),
        is_same_path(a, b, here) && is_same_path(b, c, here) ==> is_same_path(a, c, here),
{
}

/// A separator or a dot more at the end of a path changes nothing, and neither
/// does the same of what is in front of its last part.
pub proof fn lemma_trailing_separators_do_not_count(p: Seq<char>, here: Platform)
    requires
        here != Platform::Windows,
        p.len() > 0,
    ensures
        is_same_path(p.push('/'), p, here),
{
    let q = p.push('/');
    assert(q.drop_last() =~= p);
    assert(trimmed(q, 0, here) == trimmed(p, 0, here));
    assert(prefix_of(q, here) =~= prefix_of(p, here));
    lemma_trimmed(p, 0, here);
    lemma_trimmed(q, 0, here);
    lemma_part_from(trimmed(p, 0, here), 0, here);
}

/// Two paths with the same directory and different last parts are two paths.
pub proof fn lemma_different_names_are_different_paths(
    a: Seq<char>,
    b: Seq<char>,
    here: Platform,
)
    requires
        file_name_of(a, here) is Some,
        file_name_of(b, here) is Some,
        file_name_of(a, here) != file_name_of(b, here),
    ensures
        !is_same_path(a, b, here),
{
    lemma_last_of_parts(a, here);
    lemma_last_of_parts(b, here);
}

proof fn lemma_last_of_parts(p: Seq<char>, here: Platform)
    requires
        file_name_of(p, here) is Some,
    ensures
        ({
            let parts = parts_from(p, prefix_len(p, here), here);
            parts.len() > 0 && parts.last() == file_name_of(p, here)->0
        }),
{
    let from = prefix_len(p, here);
    lemma_prefix_len(p, here);
    lemma_trimmed(p, from, here);
    let b = bare(p, here);
    lemma_part_from(b, from, here);
    lemma_a_file_name_is_plain(p, here);
    let k = part_from(b, from, here);
    assert(k < b.len());
    if b.len() == from + 1 && is_separator(b.last(), here) {
        assert(file_name_of(p, here)->0[0] == b[k]);
    }
}

/// Two names that start alike, and not at the root, give two paths in any
/// directory unless they are the same.
pub proof fn lemma_names_stay_apart(dir: Seq<char>, f: Seq<char>, g: Seq<char>, here: Platform)
    requires
        f.len() >= 2,
        g.len() >= 2,
        f[0] == g[0],
        f[1] == g[1],
        !is_separator(f[0], here),
    ensures
        join_of(dir, f, here) == join_of(dir, g, here) ==> f == g,
        join_of(dir, f, here).len() >= f.len(),
        join_of(dir, f, here).skip(join_of(dir, f, here).len() - f.len()) == f,
{
    let p = join_of(dir, f, here);
    let q = join_of(dir, g, here);
    assert(prefix_len(f, here) == prefix_len(g, here));
    assert(p.skip(p.len() - f.len()) =~= f);
    assert(q.skip(q.len() - g.len()) =~= g);
    assert(p.len() - f.len() == q.len() - g.len());
}

/// Windows parts its paths with a backslash, and everything else with a slash.
pub proof fn lemma_each_platform_has_its_separator(here: Platform, dir: Seq<char>, name: Seq<char>)
    requires
        dir.len() > 0,
        name.len() > 0,
        dir.last() != '/' && dir.last() != '\\' && dir.last() != ':',
        name[0] != '/' && name[0] != '\\',
        name.len() == 1 || name[1] != ':',
    ensures
        here == Platform::Windows ==> join_of(dir, name, here) == dir + seq!['\\'] + name,
        here != Platform::Windows ==> join_of(dir, name, here) == dir + seq!['/'] + name,
{
    lemma_a_name_goes_into_its_directory(dir, name, here);
}

/// Outside Windows a path is rooted if and only if it begins with a slash; on
/// Windows either separator will do, and a drive does not by itself.
pub proof fn lemma_what_is_rooted(p: Seq<char>)
    ensures
        is_rooted(p, Platform::Linux) <==> p.len() > 0 && p[0] == '/',
        is_rooted(p, Platform::Other) <==> p.len() > 0 && p[0] == '/',
        p.len() == 1 ==> (is_rooted(p, Platform::Windows) <==> p[0] == '/' || p[0] == '\\'),
        p.len() > 2 && 'a' <= p[0] <= 'z' && p[1] == ':' ==> (is_rooted(p, Platform::Windows)
            <==> p[2] == '/' || p[2] == '\\'),
        p.len() == 2 && 'a' <= p[0] <= 'z' && p[1] == ':' ==> !is_rooted(p, Platform::Windows),
{
}

} // verus!
