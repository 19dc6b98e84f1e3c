//! Strings as sequences of characters: the handful of operations the rest of
//! the crate needs, each stated over `Seq<char>`.

use vstd::prelude::*;

verus! {

/// `str::eq`: two string slices are equal exactly when they hold the same
/// characters in the same order.
pub assume_specification[ <str as PartialEq>::eq ](a: &str, b: &str) -> (r: bool)
    ensures
        r == (a@ == b@),
;

/// `String::push`: appends one character and changes nothing else.
#[verifier::external_body]
pub(crate) fn push_char(s: &mut String, c: char)
    ensures
        final(s)@ == old(s)@.push(c),
{
    s.push(c);
}

pub fn same(a: &str, b: &str) -> (r: bool)
    ensures
        r == (a@ == b@),
{
    *a == *b
}

pub fn chars_of(s: &str) -> (r: Vec<char>)
    ensures
        r@ == s@,
{
    let mut out: Vec<char> = Vec::new();
    for c in it: s.chars()
        invariant
            it.seq() == s@,
            out@ == it.seq().take(it.index()),
    {
        out.push(c);
        assert(it.seq().take(it.index() + 1) == it.seq().take(it.index()).push(c));
    }
    assert(s@.take(s@.len() as int) == s@);
    out
}

/// A string holding `v[from..to]`.
pub fn string_from(v: &Vec<char>, from: usize, to: usize) -> (r: String)
    requires
        from <= to <= v@.len(),
    ensures
        r@ == v@.subrange(from as int, to as int),
{
    let mut out = String::new();
    let mut i: usize = from;
    while i < to
        invariant
            from <= i <= to <= v@.len(),
            out@ == v@.subrange(from as int, i as int),
        decreases to - i,
    {
        push_char(&mut out, v[i]);
        assert(v@.subrange(from as int, i + 1) == v@.subrange(from as int, i as int).push(v@[i as int]));
        i += 1;
    }
    out
}

/// The first `n` characters of `s`, or all of it when it has no more.
pub fn take_chars(s: &str, n: usize) -> (r: String)
    ensures
        r@ == s@.take(if n < s@.len() { n as int } else { s@.len() as int }),
{
    let v = chars_of(s);
    let k: usize = if n < v.len() { n } else { v.len() };
    string_from(&v, 0, k)
}

// ---------------------------------------------------------------------------
// Whitespace
// ---------------------------------------------------------------------------

/// The characters with the Unicode `White_Space` property.
pub open spec fn is_white(c: char) -> bool {
    let n = c as u32;
    ||| 0x09 <= n <= 0x0d
    ||| n == 0x20
    ||| n == 0x85
    ||| n == 0xa0
    ||| n == 0x1680
    ||| 0x2000 <= n <= 0x200a
    ||| n == 0x2028
    ||| n == 0x2029
    ||| n == 0x202f
    ||| n == 0x205f
    ||| n == 0x3000
}

pub fn is_whitespace(c: char) -> (r: bool)
    ensures
        r == is_white(c),
{
    let n: u32 = c as u32;
    (0x09 <= n && n <= 0x0d) || n == 0x20 || n == 0x85 || n == 0xa0 || n == 0x1680 || (0x2000 <= n
        && n <= 0x200a) || n == 0x2028 || n == 0x2029 || n == 0x202f || n == 0x205f || n == 0x3000
}

/// `s` without its leading whitespace.
pub open spec fn trim_start_of(s: Seq<char>) -> Seq<char>
    decreases s.len(),
{
    if s.len() > 0 && is_white(s[0]) {
        trim_start_of(s.skip(1))
    } else {
        s
    }
}

/// `s` without its trailing whitespace.
pub open spec fn trim_end_of(s: Seq<char>) -> Seq<char>
    decreases s.len(),
{
    if s.len() > 0 && is_white(s.last()) {
        trim_end_of(s.drop_last())
    } else {
        s
    }
}

/// `s` without whitespace at either end.
pub open spec fn trim_of(s: Seq<char>) -> Seq<char> {
    trim_end_of(trim_start_of(s))
}

/// Whether nothing is left of `s` once it is trimmed.
pub open spec fn is_blank(s: Seq<char>) -> bool {
    trim_of(s).len() == 0
}

pub proof fn lemma_trim_start(s: Seq<char>)
    ensures
        trim_start_of(s).len() <= s.len(),
        trim_start_of(s) == s.skip(s.len() - trim_start_of(s).len()),
        trim_start_of(s).len() > 0 ==> !is_white(trim_start_of(s)[0]),
        forall|i: int| 0 <= i < s.len() - trim_start_of(s).len() ==> is_white(#[trigger] s[i]),
    decreases s.len(),
{
    if s.len() > 0 && is_white(s[0]) {
        lemma_trim_start(s.skip(1));
        let k = s.len() - trim_start_of(s).len();
        assert(s.skip(1).skip(k - 1) == s.skip(k));
        assert forall|i: int| 0 <= i < k implies is_white(#[trigger] s[i]) by {
            if i > 0 {
                assert(s[i] == s.skip(1)[i - 1]);
            }
        }
    } else {
        assert(s.skip(0) == s);
    }
}

pub proof fn lemma_trim_end(s: Seq<char>)
    ensures
        trim_end_of(s).len() <= s.len(),
        trim_end_of(s) == s.take(trim_end_of(s).len() as int),
        trim_end_of(s).len() > 0 ==> !is_white(trim_end_of(s).last()),
        forall|i: int| trim_end_of(s).len() <= i < s.len() ==> is_white(#[trigger] s[i]),
    decreases s.len(),
{
    if s.len() > 0 && is_white(s.last()) {
        lemma_trim_end(s.drop_last());
        let k = trim_end_of(s).len() as int;
        assert(s.drop_last().take(k) == s.take(k));
        assert forall|i: int| k <= i < s.len() implies is_white(#[trigger] s[i]) by {
            if i < s.len() - 1 {
                assert(s[i] == s.drop_last()[i]);
            }
        }
    } else {
        assert(s.take(s.len() as int) == s);
    }
}

/// A string is blank exactly when every character of it is whitespace.
pub proof fn lemma_blank(s: Seq<char>)
    ensures
        is_blank(s) <==> (forall|i: int| 0 <= i < s.len() ==> is_white(#[trigger] s[i])),
{
    lemma_trim_start(s);
    let t = trim_start_of(s);
    lemma_trim_end(t);
    if is_blank(s) {
        if t.len() > 0 {
            assert(is_white(t[0]));
        }
    } else {
        assert(t.len() > 0);
        assert(s[s.len() - t.len()] == t[0]);
    }
}

/// Trimming twice is trimming once, and a trimmed string has no whitespace at
/// its ends.
pub proof fn lemma_trim(s: Seq<char>)
    ensures
        trim_of(trim_of(s)) == trim_of(s),
        trim_of(s).len() <= s.len(),
        trim_of(s).len() > 0 ==> !is_white(trim_of(s)[0]) && !is_white(trim_of(s).last()),
{
    lemma_trim_start(s);
    let t = trim_start_of(s);
    lemma_trim_end(t);
    let u = trim_end_of(t);
    if u.len() > 0 {
        assert(u[0] == t[0]);
    }
}

fn leading_white(v: &Vec<char>) -> (k: usize)
    ensures
        k <= v@.len(),
        trim_start_of(v@) == v@.skip(k as int),
{
    let mut k: usize = 0;
    assert(v@.skip(0) == v@);
    while k < v.len() && is_whitespace(v[k])
        invariant
            k <= v@.len(),
            trim_start_of(v@) == trim_start_of(v@.skip(k as int)),
        decreases v@.len() - k,
    {
        assert(v@.skip(k as int)[0] == v@[k as int]);
        assert(v@.skip(k as int).skip(1) == v@.skip(k + 1));
        k += 1;
    }
    assert(k < v@.len() ==> v@.skip(k as int)[0] == v@[k as int]);
    k
}

fn trailing_end(v: &Vec<char>, from: usize) -> (e: usize)
    requires
        from <= v@.len(),
    ensures
        from <= e <= v@.len(),
        trim_end_of(v@.skip(from as int)) == v@.subrange(from as int, e as int),
{
    let mut e: usize = v.len();
    assert(v@.subrange(from as int, e as int) == v@.skip(from as int));
    while e > from && is_whitespace(v[e - 1])
        invariant
            from <= e <= v@.len(),
            trim_end_of(v@.skip(from as int)) == trim_end_of(v@.subrange(from as int, e as int)),
        decreases e,
    {
        assert(v@.subrange(from as int, e as int).last() == v@[e - 1]);
        assert(v@.subrange(from as int, e as int).drop_last() == v@.subrange(from as int, e - 1));
        e -= 1;
    }
    assert(e > from ==> v@.subrange(from as int, e as int).last() == v@[e - 1]);
    e
}

pub fn trim_start(s: &str) -> (r: String)
    ensures
        r@ == trim_start_of(s@),
{
    let v = chars_of(s);
    let k: usize = leading_white(&v);
    assert(v@.subrange(k as int, v@.len() as int) == v@.skip(k as int));
    string_from(&v, k, v.len())
}

pub fn trim(s: &str) -> (r: String)
    ensures
        r@ == trim_of(s@),
{
    let v = chars_of(s);
    let k: usize = leading_white(&v);
    let e: usize = trailing_end(&v, k);
    string_from(&v, k, e)
}

pub fn blank(s: &str) -> (r: bool)
    ensures
        r == is_blank(s@),
{
    let v = chars_of(s);
    let k: usize = leading_white(&v);
    let e: usize = trailing_end(&v, k);
    k == e
}

// ---------------------------------------------------------------------------
// Decimal numbers
// ---------------------------------------------------------------------------

/// The digit `d`, for `d` below ten.
pub open spec fn digit(d: nat) -> char {
    (0x30 + d) as char
}

/// `n` in decimal, without leading zeros.
pub open spec fn decimal(n: nat) -> Seq<char>
    decreases n,
{
    if n < 10 {
        seq![digit(n)]
    } else {
        decimal(n / 10).push(digit(n % 10))
    }
}

/// `n` in decimal, padded with one zero to two digits.
pub open spec fn two_digits(n: nat) -> Seq<char> {
    if n < 10 {
        seq!['0', digit(n)]
    } else {
        decimal(n)
    }
}

pub fn digit_char(d: u8) -> (c: char)
    requires
        d < 10,
    ensures
        c == digit(d as nat),
{
    (0x30u8 + d) as char
}

pub fn decimal_text(n: u64) -> (r: String)
    ensures
        r@ == decimal(n as nat),
    decreases n,
{
    if n < 10 {
        let mut s = String::new();
        push_char(&mut s, digit_char(n as u8));
        s
    } else {
        let mut s = decimal_text(n / 10);
        push_char(&mut s, digit_char((n % 10) as u8));
        s
    }
}

pub fn two_digit_text(n: u64) -> (r: String)
    ensures
        r@ == two_digits(n as nat),
{
    if n < 10 {
        let mut s = String::new();
        push_char(&mut s, '0');
        push_char(&mut s, digit_char(n as u8));
        s
    } else {
        decimal_text(n)
    }
}

/// The number a sequence of digits spells.
pub open spec fn value_of(s: Seq<char>) -> nat
    decreases s.len(),
{
    if s.len() == 0 {
        0
    } else {
        value_of(s.drop_last()) * 10 + (s.last() as u32 - 0x30) as nat
    }
}

pub open spec fn is_digit(c: char) -> bool {
    '0' <= c && c <= '9'
}

pub open spec fn all_digits(s: Seq<char>) -> bool {
    forall|i: int| 0 <= i < s.len() ==> is_digit(#[trigger] s[i])
}

/// Writing a number and reading it back gives the number.
pub proof fn lemma_decimal_round_trip(n: nat)
    ensures
        decimal(n).len() > 0,
        all_digits(decimal(n)),
        value_of(decimal(n)) == n,
    decreases n,
{
    reveal_with_fuel(value_of, 2);
    if n < 10 {
        assert(decimal(n).drop_last() == Seq::<char>::empty());
    } else {
        lemma_decimal_round_trip(n / 10);
        assert(decimal(n).drop_last() == decimal(n / 10));
    }
}

/// Two different numbers are written differently.
pub proof fn lemma_decimal_injective(a: nat, b: nat)
    requires
        decimal(a) == decimal(b),
    ensures
        a == b,
{
    lemma_decimal_round_trip(a);
    lemma_decimal_round_trip(b);
}

// ---------------------------------------------------------------------------
// Joining and searching
// ---------------------------------------------------------------------------

/// What a list of strings holds.
pub open spec fn texts(v: Seq<String>) -> Seq<Seq<char>> {
    v.map_values(|s: String| s@)
}

/// `parts` written one after another with `sep` between each two.
pub open spec fn joined(parts: Seq<Seq<char>>, sep: Seq<char>) -> Seq<char>
    decreases parts.len(),
{
    if parts.len() == 0 {
        Seq::empty()
    } else if parts.len() == 1 {
        parts[0]
    } else {
        joined(parts.drop_last(), sep) + sep + parts.last()
    }
}

pub fn join(parts: &Vec<String>, sep: &str) -> (r: String)
    ensures
        r@ == joined(texts(parts@), sep@),
{
    let mut out = String::new();
    let mut i: usize = 0;
    assert(texts(parts@).take(0) == Seq::<Seq<char>>::empty());
    while i < parts.len()
        invariant
            i <= parts@.len(),
            out@ == joined(texts(parts@).take(i as int), sep@),
        decreases parts@.len() - i,
    {
        let ghost t = texts(parts@).take(i + 1);
        assert(t.drop_last() == texts(parts@).take(i as int));
        if i > 0 {
            out.append(sep);
        }
        out.append(parts[i].as_str());
        i += 1;
    }
    assert(texts(parts@).take(i as int) == texts(parts@));
    out
}

/// Whether `pat` occurs somewhere in `s`.
pub open spec fn occurs_in(pat: Seq<char>, s: Seq<char>) -> bool {
    exists|i: int| 0 <= i <= s.len() - pat.len() && #[trigger] s.subrange(i, i + pat.len()) == pat
}

pub open spec fn begins(s: Seq<char>, pat: Seq<char>) -> bool {
    pat.len() <= s.len() && s.take(pat.len() as int) == pat
}

pub open spec fn ends(s: Seq<char>, pat: Seq<char>) -> bool {
    pat.len() <= s.len() && s.skip(s.len() - pat.len()) == pat
}

fn matches_at(v: &Vec<char>, at: usize, p: &Vec<char>) -> (r: bool)
    requires
        at + p@.len() <= v@.len(),
    ensures
        r == (v@.subrange(at as int, at + p@.len()) == p@),
{
    let n: usize = v.len();
    let mut j: usize = 0;
    while j < p.len()
        invariant
            at + p@.len() <= v@.len() == n,
            j <= p@.len(),
            forall|k: int| 0 <= k < j ==> v@[at + k] == p@[k],
        decreases p@.len() - j,
    {
        if v[at + j] != p[j] {
            assert(v@.subrange(at as int, at + p@.len())[j as int] != p@[j as int]);
            return false;
        }
        j += 1;
    }
    assert(v@.subrange(at as int, at + p@.len()) == p@);
    true
}

pub fn contains_text(s: &str, pat: &str) -> (r: bool)
    ensures
        r == occurs_in(pat@, s@),
{
    let v = chars_of(s);
    let p = chars_of(pat);
    if p.len() > v.len() {
        return false;
    }
    let last: usize = v.len() - p.len();
    let mut i: usize = 0;
    while i <= last
        invariant
            v@ == s@,
            p@ == pat@,
            last + p@.len() == v@.len(),
            i <= last + 1,
            forall|k: int| 0 <= k < i ==> #[trigger] s@.subrange(k, k + pat@.len()) != pat@,
        decreases last + 1 - i,
    {
        if matches_at(&v, i, &p) {
            return true;
        }
        if i == last {
            return false;
        }
        i += 1;
    }
    false
}

pub fn starts_with(s: &str, pat: &str) -> (r: bool)
    ensures
        r == begins(s@, pat@),
{
    let v = chars_of(s);
    let p = chars_of(pat);
    if p.len() > v.len() {
        return false;
    }
    assert(v@.subrange(0, 0int + p@.len()) == v@.take(p@.len() as int));
    matches_at(&v, 0, &p)
}

pub fn ends_with(s: &str, pat: &str) -> (r: bool)
    ensures
        r == ends(s@, pat@),
{
    let v = chars_of(s);
    let p = chars_of(pat);
    if p.len() > v.len() {
        return false;
    }
    let at: usize = v.len() - p.len();
    assert(v@.subrange(at as int, at + p@.len()) == v@.skip(at as int));
    matches_at(&v, at, &p)
}

// ---------------------------------------------------------------------------
// ASCII case
// ---------------------------------------------------------------------------

pub open spec fn is_upper(c: char) -> bool {
    'A' <= c && c <= 'Z'
}

pub open spec fn is_lower(c: char) -> bool {
    'a' <= c && c <= 'z'
}

pub open spec fn ascii_lower(c: char) -> char {
    if is_upper(c) {
        (c as u32 + 32) as char
    } else {
        c
    }
}

pub open spec fn ascii_upper(c: char) -> char {
    if is_lower(c) {
        (c as u32 - 32) as char
    } else {
        c
    }
}

pub open spec fn lowered(s: Seq<char>) -> Seq<char> {
    s.map_values(|c: char| ascii_lower(c))
}

pub fn lower_char(c: char) -> (r: char)
    ensures
        r == ascii_lower(c),
{
    if 'A' <= c && c <= 'Z' {
        (c as u8 + 32u8) as char
    } else {
        c
    }
}

pub fn upper_char(c: char) -> (r: char)
    ensures
        r == ascii_upper(c),
{
    if 'a' <= c && c <= 'z' {
        (c as u8 - 32u8) as char
    } else {
        c
    }
}

pub fn lower(s: &str) -> (r: String)
    ensures
        r@ == lowered(s@),
{
    let v = chars_of(s);
    let mut out = String::new();
    let mut i: usize = 0;
    while i < v.len()
        invariant
            v@ == s@,
            i <= v@.len(),
            out@ == lowered(s@).take(i as int),
        decreases v@.len() - i,
    {
        push_char(&mut out, lower_char(v[i]));
        assert(lowered(s@).take(i + 1) == lowered(s@).take(i as int).push(ascii_lower(s@[i as int])));
        i += 1;
    }
    assert(lowered(s@).take(i as int) == lowered(s@));
    out
}

/// What `str::to_lowercase` makes of a string: Unicode lower-casing, which for
/// some characters changes their number.
pub uninterp spec fn lowercase_of(s: Seq<char>) -> Seq<char>;

/// `str::to_lowercase`.
#[verifier::external_body]
pub(crate) fn to_lowercase(s: &str) -> (r: String)
    ensures
        r@ == lowercase_of(s@),
{
    s.to_lowercase()
}

/// How `Debug` writes a string: quoted, with what cannot be printed escaped.
pub uninterp spec fn debug_of(s: Seq<char>) -> Seq<char>;

/// `str`'s `Debug`.
#[verifier::external_body]
pub(crate) fn debug_text(s: &str) -> (r: String)
    ensures
        r@ == debug_of(s@),
{
    format!("{s:?}")
}

/// How many bytes a character takes in UTF-8.
pub open spec fn utf8_len(c: char) -> nat {
    let n = c as u32;
    if n < 0x80 {
        1
    } else if n < 0x800 {
        2
    } else if n < 0x10000 {
        3
    } else {
        4
    }
}

/// How many bytes a string takes in UTF-8.
pub open spec fn byte_len(s: Seq<char>) -> nat
    decreases s.len(),
{
    if s.len() == 0 {
        0
    } else {
        byte_len(s.drop_last()) + utf8_len(s.last())
    }
}

pub proof fn lemma_byte_len_add(a: Seq<char>, b: Seq<char>)
    ensures
        byte_len(a + b) == byte_len(a) + byte_len(b),
    decreases b.len(),
{
    if b.len() == 0 {
        assert(a + b == a);
    } else {
        assert((a + b).drop_last() == a + b.drop_last());
        lemma_byte_len_add(a, b.drop_last());
    }
}

pub proof fn lemma_byte_len_bounds(s: Seq<char>)
    ensures
        s.len() <= byte_len(s) <= 4 * s.len(),
    decreases s.len(),
{
    if s.len() > 0 {
        lemma_byte_len_bounds(s.drop_last());
    }
}

/// The number of bytes of `s`, or `cap` when there are more.
pub fn bytes_up_to(s: &str, cap: u64) -> (r: u64)
    requires
        cap <= 0xffff_ffff,
    ensures
        r == (if byte_len(s@) <= cap {
            byte_len(s@) as int
        } else {
            cap as int
        }),
{
    let v = chars_of(s);
    let mut n: u64 = 0;
    let mut i: usize = 0;
    assert(s@.take(0) == Seq::<char>::empty());
    while i < v.len()
        invariant
            v@ == s@,
            i <= v@.len(),
            cap <= 0xffff_ffff,
            n <= cap,
            n == byte_len(s@.take(i as int)),
        decreases v@.len() - i,
    {
        let c: u32 = v[i] as u32;
        let w: u64 = if c < 0x80 {
            1
        } else if c < 0x800 {
            2
        } else if c < 0x10000 {
            3
        } else {
            4
        };
        assert(s@.take(i + 1).drop_last() == s@.take(i as int));
        if n + w > cap {
            proof {
                assert(s@ == s@.take(i + 1) + s@.skip(i + 1));
                lemma_byte_len_add(s@.take(i + 1), s@.skip(i + 1));
            }
            return cap;
        }
        n = n + w;
        i += 1;
    }
    assert(s@.take(i as int) == s@);
    n
}

/// The words of `s`: its runs of characters that are not whitespace.
pub open spec fn words_of(s: Seq<char>) -> Seq<Seq<char>>
    decreases s.len(),
{
    if s.len() == 0 {
        Seq::empty()
    } else {
        let w = words_of(s.drop_last());
        let c = s.last();
        if is_white(c) {
            w
        } else if s.len() > 1 && !is_white(s[s.len() - 2]) {
            w.drop_last().push(w.last().push(c))
        } else {
            w.push(seq![c])
        }
    }
}

/// No word is empty, and a string that does not end in whitespace ends in a
/// word.
pub proof fn lemma_words(s: Seq<char>)
    ensures
        forall|i: int| 0 <= i < words_of(s).len() ==> (#[trigger] words_of(s)[i]).len() > 0,
        s.len() > 0 && !is_white(s.last()) ==> words_of(s).len() > 0,
    decreases s.len(),
{
    if s.len() > 0 {
        let d = s.drop_last();
        lemma_words(d);
        assert(s.len() > 1 ==> s[s.len() - 2] == d.last());
        let w = words_of(d);
        let u = words_of(s);
        assert forall|i: int| 0 <= i < u.len() implies (#[trigger] u[i]).len() > 0 by {
            if i < w.len() - 1 {
                assert(u[i] == w[i]);
            } else if i < w.len() && u.len() > w.len() {
                assert(u[i] == w[i]);
            }
        }
    }
}

pub fn words(s: &str) -> (r: Vec<String>)
    ensures
        texts(r@) == words_of(s@),
{
    let v = chars_of(s);
    let mut out: Vec<String> = Vec::new();
    let mut cur = String::new();
    let mut open: bool = false;
    let mut i: usize = 0;
    assert(texts(out@) == words_of(s@.take(0)));
    while i < v.len()
        invariant
            v@ == s@,
            i <= v@.len(),
            open == (i > 0 && !is_white(v@[i - 1])),
            open ==> texts(out@).push(cur@) == words_of(s@.take(i as int)),
            !open ==> texts(out@) == words_of(s@.take(i as int)) && cur@ == Seq::<char>::empty(),
        decreases v@.len() - i,
    {
        let c = v[i];
        let ghost after = s@.take(i + 1);
        assert(after.drop_last() == s@.take(i as int));
        assert(after.last() == c);
        assert(i > 0 ==> after[after.len() - 2] == v@[i - 1]);
        if is_whitespace(c) {
            if open {
                let ghost was = out@;
                let ghost word = cur@;
                out.push(cur);
                assert(texts(out@) == texts(was).push(word));
                cur = String::new();
            }
            open = false;
        } else {
            proof {
                if open {
                    let w = words_of(s@.take(i as int));
                    assert(w.drop_last() == texts(out@));
                } else {
                    assert(Seq::<char>::empty().push(c) == seq![c]);
                }
            }
            push_char(&mut cur, c);
            open = true;
        }
        i += 1;
    }
    assert(s@.take(i as int) == s@);
    if open {
        let ghost was = out@;
        let ghost word = cur@;
        out.push(cur);
        assert(texts(out@) == texts(was).push(word));
    }
    out
}

/// `n` copies of `c`.
pub open spec fn repeated(c: char, n: nat) -> Seq<char> {
    Seq::new(n, |i: int| c)
}

pub fn repeat(c: char, n: usize) -> (r: String)
    ensures
        r@ == repeated(c, n as nat),
{
    let mut s = String::new();
    let mut i: usize = 0;
    while i < n
        invariant
            i <= n,
            s@ == repeated(c, i as nat),
        decreases n - i,
    {
        push_char(&mut s, c);
        assert(repeated(c, (i + 1) as nat) == repeated(c, i as nat).push(c));
        i += 1;
    }
    s
}

/// What stands in the middle occurs in the whole.
pub proof fn lemma_occurs_inside(before: Seq<char>, s: Seq<char>, after: Seq<char>, pat: Seq<char>)
    requires
        occurs_in(pat, s),
    ensures
        occurs_in(pat, before + s + after),
{
    let i = choose|i: int|
        0 <= i <= s.len() - pat.len() && #[trigger] s.subrange(i, i + pat.len()) == pat;
    let k = before.len() + i;
    assert((before + s + after).subrange(k, k + pat.len()) == s.subrange(i, i + pat.len()));
}

pub proof fn lemma_occurs_itself(s: Seq<char>)
    ensures
        occurs_in(s, s),
{
    assert(s.subrange(0, 0int + s.len()) == s);
}

/// What an optional string holds.
pub open spec fn opt_view(s: Option<String>) -> Option<Seq<char>> {
    match s {
        Some(t) => Some(t@),
        None => None,
    }
}

/// Whether two optional strings hold the same.
pub fn same_opt(a: &Option<String>, b: &Option<String>) -> (r: bool)
    ensures
        r == (opt_view(*a) == opt_view(*b)),
{
    match (a, b) {
        (Some(x), Some(y)) => same(x.as_str(), y.as_str()),
        (None, None) => true,
        _ => false,
    }
}

// ---------------------------------------------------------------------------
// Shortening and splitting
// ---------------------------------------------------------------------------

/// `s` cut to at most `max` characters, the last of them an ellipsis when
/// anything was cut.
pub open spec fn truncated(s: Seq<char>, max: nat) -> Seq<char> {
    if s.len() <= max {
        s
    } else {
        s.take(if max > 0 { max - 1 } else { 0 }).push('…')
    }
}

pub fn truncate(s: &str, max: usize) -> (r: String)
    ensures
        r@ == truncated(s@, max as nat),
{
    let v = chars_of(s);
    if v.len() <= max {
        assert(v@.subrange(0, v@.len() as int) == v@);
        return string_from(&v, 0, v.len());
    }
    let keep: usize = if max > 0 { max - 1 } else { 0 };
    let mut out = string_from(&v, 0, keep);
    push_char(&mut out, '…');
    out
}

/// A shortened string is never longer than asked for, and a string that fits
/// is left alone.
pub proof fn lemma_truncated(s: Seq<char>, max: nat)
    requires
        max > 0,
    ensures
        truncated(s, max).len() <= max,
        s.len() <= max <==> truncated(s, max) == s,
{
}

/// The pieces of `s` between occurrences of `sep`; always at least one.
pub open spec fn split_of(s: Seq<char>, sep: char) -> Seq<Seq<char>>
    decreases s.len(),
{
    if s.len() == 0 {
        seq![Seq::empty()]
    } else {
        let rest = split_of(s.drop_last(), sep);
        if s.last() == sep {
            rest.push(Seq::empty())
        } else {
            rest.drop_last().push(rest.last().push(s.last()))
        }
    }
}

pub proof fn lemma_split_nonempty(s: Seq<char>, sep: char)
    ensures
        split_of(s, sep).len() > 0,
    decreases s.len(),
{
    if s.len() > 0 {
        lemma_split_nonempty(s.drop_last(), sep);
    }
}

/// Putting the separator back between the pieces gives the string.
pub proof fn lemma_split_joined(s: Seq<char>, sep: char)
    ensures
        joined(split_of(s, sep), seq![sep]) == s,
    decreases s.len(),
{
    lemma_split_nonempty(s, sep);
    if s.len() > 0 {
        let r = split_of(s.drop_last(), sep);
        lemma_split_nonempty(s.drop_last(), sep);
        lemma_split_joined(s.drop_last(), sep);
        let p = split_of(s, sep);
        assert(s == s.drop_last().push(s.last()));
        if s.last() == sep {
            assert(p.drop_last() == r);
            assert(joined(p, seq![sep]) == s.drop_last() + seq![sep] + Seq::<char>::empty());
        } else {
            assert(p.drop_last() == r.drop_last());
            assert(p.last() == r.last().push(s.last()));
            if r.len() > 1 {
                assert(joined(p, seq![sep]) == joined(r.drop_last(), seq![sep]) + seq![sep]
                    + r.last().push(s.last()));
                assert(joined(r, seq![sep]) == joined(r.drop_last(), seq![sep]) + seq![sep]
                    + r.last());
            }
            assert(joined(p, seq![sep]) == joined(r, seq![sep]).push(s.last()));
        }
    } else {
        assert(joined(split_of(s, sep), seq![sep]) == Seq::<char>::empty());
    }
}

pub fn split(s: &str, sep: char) -> (r: Vec<String>)
    ensures
        texts(r@) == split_of(s@, sep),
{
    let v = chars_of(s);
    let mut out: Vec<String> = Vec::new();
    let mut cur = String::new();
    let mut i: usize = 0;
    assert(texts(out@).push(cur@) == split_of(s@.take(0), sep));
    while i < v.len()
        invariant
            v@ == s@,
            i <= v@.len(),
            texts(out@).push(cur@) == split_of(s@.take(i as int), sep),
        decreases v@.len() - i,
    {
        let ghost before = split_of(s@.take(i as int), sep);
        assert(s@.take(i + 1).drop_last() == s@.take(i as int));
        assert(before.drop_last() == texts(out@));
        if v[i] == sep {
            let ghost was = out@;
            let piece = cur;
            cur = String::new();
            out.push(piece);
            assert(texts(out@) == texts(was).push(piece@));
        } else {
            push_char(&mut cur, v[i]);
        }
        assert(texts(out@).push(cur@) == split_of(s@.take(i + 1), sep));
        i += 1;
    }
    assert(s@.take(i as int) == s@);
    let ghost was = out@;
    let ghost c = cur@;
    out.push(cur);
    assert(texts(out@) == texts(was).push(c));
    out
}

/// A number in two digits reads back as itself, and takes two digits as long as
/// it has no more.
pub proof fn lemma_two_digits_read_back(n: nat)
    ensures
        all_digits(two_digits(n)),
        value_of(two_digits(n)) == n,
        two_digits(n).len() >= 2,
        n < 100 ==> two_digits(n).len() == 2,
{
    reveal_with_fuel(value_of, 3);
    reveal_with_fuel(decimal, 3);
    lemma_decimal_round_trip(n);
    if n < 10 {
        let t = two_digits(n);
        assert(t.drop_last() =~= seq!['0']);
        assert(t.drop_last().drop_last() =~= Seq::empty());
    }
}

/// Digits read from the left: each one counts ten times what follows it.
pub proof fn lemma_digits_are_read_in_tens(s: Seq<char>, c: char)
    requires
        is_digit(c),
    ensures
        value_of(s.push(c)) == 10 * value_of(s) + (c as int - '0' as int),
        value_of(Seq::empty()) == 0,
{
    assert(s.push(c).drop_last() =~= s);
}

/// Trimming drops whitespace and nothing else, from both ends and nowhere else.
pub proof fn lemma_trim_drops_only_white(s: Seq<char>)
    ensures
        exists|a: int, b: int|
            0 <= a <= b <= s.len() && #[trigger] s.subrange(a, b) == trim_of(s) && (forall|i: int|
                0 <= i < a || b <= i < s.len() ==> is_white(#[trigger] s[i])),
        trim_of(s).len() > 0 ==> !is_white(trim_of(s)[0]) && !is_white(trim_of(s).last()),
{
    lemma_trim(s);
    lemma_trim_start(s);
    let t = trim_start_of(s);
    lemma_trim_end(t);
    let a = s.len() - t.len();
    let b = a + trim_of(s).len();
    assert(s.subrange(a, b) =~= trim_of(s));
    assert forall|i: int| 0 <= i < a || b <= i < s.len() implies is_white(#[trigger] s[i]) by {
        if b <= i {
            assert(s[i] == t[i - a]);
        }
    }
}

/// A string without the separator is one piece.
pub proof fn lemma_split_of_one(s: Seq<char>, sep: char)
    requires
        !s.contains(sep),
    ensures
        split_of(s, sep) == seq![s],
    decreases s.len(),
{
    if s.len() > 0 {
        let d = s.drop_last();
        assert(s[s.len() - 1] != sep);
        assert forall|i: int| 0 <= i < d.len() implies d[i] != sep by {
            assert(d[i] == s[i]);
        }
        lemma_split_of_one(d, sep);
        assert(d.push(s.last()) =~= s);
        assert(split_of(s, sep) =~= seq![s]);
    } else {
        assert(s =~= Seq::empty());
    }
}

/// What follows the last separator is the last piece.
pub proof fn lemma_split_at(a: Seq<char>, b: Seq<char>, sep: char)
    requires
        !b.contains(sep),
    ensures
        split_of(a.push(sep) + b, sep) == split_of(a, sep).push(b),
    decreases b.len(),
{
    let s = a.push(sep) + b;
    if b.len() == 0 {
        assert(s.drop_last() =~= a);
        assert(b =~= Seq::empty());
    } else {
        let d = b.drop_last();
        assert(b[b.len() - 1] != sep);
        assert forall|i: int| 0 <= i < d.len() implies d[i] != sep by {
            assert(d[i] == b[i]);
        }
        lemma_split_at(a, d, sep);
        assert(s.drop_last() =~= a.push(sep) + d);
        let r = split_of(a, sep).push(d);
        assert(r.drop_last() =~= split_of(a, sep));
        assert(d.push(b.last()) =~= b);
    }
}

/// Joining and splitting at the same separator gives the parts back, as long as
/// it occurs in none of them.
pub proof fn lemma_joined_parts_split_again(parts: Seq<Seq<char>>, sep: char)
    requires
        parts.len() > 0,
        forall|i: int| 0 <= i < parts.len() ==> !(#[trigger] parts[i]).contains(sep),
    ensures
        split_of(joined(parts, seq![sep]), sep) == parts,
    decreases parts.len(),
{
    if parts.len() == 1 {
        lemma_split_of_one(parts[0], sep);
        assert(parts =~= seq![parts[0]]);
    } else {
        let d = parts.drop_last();
        assert forall|i: int| 0 <= i < d.len() implies !(#[trigger] d[i]).contains(sep) by {
            assert(d[i] == parts[i]);
        }
        lemma_joined_parts_split_again(d, sep);
        let last = parts[parts.len() - 1];
        assert(joined(parts, seq![sep]) =~= joined(d, seq![sep]).push(sep) + last);
        lemma_split_at(joined(d, seq![sep]), last, sep);
        assert(d.push(last) =~= parts);
    }
}

/// Every part is in what is joined, with what comes before it in front of it and
/// what comes after it behind.
pub proof fn lemma_joined_in_order(parts: Seq<Seq<char>>, sep: Seq<char>, i: int)
    requires
        0 <= i < parts.len(),
    ensures
        joined(parts, sep) == (if i == 0 {
            Seq::empty()
        } else {
            joined(parts.take(i), sep) + sep
        }) + parts[i] + (if i == parts.len() - 1 {
            Seq::empty()
        } else {
            sep + joined(parts.skip(i + 1), sep)
        }),
    decreases parts.len(),
{
    let before = if i == 0 {
        Seq::empty()
    } else {
        joined(parts.take(i), sep) + sep
    };
    if i == parts.len() - 1 {
        assert(parts.take(i) =~= parts.drop_last());
        assert(joined(parts, sep) =~= before + parts[i] + Seq::<char>::empty());
    } else {
        let d = parts.drop_last();
        lemma_joined_in_order(d, sep, i);
        assert(d.take(i) =~= parts.take(i));
        let rest = parts.skip(i + 1);
        if i == d.len() - 1 {
            assert(rest =~= seq![parts.last()]);
            assert(joined(parts, sep) =~= before + parts[i] + (sep + joined(rest, sep)));
        } else {
            assert(d.skip(i + 1) =~= rest.drop_last());
            assert(joined(rest, sep) == joined(rest.drop_last(), sep) + sep + parts.last());
            assert(joined(parts, sep) =~= before + parts[i] + (sep + joined(rest, sep)));
        }
    }
}

/// A string contains a pattern exactly when it is something, the pattern, and
/// something more.
pub proof fn lemma_occurs_between(pat: Seq<char>, s: Seq<char>)
    ensures
        occurs_in(pat, s) <==> exists|a: Seq<char>, b: Seq<char>| s == #[trigger] (a + pat + b),
{
    if occurs_in(pat, s) {
        let i = choose|i: int|
            0 <= i <= s.len() - pat.len() && #[trigger] s.subrange(i, i + pat.len()) == pat;
        assert(s =~= s.take(i) + pat + s.skip(i + pat.len()));
    }
    if exists|a: Seq<char>, b: Seq<char>| s == #[trigger] (a + pat + b) {
        let (a, b) = choose|a: Seq<char>, b: Seq<char>| s == #[trigger] (a + pat + b);
        let i = a.len() as int;
        assert((a + pat + b).subrange(i, i + pat.len()) =~= pat);
    }
}

/// A string begins with a pattern exactly when something may follow it to give
/// the string, and ends with one exactly when something may stand before it.
pub proof fn lemma_begins_and_ends(s: Seq<char>, pat: Seq<char>)
    ensures
        begins(s, pat) <==> exists|rest: Seq<char>| s == #[trigger] (pat + rest),
        ends(s, pat) <==> exists|rest: Seq<char>| s == #[trigger] (rest + pat),
{
    if begins(s, pat) {
        assert(s =~= pat + s.skip(pat.len() as int));
    }
    if exists|rest: Seq<char>| s == #[trigger] (pat + rest) {
        let rest = choose|rest: Seq<char>| s == #[trigger] (pat + rest);
        assert((pat + rest).take(pat.len() as int) =~= pat);
    }
    if ends(s, pat) {
        assert(s =~= s.take(s.len() - pat.len()) + pat);
    }
    if exists|rest: Seq<char>| s == #[trigger] (rest + pat) {
        let rest = choose|rest: Seq<char>| s == #[trigger] (rest + pat);
        assert((rest + pat).skip((rest + pat).len() - pat.len()) =~= pat);
    }
}

/// Lower case leaves everything but the capital letters of ASCII as it is, and
/// upper case its small ones; each undoes the other on letters.
pub proof fn lemma_case_changes_letters_only(c: char)
    ensures
        'A' <= c && c <= 'Z' ==> ascii_lower(c) as int == c as int + 32,
        !('A' <= c && c <= 'Z') ==> ascii_lower(c) == c,
        'a' <= c && c <= 'z' ==> ascii_upper(c) as int == c as int - 32,
        !('a' <= c && c <= 'z') ==> ascii_upper(c) == c,
        'A' <= c && c <= 'Z' ==> ascii_upper(ascii_lower(c)) == c,
        'a' <= c && c <= 'z' ==> ascii_lower(ascii_upper(c)) == c,
{
}

/// Lower case goes character by character.
pub proof fn lemma_lowered_is_each_lowered(s: Seq<char>, i: int)
    requires
        0 <= i < s.len(),
    ensures
        lowered(s).len() == s.len(),
        lowered(s)[i] == ascii_lower(s[i]),
        lowered(lowered(s)) == lowered(s),
{
    assert(lowered(lowered(s)) =~= lowered(s));
}

/// What is cut to length begins as the whole does, keeps as much of it as fits
/// beside the ellipsis, and says by it that something is missing.
pub proof fn lemma_what_is_cut_says_so(s: Seq<char>, max: nat, i: int)
    requires
        max > 0,
        s.len() > max,
        0 <= i < max - 1,
    ensures
        truncated(s, max).len() == max,
        truncated(s, max).last() == '…',
        truncated(s, max)[i] == s[i],
{
}

/// The words of a string are its characters that are not whitespace, in order,
/// and no word holds any other.
pub proof fn lemma_words_are_what_is_not_white(s: Seq<char>)
    ensures
        words_of(s).flatten() == s.filter(|c: char| !is_white(c)),
        forall|i: int, j: int|
            0 <= i < words_of(s).len() && 0 <= j < words_of(s)[i].len() ==> !is_white(
                #[trigger] words_of(s)[i][j],
            ),
    decreases s.len(),
{
    reveal(Seq::filter);
    if s.len() > 0 {
        let d = s.drop_last();
        let c = s.last();
        lemma_words_are_what_is_not_white(d);
        lemma_words(d);
        let w = words_of(d);
        let u = words_of(s);
        assert(s.len() > 1 ==> s[s.len() - 2] == d.last());
        if !is_white(c) {
            if s.len() > 1 && !is_white(s[s.len() - 2]) {
                let h = w.drop_last();
                let l = w.last();
                assert(w =~= h.push(l));
                h.lemma_flatten_push(l);
                h.lemma_flatten_push(l.push(c));
                assert(u == h.push(l.push(c)));
                assert(h.flatten() + l.push(c) =~= (h.flatten() + l).push(c));
                assert forall|i: int, j: int| 0 <= i < u.len() && 0 <= j < u[i].len() implies !is_white(
                    #[trigger] u[i][j],
                ) by {
                    if i < h.len() {
                        assert(u[i] == w[i]);
                        assert(!is_white(w[i][j]));
                    } else if j < l.len() {
                        assert(u[i][j] == w[i][j]);
                    }
                }
            } else {
                w.lemma_flatten_push(seq![c]);
                assert(w.flatten() + seq![c] =~= w.flatten().push(c));
                assert forall|i: int, j: int| 0 <= i < u.len() && 0 <= j < u[i].len() implies !is_white(
                    #[trigger] u[i][j],
                ) by {
                    if i < w.len() {
                        assert(u[i] == w[i]);
                        assert(!is_white(w[i][j]));
                    }
                }
            }
        }
    }
}

/// A blank between two characters parts two words, and nothing else does.
pub proof fn lemma_words_part_at_blanks(s: Seq<char>, c: char)
    requires
        !is_white(c),
    ensures
        s.len() == 0 || is_white(s.last()) ==> words_of(s.push(c)) == words_of(s).push(seq![c]),
        s.len() > 0 && !is_white(s.last()) ==> words_of(s.push(c)).len() == words_of(s).len(),
{
    let t = s.push(c);
    assert(t.drop_last() =~= s);
    lemma_words(s);
    if s.len() > 0 {
        assert(t[t.len() - 2] == s.last());
    }
}

/// Trimming a whole leaves what is not blank of each of its parts.
pub proof fn lemma_trim_keeps_the_inside(before: Seq<char>, x: Seq<char>, after: Seq<char>)
    requires
        !is_blank(x),
    ensures
        occurs_in(trim_of(x), trim_of(before + x + after)),
{
    let all = before + x + after;
    lemma_trim_drops_only_white(x);
    lemma_trim_drops_only_white(all);
    let (a, b) = choose|a: int, b: int|
        0 <= a <= b <= x.len() && #[trigger] x.subrange(a, b) == trim_of(x) && (forall|i: int|
            0 <= i < a || b <= i < x.len() ==> is_white(#[trigger] x[i]));
    let (c, d) = choose|c: int, d: int|
        0 <= c <= d <= all.len() && #[trigger] all.subrange(c, d) == trim_of(all) && (forall|i: int|
            0 <= i < c || d <= i < all.len() ==> is_white(#[trigger] all[i]));
    let k = before.len() as int;
    let u = trim_of(x);
    let t = trim_of(all);
    assert(u[0] == x[a] && x[a] == all[k + a]);
    assert(u.last() == x[b - 1] && x[b - 1] == all[k + b - 1]);
    assert(c <= k + a && k + b <= d);
    let i = k + a - c;
    assert(t.subrange(i, i + u.len()) =~= u) by {
        assert forall|j: int| 0 <= j < u.len() implies t[i + j] == u[j] by {
            assert(t[i + j] == all[k + a + j]);
        }
    }
}

/// A text is all digits if and only if each of its characters is one of the
/// ten.
pub proof fn lemma_digits_are_the_ten(s: Seq<char>)
    ensures
        all_digits(s) <==> forall|i: int| 0 <= i < s.len() ==> '0' <= #[trigger] s[i] <= '9',
{
    if all_digits(s) {
        assert forall|i: int| 0 <= i < s.len() implies '0' <= #[trigger] s[i] <= '9' by {
            assert(is_digit(s[i]));
        }
    }
}

} // verus!
