//! Parsing a hotkey written in a config file.
//!
//! One spelling everywhere -- `hotkey = "ctrl+alt+d"` means the same thing on
//! every platform -- even though what can be done with it does not.

use crate::platform::Platform;
use crate::text::{
    self, all_digits, ascii_upper, decimal, is_digit, is_lower, is_upper, lowered, split_of, texts,
    trim_of, value_of,
};
use vstd::prelude::*;

verus! {

/// Modifier keys, as a set.
#[derive(Debug, Clone, Copy, PartialEq, Eq, Structural)]
pub struct Mods {
    pub ctrl: bool,
    pub alt: bool,
    pub shift: bool,
    /// Super, Windows, Command, Meta -- one key, four names.
    pub meta: bool,
}

impl Default for Mods {
    fn default() -> (r: Mods)
        ensures
            r == (Mods { ctrl: false, alt: false, shift: false, meta: false }),
    {
        Mods { ctrl: false, alt: false, shift: false, meta: false }
    }
}

impl Mods {
    pub open spec fn some(self) -> bool {
        self.ctrl || self.alt || self.shift || self.meta
    }

    pub fn any(self) -> (r: bool)
        ensures
            r == self.some(),
    {
        self.ctrl || self.alt || self.shift || self.meta
    }
}

/// A parsed hotkey: some modifiers and exactly one ordinary key.
#[derive(Debug, PartialEq, Eq)]
pub struct HotKey {
    pub mods: Mods,
    /// The key as a W3C `KeyboardEvent.code` name, e.g. `KeyD`, `F9`, `Space`.
    pub code: String,
    /// The text the user wrote, for error messages and logging.
    pub spelled: String,
}

impl Clone for HotKey {
    fn clone(&self) -> (r: HotKey)
        ensures
            r == *self,
    {
        HotKey { mods: self.mods, code: self.code.clone(), spelled: self.spelled.clone() }
    }
}

/// The key a name of more than one letter stands for.
pub open spec fn named_key(name: Seq<char>) -> Option<Seq<char>> {
    if name == "space"@ {
        Some("Space"@)
    } else if name == "enter"@ || name == "return"@ {
        Some("Enter"@)
    } else if name == "tab"@ {
        Some("Tab"@)
    } else if name == "esc"@ || name == "escape"@ {
        Some("Escape"@)
    } else if name == "backspace"@ {
        Some("Backspace"@)
    } else if name == "delete"@ || name == "del"@ {
        Some("Delete"@)
    } else if name == "insert"@ || name == "ins"@ {
        Some("Insert"@)
    } else if name == "home"@ {
        Some("Home"@)
    } else if name == "end"@ {
        Some("End"@)
    } else if name == "pageup"@ || name == "pgup"@ {
        Some("PageUp"@)
    } else if name == "pagedown"@ || name == "pgdn"@ {
        Some("PageDown"@)
    } else if name == "up"@ {
        Some("ArrowUp"@)
    } else if name == "down"@ {
        Some("ArrowDown"@)
    } else if name == "left"@ {
        Some("ArrowLeft"@)
    } else if name == "right"@ {
        Some("ArrowRight"@)
    } else if name == "comma"@ {
        Some("Comma"@)
    } else if name == "period"@ || name == "dot"@ {
        Some("Period"@)
    } else if name == "slash"@ {
        Some("Slash"@)
    } else if name == "backslash"@ {
        Some("Backslash"@)
    } else if name == "semicolon"@ {
        Some("Semicolon"@)
    } else if name == "quote"@ {
        Some("Quote"@)
    } else if name == "backquote"@ || name == "grave"@ {
        Some("Backquote"@)
    } else if name == "minus"@ || name == "dash"@ {
        Some("Minus"@)
    } else if name == "equal"@ || name == "equals"@ {
        Some("Equal"@)
    } else if name == "leftbracket"@ {
        Some("BracketLeft"@)
    } else if name == "rightbracket"@ {
        Some("BracketRight"@)
    } else {
        None
    }
}

fn named(name: &str) -> (r: Option<&'static str>)
    ensures
        match r {
            Some(c) => named_key(name@) == Some(c@),
            None => named_key(name@) is None,
        },
{
    if text::same(name, "space") {
        Some("Space")
    } else if text::same(name, "enter") || text::same(name, "return") {
        Some("Enter")
    } else if text::same(name, "tab") {
        Some("Tab")
    } else if text::same(name, "esc") || text::same(name, "escape") {
        Some("Escape")
    } else if text::same(name, "backspace") {
        Some("Backspace")
    } else if text::same(name, "delete") || text::same(name, "del") {
        Some("Delete")
    } else if text::same(name, "insert") || text::same(name, "ins") {
        Some("Insert")
    } else if text::same(name, "home") {
        Some("Home")
    } else if text::same(name, "end") {
        Some("End")
    } else if text::same(name, "pageup") || text::same(name, "pgup") {
        Some("PageUp")
    } else if text::same(name, "pagedown") || text::same(name, "pgdn") {
        Some("PageDown")
    } else if text::same(name, "up") {
        Some("ArrowUp")
    } else if text::same(name, "down") {
        Some("ArrowDown")
    } else if text::same(name, "left") {
        Some("ArrowLeft")
    } else if text::same(name, "right") {
        Some("ArrowRight")
    } else if text::same(name, "comma") {
        Some("Comma")
    } else if text::same(name, "period") || text::same(name, "dot") {
        Some("Period")
    } else if text::same(name, "slash") {
        Some("Slash")
    } else if text::same(name, "backslash") {
        Some("Backslash")
    } else if text::same(name, "semicolon") {
        Some("Semicolon")
    } else if text::same(name, "quote") {
        Some("Quote")
    } else if text::same(name, "backquote") || text::same(name, "grave") {
        Some("Backquote")
    } else if text::same(name, "minus") || text::same(name, "dash") {
        Some("Minus")
    } else if text::same(name, "equal") || text::same(name, "equals") {
        Some("Equal")
    } else if text::same(name, "leftbracket") {
        Some("BracketLeft")
    } else if text::same(name, "rightbracket") {
        Some("BracketRight")
    } else {
        None
    }
}

/// The number of a function key: `f` and the digits of a number from 1 to 24,
/// which may have a plus sign in front.
pub open spec fn function_key(name: Seq<char>) -> Option<nat> {
    let digits = if name.len() > 1 && name[1] == '+' {
        name.skip(2)
    } else {
        name.skip(1)
    };
    if name.len() > 1 && name[0] == 'f' && all_digits(digits) && 1 <= value_of(digits) <= 24 {
        Some(value_of(digits))
    } else {
        None
    }
}

/// The W3C `KeyboardEvent.code` a written key name stands for.
pub open spec fn code_of(name: Seq<char>) -> Option<Seq<char>> {
    if name.len() == 1 && (is_lower(name[0]) || is_upper(name[0])) {
        Some("Key"@.push(ascii_upper(name[0])))
    } else if name.len() == 1 && is_digit(name[0]) {
        Some("Digit"@.push(name[0]))
    } else if function_key(name) is Some {
        Some("F"@ + decimal(function_key(name)->0))
    } else {
        named_key(name)
    }
}

proof fn lemma_value_grows(s: Seq<char>, i: int)
    requires
        all_digits(s),
        0 <= i <= s.len(),
    ensures
        value_of(s.take(i)) <= value_of(s),
    decreases s.len() - i,
{
    if i < s.len() {
        lemma_value_grows(s, i + 1);
        assert(s.take(i + 1).drop_last() == s.take(i));
        assert(is_digit(s[i]));
    } else {
        assert(s.take(i) == s);
    }
}

fn function_number(v: &Vec<char>) -> (r: Option<u64>)
    ensures
        match r {
            Some(n) => function_key(v@) == Some(n as nat),
            None => function_key(v@) is None,
        },
{
    if v.len() < 2 || v[0] != 'f' {
        return None;
    }
    let start: usize = if v[1] == '+' {
        2
    } else {
        1
    };
    let ghost digits = v@.skip(start as int);
    let mut n: u64 = 0;
    let mut i: usize = start;
    assert(digits.take(0) == Seq::<char>::empty());
    while i < v.len()
        invariant
            1 <= start <= i <= v@.len(),
            digits == v@.skip(start as int),
            digits == (if v@[1] == '+' {
                v@.skip(2)
            } else {
                v@.skip(1)
            }),
            v@.len() > 1,
            n <= 24,
            forall|j: int| 0 <= j < i - start ==> is_digit(#[trigger] digits[j]),
            n == value_of(digits.take(i - start)),
        decreases v@.len() - i,
    {
        let c = v[i];
        assert(digits[i - start] == c);
        if !('0' <= c && c <= '9') {
            return None;
        }
        assert(digits.take(i - start + 1).drop_last() == digits.take(i - start));
        n = n * 10 + (c as u64 - 0x30);
        if n > 24 {
            proof {
                if all_digits(digits) {
                    lemma_value_grows(digits, i - start + 1);
                }
            }
            return None;
        }
        i += 1;
    }
    assert(digits.take(i - start) == digits);
    if n >= 1 {
        Some(n)
    } else {
        None
    }
}

/// Map a written key name to its W3C `KeyboardEvent.code`.
pub fn code_for(name: &str) -> (r: Option<String>)
    ensures
        match r {
            Some(c) => code_of(name@) == Some(c@),
            None => code_of(name@) is None,
        },
{
    let v = text::chars_of(name);
    if v.len() == 1 {
        let c = v[0];
        if ('a' <= c && c <= 'z') || ('A' <= c && c <= 'Z') {
            let mut s = "Key".to_owned();
            text::push_char(&mut s, text::upper_char(c));
            return Some(s);
        }
        if '0' <= c && c <= '9' {
            let mut s = "Digit".to_owned();
            text::push_char(&mut s, c);
            return Some(s);
        }
    }
    if let Some(n) = function_number(&v) {
        let mut s = "F".to_owned();
        let d = text::decimal_text(n);
        s.append(d.as_str());
        return Some(s);
    }
    match named(name) {
        Some(c) => Some(c.to_owned()),
        None => None,
    }
}

/// Keys that are safe to bind without a modifier, because nothing types them.
pub open spec fn stands_alone(code: Seq<char>) -> bool {
    code.len() > 0 && code[0] == 'F' && all_digits(code.skip(1))
}

pub fn is_standalone(code: &str) -> (r: bool)
    ensures
        r == stands_alone(code@),
{
    let v = text::chars_of(code);
    if v.len() == 0 || v[0] != 'F' {
        return false;
    }
    let mut i: usize = 1;
    while i < v.len()
        invariant
            v@ == code@,
            1 <= i <= v@.len(),
            forall|j: int| 0 <= j < i - 1 ==> is_digit(#[trigger] code@.skip(1)[j]),
        decreases v@.len() - i,
    {
        assert(code@.skip(1)[i - 1] == v@[i as int]);
        if !('0' <= v[i] && v[i] <= '9') {
            return false;
        }
        i += 1;
    }
    true
}

/// Which modifier a part names.
pub open spec fn with_modifier(m: Mods, part: Seq<char>) -> Option<Mods> {
    if part == "ctrl"@ || part == "control"@ {
        Some(Mods { ctrl: true, ..m })
    } else if part == "alt"@ || part == "option"@ {
        Some(Mods { alt: true, ..m })
    } else if part == "shift"@ {
        Some(Mods { shift: true, ..m })
    } else if part == "super"@ || part == "win"@ || part == "windows"@ || part == "cmd"@ || part
        == "command"@ || part == "meta"@ {
        Some(Mods { meta: true, ..m })
    } else {
        None
    }
}

fn add_modifier(m: Mods, part: &str) -> (r: Option<Mods>)
    ensures
        r == with_modifier(m, part@),
{
    if text::same(part, "ctrl") || text::same(part, "control") {
        Some(Mods { ctrl: true, alt: m.alt, shift: m.shift, meta: m.meta })
    } else if text::same(part, "alt") || text::same(part, "option") {
        Some(Mods { ctrl: m.ctrl, alt: true, shift: m.shift, meta: m.meta })
    } else if text::same(part, "shift") {
        Some(Mods { ctrl: m.ctrl, alt: m.alt, shift: true, meta: m.meta })
    } else if text::same(part, "super") || text::same(part, "win") || text::same(part, "windows")
        || text::same(part, "cmd") || text::same(part, "command") || text::same(part, "meta") {
        Some(Mods { ctrl: m.ctrl, alt: m.alt, shift: m.shift, meta: true })
    } else {
        None
    }
}

/// Modifiers and a key, as far as the parts of a hotkey have been read.
pub struct Combination {
    pub mods: Mods,
    pub key: Option<Seq<char>>,
}

/// The combination after one more part, or what is wrong with that part.
pub open spec fn read_part(spec: Seq<char>, c: Combination, part: Seq<char>) -> Result<
    Combination,
    Seq<char>,
> {
    if part.len() == 0 {
        Err("`"@ + spec + "` has an empty part; write it like `ctrl+alt+d`"@)
    } else if with_modifier(c.mods, part) is Some {
        Ok(Combination { mods: with_modifier(c.mods, part)->0, key: c.key })
    } else if c.key is Some {
        Err(
            "`"@ + spec
                + "` names more than one ordinary key; a hotkey takes modifiers plus exactly one key"@,
        )
    } else if code_of(part) is Some {
        Ok(Combination { mods: c.mods, key: code_of(part) })
    } else {
        Err("`"@ + part + "` in `"@ + spec + "` is not a key syrinx recognises"@)
    }
}

/// A part as it is read: case and surrounding spaces do not matter.
pub open spec fn plain(part: Seq<char>) -> Seq<char> {
    lowered(trim_of(part))
}

/// What the parts of a hotkey amount to, or what is wrong with the first part
/// that is wrong.
pub open spec fn read_parts(spec: Seq<char>, parts: Seq<Seq<char>>) -> Result<
    Combination,
    Seq<char>,
>
    decreases parts.len(),
{
    if parts.len() == 0 {
        Ok(
            Combination {
                mods: Mods { ctrl: false, alt: false, shift: false, meta: false },
                key: None,
            },
        )
    } else {
        match read_parts(spec, parts.drop_last()) {
            Ok(c) => read_part(spec, c, plain(parts.last())),
            Err(e) => Err(e),
        }
    }
}

/// What `spec` means as a hotkey, or why it means none.
pub open spec fn meaning(spec: Seq<char>) -> Result<(Mods, Seq<char>), Seq<char>> {
    let trimmed = trim_of(spec);
    if trimmed.len() == 0 {
        Err("a hotkey cannot be empty"@)
    } else {
        match read_parts(spec, split_of(trimmed, '+')) {
            Err(e) => Err(e),
            Ok(c) => match c.key {
                None => Err(
                    "`"@ + spec
                        + "` is only modifiers; it needs a key as well, like `ctrl+alt+d`"@,
                ),
                Some(code) => if !c.mods.some() && !stands_alone(code) {
                    Err(
                        "`"@ + spec + "` has no modifier. Add one (`ctrl+alt+"@ + lowered(trimmed)
                            + "`), or use a function key, which is safe on its own"@,
                    )
                } else {
                    Ok((c.mods, code))
                },
            },
        }
    }
}

/// Parse a hotkey such as `ctrl+alt+d`, `super+shift+space` or `f9`.
pub fn parse(spec: &str) -> (r: Result<HotKey, String>)
    ensures
        match (r, meaning(spec@)) {
            (Ok(h), Ok((mods, code))) => h.mods == mods && h.code@ == code && h.spelled@ == trim_of(
                spec@,
            ),
            (Err(e), Err(why)) => e@ == why,
            _ => false,
        },
{
    let trimmed = text::trim(spec);
    if text::blank(spec) {
        return Err("a hotkey cannot be empty".to_owned());
    }
    let parts = text::split(trimmed.as_str(), '+');
    let ghost all = texts(parts@);
    let mut mods = Mods { ctrl: false, alt: false, shift: false, meta: false };
    let mut key: Option<String> = None;
    let mut i: usize = 0;
    proof {
        lemma_stop_at_error(spec@, all);
    }
    while i < parts.len()
        invariant
            i <= parts@.len(),
            all == texts(parts@),
            all == split_of(trim_of(spec@), '+'),
            trim_of(spec@).len() > 0,
            read_parts(spec@, all.take(i as int)) == Ok::<Combination, Seq<char>>(
                Combination { mods, key: text::opt_view(key) },
            ),
            forall|k: int|
                0 <= k <= all.len() && (#[trigger] read_parts(spec@, all.take(k))) is Err
                    ==> read_parts(spec@, all) == read_parts(spec@, all.take(k)),
        decreases parts@.len() - i,
    {
        assert(all.take(i + 1).drop_last() == all.take(i as int));
        assert(all.take(i + 1).last() == parts@[i as int]@);
        let t = text::trim(parts[i].as_str());
        let p = text::lower(t.as_str());
        let ghost c = Combination { mods, key: text::opt_view(key) };
        assert(read_parts(spec@, all.take(i + 1)) == read_part(spec@, c, p@));
        if text::chars_of(p.as_str()).len() == 0 {
            let mut e = "`".to_owned();
            e.append(spec);
            e.append("` has an empty part; write it like `ctrl+alt+d`");
            return Err(e);
        }
        match add_modifier(mods, p.as_str()) {
            Some(m) => {
                mods = m;
            },
            None => {
                if key.is_some() {
                    let mut e = "`".to_owned();
                    e.append(spec);
                    e.append(
                        "` names more than one ordinary key; a hotkey takes modifiers plus exactly one key",
                    );
                    return Err(e);
                }
                match code_for(p.as_str()) {
                    Some(code) => {
                        key = Some(code);
                    },
                    None => {
                        let mut e = "`".to_owned();
                        e.append(p.as_str());
                        e.append("` in `");
                        e.append(spec);
                        e.append("` is not a key syrinx recognises");
                        return Err(e);
                    },
                }
            },
        }
        i += 1;
    }
    assert(all.take(i as int) == all);
    match key {
        None => {
            let mut e = "`".to_owned();
            e.append(spec);
            e.append("` is only modifiers; it needs a key as well, like `ctrl+alt+d`");
            Err(e)
        },
        Some(code) => {
            if !mods.any() && !is_standalone(code.as_str()) {
                let mut e = "`".to_owned();
                e.append(spec);
                e.append("` has no modifier. Add one (`ctrl+alt+");
                let low = text::lower(trimmed.as_str());
                e.append(low.as_str());
                e.append("`), or use a function key, which is safe on its own");
                return Err(e);
            }
            Ok(HotKey { mods, code, spelled: trimmed })
        },
    }
}

proof fn lemma_error_sticks(spec: Seq<char>, parts: Seq<Seq<char>>, k: int)
    requires
        0 <= k <= parts.len(),
        read_parts(spec, parts.take(k)) is Err,
    ensures
        read_parts(spec, parts) == read_parts(spec, parts.take(k)),
    decreases parts.len() - k,
{
    if k < parts.len() {
        assert(parts.take(k + 1).drop_last() == parts.take(k));
        lemma_error_sticks(spec, parts, k + 1);
    } else {
        assert(parts.take(k) == parts);
    }
}

proof fn lemma_stop_at_error(spec: Seq<char>, parts: Seq<Seq<char>>)
    ensures
        forall|k: int|
            0 <= k <= parts.len() && (#[trigger] read_parts(spec, parts.take(k))) is Err
                ==> read_parts(spec, parts) == read_parts(spec, parts.take(k)),
{
    assert forall|k: int|
        0 <= k <= parts.len() && (#[trigger] read_parts(spec, parts.take(k))) is Err implies read_parts(
        spec,
        parts,
    ) == read_parts(spec, parts.take(k)) by {
        lemma_error_sticks(spec, parts, k);
    }
}

/// A hotkey never claims a key that types something: it has a modifier, or it
/// is a function key.
pub proof fn lemma_hotkey_types_nothing(spec: Seq<char>)
    ensures
        meaning(spec) matches Ok((mods, code)) ==> mods.some() || stands_alone(code),
{
}

/// One more part read into a combination, whatever is wrong with it when
/// something is.
spec fn combined(c: Option<Combination>, part: Seq<char>) -> Option<Combination> {
    match c {
        Some(c) => match read_part(Seq::empty(), c, part) {
            Ok(d) => Some(d),
            Err(_) => None,
        },
        None => None,
    }
}

spec fn nothing_yet() -> Combination {
    Combination { mods: Mods { ctrl: false, alt: false, shift: false, meta: false }, key: None }
}

/// Reading parts is reading them one after another.
proof fn lemma_parts_combine(spec: Seq<char>, parts: Seq<Seq<char>>)
    ensures
        ({
            let all = parts.map_values(|p: Seq<char>| plain(p)).fold_left(
                Some(nothing_yet()),
                |c: Option<Combination>, p: Seq<char>| combined(c, p),
            );
            match read_parts(spec, parts) {
                Ok(c) => all == Some(c),
                Err(_) => all is None,
            }
        }),
    decreases parts.len(),
{
    let f = |c: Option<Combination>, p: Seq<char>| combined(c, p);
    let all = parts.map_values(|p: Seq<char>| plain(p));
    if parts.len() > 0 {
        lemma_parts_combine(spec, parts.drop_last());
        assert(all.drop_last() =~= parts.drop_last().map_values(|p: Seq<char>| plain(p)));
        assert(all.last() == plain(parts.last()));
        assert(all.fold_left(Some(nothing_yet()), f) == f(
            all.drop_last().fold_left(Some(nothing_yet()), f),
            all.last(),
        ));
    }
}

/// Two parts can be read in either order.
proof fn lemma_parts_commute(c: Option<Combination>, x: Seq<char>, y: Seq<char>)
    ensures
        combined(combined(c, x), y) == combined(combined(c, y), x),
{
}

/// Neither the order of a hotkey's parts matters, nor their case, nor the spaces
/// around them: two spellings whose parts differ in these alone are the same
/// hotkey, or neither is one.
pub proof fn lemma_spelling_is_forgiving(a: Seq<char>, b: Seq<char>)
    requires
        split_of(trim_of(a), '+').map_values(|p: Seq<char>| plain(p)).to_multiset() == split_of(
            trim_of(b),
            '+',
        ).map_values(|p: Seq<char>| plain(p)).to_multiset(),
    ensures
        meaning(a) is Ok <==> meaning(b) is Ok,
        meaning(a) is Ok ==> meaning(a) == meaning(b),
{
    let f = |c: Option<Combination>, p: Seq<char>| combined(c, p);
    let p = split_of(trim_of(a), '+');
    let q = split_of(trim_of(b), '+');
    assert forall|x: Seq<char>, y: Seq<char>, c: Option<Combination>| #[trigger]
        f(f(c, x), y) == f(f(c, y), x) by {
        lemma_parts_commute(c, x, y);
    }
    vstd::seq_lib::lemma_fold_left_permutation(
        p.map_values(|s: Seq<char>| plain(s)),
        q.map_values(|s: Seq<char>| plain(s)),
        f,
        Some(nothing_yet()),
    );
    lemma_parts_combine(a, p);
    lemma_parts_combine(b, q);
    lemma_empty_is_refused(a);
    lemma_empty_is_refused(b);
}

/// Nothing but spaces is an empty part.
proof fn lemma_empty_is_refused(spec: Seq<char>)
    ensures
        trim_of(spec).len() == 0 ==> read_parts(spec, split_of(trim_of(spec), '+')) is Err,
{
    if trim_of(spec).len() == 0 {
        let parts = split_of(trim_of(spec), '+');
        assert(parts == seq![Seq::<char>::empty()]);
        assert(plain(parts.last()).len() == 0);
        assert(read_parts(spec, parts.drop_last()) is Ok);
    }
}

/// What became of the configured global hotkey.
#[allow(inconsistent_fields)]
#[derive(Debug, PartialEq, Eq)]
pub enum Report {
    /// None was asked for.
    Unset,
    /// One was asked for and cannot work here.
    Unavailable { spelled: String, why: String },
    /// One was asked for and could not be registered.
    Failed { spelled: String, error: String },
    Active { spelled: String },
}

impl Default for Report {
    fn default() -> (r: Report)
        ensures
            r == Report::Unset,
    {
        Report::Unset
    }
}

impl Clone for Report {
    fn clone(&self) -> (r: Report)
        ensures
            r == *self,
    {
        match self {
            Report::Unset => Report::Unset,
            Report::Unavailable { spelled, why } => Report::Unavailable {
                spelled: spelled.clone(),
                why: why.clone(),
            },
            Report::Failed { spelled, error } => Report::Failed {
                spelled: spelled.clone(),
                error: error.clone(),
            },
            Report::Active { spelled } => Report::Active { spelled: spelled.clone() },
        }
    }
}

/// What a config file says about hotkeys, on every platform.
pub const PORTABILITY_NOTE: &'static str = "Global hotkey to start and stop dictation, e.g. \"ctrl+alt+d\".\nModifiers: ctrl, alt, shift, super. Function keys work on their own.\nUnset by default, because this claims the key for the whole desktop.\n\nRegistered by syrinx on Windows and on Linux under X11. Wayland does not let\nan application claim a global hotkey -- the compositor owns input -- so\nbind it in the compositor there instead, e.g. for Sway:\n    bindsym $mod+n exec syrinx toggle";

/// Why a process cannot claim a global hotkey on a machine, if it cannot.
///
/// Wayland is the interesting case: the protocol has no way for a client to
/// grab a key globally, by design.
pub open spec fn unsupported(here: Platform, wayland: bool) -> Option<Seq<char>> {
    match here {
        Platform::Windows => None,
        Platform::Linux => if wayland {
            Some(
                "Wayland does not let an application claim a global hotkey -- the compositor owns input. Bind one in your compositor instead, e.g. for Sway add to ~/.config/sway/config:\n    bindsym $mod+n exec syrinx toggle"@,
            )
        } else {
            None
        },
        Platform::Other => Some("global hotkeys are not implemented on this platform"@),
    }
}

pub fn supported_here(here: Platform, wayland: bool) -> (r: Option<&'static str>)
    ensures
        match r {
            Some(w) => unsupported(here, wayland) == Some(w@),
            None => unsupported(here, wayland) is None,
        },
{
    match here {
        Platform::Windows => None,
        Platform::Linux => if wayland {
            Some(
                "Wayland does not let an application claim a global hotkey -- the compositor owns input. Bind one in your compositor instead, e.g. for Sway add to ~/.config/sway/config:\n    bindsym $mod+n exec syrinx toggle",
            )
        } else {
            None
        },
        Platform::Other => Some("global hotkeys are not implemented on this platform"),
    }
}

/// Each key with a name of its own goes by that name and its short forms, and
/// by no other key's.
#[verifier::spinoff_prover]
pub proof fn lemma_each_name_is_one_keys(name: Seq<char>)
    ensures
        named_key(name) == Some("Space"@) <==> name == "space"@,
        named_key(name) == Some("Enter"@) <==> name == "enter"@ || name == "return"@,
        named_key(name) == Some("Tab"@) <==> name == "tab"@,
        named_key(name) == Some("Escape"@) <==> name == "esc"@ || name == "escape"@,
        named_key(name) == Some("Backspace"@) <==> name == "backspace"@,
        named_key(name) == Some("Delete"@) <==> name == "delete"@ || name == "del"@,
        named_key(name) == Some("Insert"@) <==> name == "insert"@ || name == "ins"@,
        named_key(name) == Some("Home"@) <==> name == "home"@,
        named_key(name) == Some("End"@) <==> name == "end"@,
        named_key(name) == Some("PageUp"@) <==> name == "pageup"@ || name == "pgup"@,
        named_key(name) == Some("PageDown"@) <==> name == "pagedown"@ || name == "pgdn"@,
        named_key(name) == Some("ArrowUp"@) <==> name == "up"@,
        named_key(name) == Some("ArrowDown"@) <==> name == "down"@,
        named_key(name) == Some("ArrowLeft"@) <==> name == "left"@,
        named_key(name) == Some("ArrowRight"@) <==> name == "right"@,
        named_key(name) == Some("Comma"@) <==> name == "comma"@,
        named_key(name) == Some("Period"@) <==> name == "period"@ || name == "dot"@,
        named_key(name) == Some("Slash"@) <==> name == "slash"@,
        named_key(name) == Some("Backslash"@) <==> name == "backslash"@,
        named_key(name) == Some("Semicolon"@) <==> name == "semicolon"@,
        named_key(name) == Some("Quote"@) <==> name == "quote"@,
        named_key(name) == Some("Backquote"@) <==> name == "backquote"@ || name == "grave"@,
        named_key(name) == Some("Minus"@) <==> name == "minus"@ || name == "dash"@,
        named_key(name) == Some("Equal"@) <==> name == "equal"@ || name == "equals"@,
        named_key(name) == Some("BracketLeft"@) <==> name == "leftbracket"@,
        named_key(name) == Some("BracketRight"@) <==> name == "rightbracket"@,
{
    reveal_strlit("Space");
    reveal_strlit("Enter");
    reveal_strlit("Tab");
    reveal_strlit("Escape");
    reveal_strlit("Backspace");
    reveal_strlit("Delete");
    reveal_strlit("Insert");
    reveal_strlit("Home");
    reveal_strlit("End");
    reveal_strlit("PageUp");
    reveal_strlit("PageDown");
    reveal_strlit("ArrowUp");
    reveal_strlit("ArrowDown");
    reveal_strlit("ArrowLeft");
    reveal_strlit("ArrowRight");
    reveal_strlit("Comma");
    reveal_strlit("Period");
    reveal_strlit("Slash");
    reveal_strlit("Backslash");
    reveal_strlit("Semicolon");
    reveal_strlit("Quote");
    reveal_strlit("Backquote");
    reveal_strlit("Minus");
    reveal_strlit("Equal");
    reveal_strlit("BracketLeft");
    reveal_strlit("BracketRight");
    reveal_strlit("space");
    reveal_strlit("enter");
    reveal_strlit("return");
    reveal_strlit("tab");
    reveal_strlit("esc");
    reveal_strlit("escape");
    reveal_strlit("backspace");
    reveal_strlit("delete");
    reveal_strlit("del");
    reveal_strlit("insert");
    reveal_strlit("ins");
    reveal_strlit("home");
    reveal_strlit("end");
    reveal_strlit("pageup");
    reveal_strlit("pgup");
    reveal_strlit("pagedown");
    reveal_strlit("pgdn");
    reveal_strlit("up");
    reveal_strlit("down");
    reveal_strlit("left");
    reveal_strlit("right");
    reveal_strlit("comma");
    reveal_strlit("period");
    reveal_strlit("dot");
    reveal_strlit("slash");
    reveal_strlit("backslash");
    reveal_strlit("semicolon");
    reveal_strlit("quote");
    reveal_strlit("backquote");
    reveal_strlit("grave");
    reveal_strlit("minus");
    reveal_strlit("dash");
    reveal_strlit("equal");
    reveal_strlit("equals");
    reveal_strlit("leftbracket");
    reveal_strlit("rightbracket");
    assert("space"@[0] == 's' && "space"@[1] == 'p');
    assert("enter"@[0] == 'e' && "enter"@[1] == 'n');
    assert("return"@[0] == 'r');
    assert("tab"@[0] == 't');
    assert("esc"@[0] == 'e' && "esc"@[1] == 's');
    assert("escape"@[0] == 'e' && "escape"@[1] == 's');
    assert("backspace"@[0] == 'b' && "backspace"@[4] == 's' && "backspace"@[5] == 'p');
    assert("delete"@[0] == 'd');
    assert("del"@[0] == 'd' && "del"@[1] == 'e');
    assert("insert"@[0] == 'i');
    assert("ins"@[0] == 'i');
    assert("home"@[0] == 'h');
    assert("end"@[0] == 'e' && "end"@[1] == 'n');
    assert("pageup"@[0] == 'p' && "pageup"@[1] == 'a');
    assert("pgup"@[0] == 'p' && "pgup"@[2] == 'u');
    assert("pgdn"@[0] == 'p' && "pgdn"@[2] == 'd');
    assert("down"@[0] == 'd' && "down"@[1] == 'o');
    assert("left"@[0] == 'l');
    assert("right"@[0] == 'r');
    assert("comma"@[0] == 'c');
    assert("period"@[0] == 'p' && "period"@[1] == 'e');
    assert("dot"@[0] == 'd' && "dot"@[1] == 'o');
    assert("slash"@[0] == 's' && "slash"@[1] == 'l');
    assert("backslash"@[0] == 'b' && "backslash"@[4] == 's' && "backslash"@[5] == 'l');
    assert("semicolon"@[0] == 's');
    assert("quote"@[0] == 'q');
    assert("backquote"@[0] == 'b' && "backquote"@[4] == 'q');
    assert("grave"@[0] == 'g');
    assert("minus"@[0] == 'm');
    assert("dash"@[0] == 'd' && "dash"@[1] == 'a');
    assert("equal"@[0] == 'e' && "equal"@[1] == 'q');
    assert("equals"@[0] == 'e' && "equals"@[1] == 'q');
    assert("Space"@[0] == 'S' && "Space"@[1] == 'p');
    assert("Enter"@[0] == 'E' && "Enter"@[1] == 'n');
    assert("Tab"@[0] == 'T');
    assert("Escape"@[0] == 'E');
    assert("Backspace"@[0] == 'B' && "Backspace"@[4] == 's' && "Backspace"@[5] == 'p');
    assert("Delete"@[0] == 'D');
    assert("Insert"@[0] == 'I');
    assert("End"@[0] == 'E');
    assert("PageUp"@[0] == 'P' && "PageUp"@[1] == 'a');
    assert("ArrowDown"@[0] == 'A' && "ArrowDown"@[5] == 'D');
    assert("ArrowLeft"@[0] == 'A' && "ArrowLeft"@[5] == 'L');
    assert("Comma"@[0] == 'C');
    assert("Period"@[0] == 'P' && "Period"@[1] == 'e');
    assert("Slash"@[0] == 'S' && "Slash"@[1] == 'l');
    assert("Backslash"@[0] == 'B' && "Backslash"@[4] == 's' && "Backslash"@[5] == 'l');
    assert("Semicolon"@[0] == 'S');
    assert("Quote"@[0] == 'Q');
    assert("Backquote"@[0] == 'B' && "Backquote"@[4] == 'q');
    assert("Minus"@[0] == 'M');
    assert("Equal"@[0] == 'E' && "Equal"@[1] == 'q');
    assert("space"@.len() == 5);
    assert("enter"@.len() == 5);
    assert("return"@.len() == 6);
    assert("tab"@.len() == 3);
    assert("esc"@.len() == 3);
    assert("escape"@.len() == 6);
    assert("backspace"@.len() == 9);
    assert("delete"@.len() == 6);
    assert("del"@.len() == 3);
    assert("insert"@.len() == 6);
    assert("ins"@.len() == 3);
    assert("home"@.len() == 4);
    assert("end"@.len() == 3);
    assert("pageup"@.len() == 6);
    assert("pgup"@.len() == 4);
    assert("pagedown"@.len() == 8);
    assert("pgdn"@.len() == 4);
    assert("up"@.len() == 2);
    assert("down"@.len() == 4);
    assert("left"@.len() == 4);
    assert("right"@.len() == 5);
    assert("comma"@.len() == 5);
    assert("period"@.len() == 6);
    assert("dot"@.len() == 3);
    assert("slash"@.len() == 5);
    assert("backslash"@.len() == 9);
    assert("semicolon"@.len() == 9);
    assert("quote"@.len() == 5);
    assert("backquote"@.len() == 9);
    assert("grave"@.len() == 5);
    assert("minus"@.len() == 5);
    assert("dash"@.len() == 4);
    assert("equal"@.len() == 5);
    assert("equals"@.len() == 6);
    assert("leftbracket"@.len() == 11);
    assert("rightbracket"@.len() == 12);
    assert("Space"@.len() == 5);
    assert("Enter"@.len() == 5);
    assert("Tab"@.len() == 3);
    assert("Escape"@.len() == 6);
    assert("Backspace"@.len() == 9);
    assert("Delete"@.len() == 6);
    assert("Insert"@.len() == 6);
    assert("Home"@.len() == 4);
    assert("End"@.len() == 3);
    assert("PageUp"@.len() == 6);
    assert("PageDown"@.len() == 8);
    assert("ArrowUp"@.len() == 7);
    assert("ArrowDown"@.len() == 9);
    assert("ArrowLeft"@.len() == 9);
    assert("ArrowRight"@.len() == 10);
    assert("Comma"@.len() == 5);
    assert("Period"@.len() == 6);
    assert("Slash"@.len() == 5);
    assert("Backslash"@.len() == 9);
    assert("Semicolon"@.len() == 9);
    assert("Quote"@.len() == 5);
    assert("Backquote"@.len() == 9);
    assert("Minus"@.len() == 5);
    assert("Equal"@.len() == 5);
    assert("BracketLeft"@.len() == 11);
    assert("BracketRight"@.len() == 12);
}

/// A letter is the key that types it whatever its case, and a digit the key of
/// the digit row that types it.
pub proof fn lemma_letters_and_digits_are_their_keys(c: char)
    ensures
        'a' <= c <= 'z' ==> code_of(seq![c]) == Some(
            "Key"@.push((c as int - 'a' as int + 'A' as int) as char),
        ),
        'A' <= c <= 'Z' ==> code_of(seq![c]) == Some("Key"@.push(c)),
        '0' <= c <= '9' ==> code_of(seq![c]) == Some("Digit"@.push(c)),
{
}

/// The function keys are `f1` to `f24`, each by its number, and no others.
pub proof fn lemma_function_keys_go_by_number(n: nat)
    ensures
        1 <= n <= 24 ==> code_of("f"@ + decimal(n)) == Some("F"@ + decimal(n)),
        1 <= n <= 24 ==> function_key("f"@ + decimal(n)) == Some(n),
        n == 0 || n > 24 ==> function_key("f"@ + decimal(n)) is None,
{
    reveal_strlit("f");
    text::lemma_decimal_round_trip(n);
    let name = "f"@ + decimal(n);
    assert(name.skip(1) =~= decimal(n));
    assert(name[1] == decimal(n)[0]);
    assert(is_digit(decimal(n)[0]));
}

/// Only a function key may be bound by itself.
#[verifier::spinoff_prover]
pub proof fn lemma_only_function_keys_stand_alone(name: Seq<char>)
    requires
        code_of(name) is Some,
    ensures
        stands_alone(code_of(name)->0) <==> function_key(name) is Some,
{
    reveal_strlit("F");
    reveal_strlit("Key");
    reveal_strlit("Digit");
    reveal_strlit("Space");
    reveal_strlit("Enter");
    reveal_strlit("Tab");
    reveal_strlit("Escape");
    reveal_strlit("Backspace");
    reveal_strlit("Delete");
    reveal_strlit("Insert");
    reveal_strlit("Home");
    reveal_strlit("End");
    reveal_strlit("PageUp");
    reveal_strlit("PageDown");
    reveal_strlit("ArrowUp");
    reveal_strlit("ArrowDown");
    reveal_strlit("ArrowLeft");
    reveal_strlit("ArrowRight");
    reveal_strlit("Comma");
    reveal_strlit("Period");
    reveal_strlit("Slash");
    reveal_strlit("Backslash");
    reveal_strlit("Semicolon");
    reveal_strlit("Quote");
    reveal_strlit("Backquote");
    reveal_strlit("Minus");
    reveal_strlit("Equal");
    reveal_strlit("BracketLeft");
    reveal_strlit("BracketRight");
    if function_key(name) is Some {
        let n = function_key(name)->0;
        text::lemma_decimal_round_trip(n);
        assert(("F"@ + decimal(n)).skip(1) =~= decimal(n));
    }
}

/// A part that names a modifier holds that one down, under any of its names,
/// and lets go of none.
pub proof fn lemma_each_modifier_has_its_names(m: Mods, part: Seq<char>)
    ensures
        ({
            let ctrl = part == "ctrl"@ || part == "control"@;
            let alt = part == "alt"@ || part == "option"@;
            let shift = part == "shift"@;
            let meta = part == "super"@ || part == "win"@ || part == "windows"@ || part == "cmd"@
                || part == "command"@ || part == "meta"@;
            &&& with_modifier(m, part) is Some <==> ctrl || alt || shift || meta
            &&& with_modifier(m, part) matches Some(n) ==> n.ctrl == (m.ctrl || ctrl) && n.alt == (
            m.alt || alt) && n.shift == (m.shift || shift) && n.meta == (m.meta || meta)
        }),
{
    reveal_strlit("ctrl");
    reveal_strlit("control");
    reveal_strlit("alt");
    reveal_strlit("option");
    reveal_strlit("shift");
    reveal_strlit("super");
    reveal_strlit("win");
    reveal_strlit("windows");
    reveal_strlit("cmd");
    reveal_strlit("command");
    reveal_strlit("meta");
    assert("ctrl"@[0] == 'c');
    assert("control"@[0] == 'c' && "control"@[2] == 'n');
    assert("alt"@[0] == 'a');
    assert("shift"@[1] == 'h');
    assert("super"@[1] == 'u');
    assert("win"@[0] == 'w');
    assert("windows"@[0] == 'w');
    assert("cmd"@[0] == 'c');
    assert("command"@[0] == 'c' && "command"@[2] == 'm');
    assert("meta"@[0] == 'm');
    assert("ctrl"@.len() == 4);
    assert("control"@.len() == 7);
    assert("alt"@.len() == 3);
    assert("option"@.len() == 6);
    assert("shift"@.len() == 5);
    assert("super"@.len() == 5);
    assert("win"@.len() == 3);
    assert("windows"@.len() == 7);
    assert("cmd"@.len() == 3);
    assert("command"@.len() == 7);
    assert("meta"@.len() == 4);
}

proof fn lemma_parts_are_all_read(spec: Seq<char>, parts: Seq<Seq<char>>)
    ensures
        read_parts(spec, parts) matches Ok(c) ==> {
            let none = Mods { ctrl: false, alt: false, shift: false, meta: false };
            &&& forall|i: int| 0 <= i < parts.len() ==> plain(#[trigger] parts[i]).len() > 0
            &&& forall|i: int|
                0 <= i < parts.len() ==> with_modifier(none, plain(#[trigger] parts[i])) is Some || (
                c.key is Some && code_of(plain(parts[i])) == c.key)
            &&& c.key is Some ==> exists|i: int|
                0 <= i < parts.len() && with_modifier(none, plain(#[trigger] parts[i])) is None
                    && code_of(plain(parts[i])) == c.key && (forall|j: int|
                    0 <= j < parts.len() && j != i ==> with_modifier(
                        none,
                        plain(#[trigger] parts[j]),
                    ) is Some)
            &&& c.mods.ctrl <==> exists|i: int|
                0 <= i < parts.len() && (plain(#[trigger] parts[i]) == "ctrl"@ || plain(parts[i])
                    == "control"@)
            &&& c.mods.alt <==> exists|i: int|
                0 <= i < parts.len() && (plain(#[trigger] parts[i]) == "alt"@ || plain(parts[i])
                    == "option"@)
            &&& c.mods.shift <==> exists|i: int|
                0 <= i < parts.len() && plain(#[trigger] parts[i]) == "shift"@
            &&& c.mods.meta <==> exists|i: int|
                0 <= i < parts.len() && (plain(#[trigger] parts[i]) == "super"@ || plain(parts[i])
                    == "win"@ || plain(parts[i]) == "windows"@ || plain(parts[i]) == "cmd"@
                    || plain(parts[i]) == "command"@ || plain(parts[i]) == "meta"@)
        },
    decreases parts.len(),
{
    if parts.len() > 0 {
        let before = parts.drop_last();
        lemma_parts_are_all_read(spec, before);
        let last = parts.last();
        let none = Mods { ctrl: false, alt: false, shift: false, meta: false };
        assert forall|i: int| 0 <= i < before.len() implies #[trigger] before[i] == parts[i] by {}
        assert(last == parts[parts.len() - 1]);
        if let Ok(b) = read_parts(spec, before) {
            lemma_each_modifier_has_its_names(b.mods, plain(last));
            lemma_each_modifier_has_its_names(none, plain(last));
            if read_parts(spec, parts) is Ok {
                let c = read_parts(spec, parts)->Ok_0;
                if b.key is Some {
                    let i = choose|i: int|
                        0 <= i < before.len() && with_modifier(
                            none,
                            plain(#[trigger] before[i]),
                        ) is None && code_of(plain(before[i])) == b.key && (forall|j: int|
                            0 <= j < before.len() && j != i ==> with_modifier(
                                none,
                                plain(#[trigger] before[j]),
                            ) is Some);
                    assert(parts[i] == before[i]);
                    assert forall|j: int| 0 <= j < parts.len() && j != i implies with_modifier(
                        none,
                        plain(#[trigger] parts[j]),
                    ) is Some by {
                        if j < before.len() {
                            assert(before[j] == parts[j]);
                        }
                    }
                } else if c.key is Some {
                    let i = parts.len() - 1;
                    assert forall|j: int| 0 <= j < parts.len() && j != i implies with_modifier(
                        none,
                        plain(#[trigger] parts[j]),
                    ) is Some by {
                        assert(before[j] == parts[j]);
                    }
                    assert(code_of(plain(parts[i])) == c.key);
                }
                assert forall|i: int| 0 <= i < parts.len() implies with_modifier(
                    none,
                    plain(#[trigger] parts[i]),
                ) is Some || (c.key is Some && code_of(plain(parts[i])) == c.key) by {
                    if i < before.len() {
                        assert(before[i] == parts[i]);
                    }
                }
                assert forall|i: int| 0 <= i < parts.len() implies plain(
                    #[trigger] parts[i],
                ).len() > 0 by {
                    if i < before.len() {
                        assert(before[i] == parts[i]);
                    }
                }
                lemma_more_of_them(parts, |p: Seq<char>| p == "ctrl"@ || p == "control"@);
                lemma_more_of_them(parts, |p: Seq<char>| p == "alt"@ || p == "option"@);
                lemma_more_of_them(parts, |p: Seq<char>| p == "shift"@);
                lemma_more_of_them(
                    parts,
                    |p: Seq<char>|
                        p == "super"@ || p == "win"@ || p == "windows"@ || p == "cmd"@ || p
                            == "command"@ || p == "meta"@,
                );
            }
        }
    }
}

proof fn lemma_more_of_them(parts: Seq<Seq<char>>, is: spec_fn(Seq<char>) -> bool)
    requires
        parts.len() > 0,
    ensures
        (exists|i: int| 0 <= i < parts.len() && is(plain(#[trigger] parts[i]))) <==> (exists|i: int|
            0 <= i < parts.drop_last().len() && is(plain(#[trigger] parts.drop_last()[i]))) || is(
            plain(parts.last()),
        ),
{
    let before = parts.drop_last();
    if exists|i: int| 0 <= i < parts.len() && is(plain(#[trigger] parts[i])) {
        let i = choose|i: int| 0 <= i < parts.len() && is(plain(#[trigger] parts[i]));
        if i < before.len() {
            assert(is(plain(before[i])));
        }
    }
    if exists|i: int| 0 <= i < before.len() && is(plain(#[trigger] before[i])) {
        let i = choose|i: int| 0 <= i < before.len() && is(plain(#[trigger] before[i]));
        assert(is(plain(parts[i])));
    }
    if is(plain(parts.last())) {
        assert(is(plain(parts[parts.len() - 1])));
    }
}

/// A hotkey is the modifiers its parts name and the one key that is left: each
/// modifier is held if and only if some part names it, and just one part names
/// a key.
pub proof fn lemma_a_hotkey_is_its_parts(spec: Seq<char>)
    ensures
        meaning(spec) matches Ok((mods, code)) ==> {
            let parts = split_of(trim_of(spec), '+');
            let none = Mods { ctrl: false, alt: false, shift: false, meta: false };
            &&& exists|i: int|
                0 <= i < parts.len() && with_modifier(none, plain(#[trigger] parts[i])) is None
                    && code_of(plain(parts[i])) == Some(code) && (forall|j: int|
                    0 <= j < parts.len() && j != i ==> with_modifier(
                        none,
                        plain(#[trigger] parts[j]),
                    ) is Some)
            &&& mods.ctrl <==> exists|i: int|
                0 <= i < parts.len() && (plain(#[trigger] parts[i]) == "ctrl"@ || plain(parts[i])
                    == "control"@)
            &&& mods.alt <==> exists|i: int|
                0 <= i < parts.len() && (plain(#[trigger] parts[i]) == "alt"@ || plain(parts[i])
                    == "option"@)
            &&& mods.shift <==> exists|i: int|
                0 <= i < parts.len() && plain(#[trigger] parts[i]) == "shift"@
            &&& mods.meta <==> exists|i: int|
                0 <= i < parts.len() && (plain(#[trigger] parts[i]) == "super"@ || plain(parts[i])
                    == "win"@ || plain(parts[i]) == "windows"@ || plain(parts[i]) == "cmd"@
                    || plain(parts[i]) == "command"@ || plain(parts[i]) == "meta"@)
        },
{
    lemma_parts_are_all_read(spec, split_of(trim_of(spec), '+'));
}

proof fn lemma_good_parts_are_read(spec: Seq<char>, parts: Seq<Seq<char>>, key: int)
    requires
        ({
            let none = Mods { ctrl: false, alt: false, shift: false, meta: false };
            forall|i: int|
                0 <= i < parts.len() ==> plain(#[trigger] parts[i]).len() > 0 && (if i == key {
                    code_of(plain(parts[i])) is Some
                } else {
                    with_modifier(none, plain(parts[i])) is Some
                })
        }),
    ensures
        read_parts(spec, parts) is Ok,
        !(0 <= key < parts.len()) ==> read_parts(spec, parts)->Ok_0.key is None,
    decreases parts.len(),
{
    if parts.len() > 0 {
        let before = parts.drop_last();
        let none = Mods { ctrl: false, alt: false, shift: false, meta: false };
        assert forall|i: int| 0 <= i < before.len() implies #[trigger] before[i] == parts[i] by {}
        lemma_good_parts_are_read(spec, before, key);
        let b = read_parts(spec, before)->Ok_0;
        let last = parts[parts.len() - 1];
        assert(plain(last).len() > 0);
        lemma_each_modifier_has_its_names(b.mods, plain(last));
        lemma_each_modifier_has_its_names(none, plain(last));
    }
}

/// Any modifiers and one key, in any order, are a hotkey.
pub proof fn lemma_modifiers_and_a_key_are_a_hotkey(spec: Seq<char>, key: int)
    requires
        trim_of(spec).len() > 0,
        ({
            let parts = split_of(trim_of(spec), '+');
            let none = Mods { ctrl: false, alt: false, shift: false, meta: false };
            &&& 0 <= key < parts.len()
            &&& parts.len() > 1
            &&& with_modifier(none, plain(parts[key])) is None
            &&& forall|i: int|
                0 <= i < parts.len() ==> plain(#[trigger] parts[i]).len() > 0 && (if i == key {
                    code_of(plain(parts[i])) is Some
                } else {
                    with_modifier(none, plain(parts[i])) is Some
                })
        }),
    ensures
        meaning(spec) is Ok,
        meaning(spec)->Ok_0.1 == code_of(plain(split_of(trim_of(spec), '+')[key]))->0,
{
    let parts = split_of(trim_of(spec), '+');
    let none = Mods { ctrl: false, alt: false, shift: false, meta: false };
    lemma_good_parts_are_read(spec, parts, key);
    lemma_parts_are_all_read(spec, parts);
    let c = read_parts(spec, parts)->Ok_0;
    assert(c.key is Some && code_of(plain(parts[key])) == c.key);
    let other: int = if key == 0 {
        1
    } else {
        0
    };
    lemma_each_modifier_has_its_names(none, plain(parts[other]));
    assert(c.mods.some());
}

/// A hotkey can be claimed on Windows, on Linux outside Wayland, and nowhere
/// else.
pub proof fn lemma_where_hotkeys_work(here: Platform, wayland: bool)
    ensures
        unsupported(here, wayland) is None <==> here == Platform::Windows || (here
            == Platform::Linux && !wayland),
{
}

/// Modifiers are held if and only if at least one of the four is.
pub proof fn lemma_one_modifier_is_enough(m: Mods)
    ensures
        m.some() <==> m != (Mods { ctrl: false, alt: false, shift: false, meta: false }),
{
}

/// A longer name is a function key's or a named key's, and no other names a key.
pub proof fn lemma_longer_names_are_of_special_keys(name: Seq<char>)
    requires
        name.len() != 1,
    ensures
        function_key(name) is None ==> code_of(name) == named_key(name),
        function_key(name) matches Some(n) ==> code_of(name) == Some("F"@ + decimal(n)) && name[0]
            == 'f' && 1 <= n <= 24,
{
}

} // verus!
