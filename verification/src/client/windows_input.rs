//! Typing at the cursor on Windows, via `SendInput`.
//!
//! Text is sent as UTF-16 code units rather than as virtual key codes. A
//! virtual key means "the key in this position", so what arrives depends on the
//! active keyboard layout; a Unicode scan code means "this character", whatever
//! the layout.

use crate::text::{self, decimal};
use vstd::prelude::*;

verus! {

/// One key event: a press, or the release after it.
#[derive(Debug, Clone, Copy, PartialEq, Eq, Structural)]
pub enum Key {
    /// The Enter key.
    Enter { up: bool },
    /// A UTF-16 code unit.
    Unit { unit: u16, up: bool },
}

/// The UTF-16 encoding of one character.
pub open spec fn utf16(c: char) -> Seq<u16> {
    let n = c as u32 as int;
    if n < 0x10000 {
        seq![n as u16]
    } else {
        seq![(0xd800 + (n - 0x10000) / 0x400) as u16, (0xdc00 + (n - 0x10000) % 0x400) as u16]
    }
}

/// A press and a release of one code unit.
pub open spec fn stroke(unit: u16) -> Seq<Key> {
    seq![Key::Unit { unit, up: false }, Key::Unit { unit, up: true }]
}

/// The key events of one character: Enter for a line feed, nothing for a
/// carriage return, and its code units for anything else.
pub open spec fn keys_for(c: char) -> Seq<Key> {
    if c == '\n' {
        seq![Key::Enter { up: false }, Key::Enter { up: true }]
    } else if c == '\r' {
        Seq::empty()
    } else if utf16(c).len() == 1 {
        stroke(utf16(c)[0])
    } else {
        stroke(utf16(c)[0]) + stroke(utf16(c)[1])
    }
}

/// The key events that type `text`.
pub open spec fn keys_of(text: Seq<char>) -> Seq<Key>
    decreases text.len(),
{
    if text.len() == 0 {
        Seq::empty()
    } else {
        keys_of(text.drop_last()) + keys_for(text.last())
    }
}

/// Append a press and release pair.
fn push_key(keys: &mut Vec<Key>, unit: u16)
    ensures
        final(keys)@ == old(keys)@ + stroke(unit),
{
    keys.push(Key::Unit { unit, up: false });
    keys.push(Key::Unit { unit, up: true });
    assert(keys@ =~= old(keys)@ + stroke(unit));
}

/// The key events that type `text` into whatever window has focus.
pub fn type_keys(text: &str) -> (r: Vec<Key>)
    ensures
        r@ == keys_of(text@),
{
    let v = text::chars_of(text);
    let mut keys: Vec<Key> = Vec::new();
    let mut i: usize = 0;
    assert(v@.take(0) == Seq::<char>::empty());
    while i < v.len()
        invariant
            i <= v@.len(),
            keys@ == keys_of(v@.take(i as int)),
        decreases v@.len() - i,
    {
        let c = v[i];
        assert(v@.take(i + 1).drop_last() == v@.take(i as int));
        assert(v@.take(i + 1).last() == c);
        let ghost before = keys@;
        let n: u32 = c as u32;
        if c == '\n' {
            keys.push(Key::Enter { up: false });
            keys.push(Key::Enter { up: true });
            assert(keys@ =~= before + keys_for(c));
        } else if c == '\r' {
            assert(before + keys_for(c) =~= before);
        } else if n < 0x10000 {
            push_key(&mut keys, n as u16);
        } else {
            let m: u32 = n - 0x10000;
            push_key(&mut keys, (0xd800 + m / 0x400) as u16);
            push_key(&mut keys, (0xdc00 + m % 0x400) as u16);
            assert(keys@ =~= before + keys_for(c));
        }
        i += 1;
    }
    assert(v@.take(i as int) == v@);
    keys
}

/// What became of sending `total` key events when `sent` of them went out.
pub fn delivered(sent: u32, total: usize) -> (r: Result<(), String>)
    ensures
        match r {
            Ok(_) => sent == total,
            Err(e) => sent != total && e@ == "SendInput delivered "@ + decimal(sent as nat)
                + " of "@ + decimal(total as nat)
                + " events. If the focused window is running as administrator, syrinx must be too."@,
        },
{
    if sent as u64 == total as u64 {
        return Ok(());
    }
    let mut e = "SendInput delivered ".to_owned();
    let a = text::decimal_text(sent as u64);
    e.append(a.as_str());
    e.append(" of ");
    let b = text::decimal_text(total as u64);
    e.append(b.as_str());
    e.append(" events. If the focused window is running as administrator, syrinx must be too.");
    Err(e)
}

/// Every press is followed by its own release, so no key is left held down.
pub proof fn lemma_every_press_is_released(text: Seq<char>)
    ensures
        keys_of(text).len() % 2 == 0,
        forall|i: int|
            0 <= i < keys_of(text).len() / 2 ==> released(
                #[trigger] keys_of(text)[2 * i],
                keys_of(text)[2 * i + 1],
            ),
    decreases text.len(),
{
    if text.len() > 0 {
        let d = text.drop_last();
        lemma_every_press_is_released(d);
        let a = keys_of(d);
        let b = keys_for(text.last());
        let k = keys_of(text);
        assert(k == a + b);
        assert forall|i: int| 0 <= i < k.len() / 2 implies released(
            #[trigger] k[2 * i],
            k[2 * i + 1],
        ) by {
            if 2 * i < a.len() {
                assert(k[2 * i] == a[2 * i]);
                assert(k[2 * i + 1] == a[2 * i + 1]);
            } else {
                let j = 2 * i - a.len();
                assert(k[2 * i] == b[j]);
                assert(k[2 * i + 1] == b[j + 1]);
            }
        }
    }
}

/// Whether `b` is the release of the key that `a` presses.
pub open spec fn released(a: Key, b: Key) -> bool {
    match (a, b) {
        (Key::Enter { up: false }, Key::Enter { up: true }) => true,
        (Key::Unit { unit: x, up: false }, Key::Unit { unit: y, up: true }) => x == y,
        _ => false,
    }
}

/// A character is one unit, or two that no character is alone, and reads back
/// from either.
pub proof fn lemma_units_read_back(c: char)
    ensures
        utf16(c).len() == 1 ==> utf16(c)[0] as int == c as int && !(0xd800 <= utf16(c)[0]
            && utf16(c)[0] <= 0xdfff),
        utf16(c).len() != 1 ==> ({
            let (hi, lo) = (utf16(c)[0] as int, utf16(c)[1] as int);
            &&& utf16(c).len() == 2
            &&& 0xd800 <= hi <= 0xdbff && 0xdc00 <= lo <= 0xdfff
            &&& 0x10000 + (hi - 0xd800) * 0x400 + (lo - 0xdc00) == c as int
        }),
{
}

/// Text is typed character by character: what types two texts one after the
/// other types both together.
pub proof fn lemma_text_is_typed_in_order(a: Seq<char>, b: Seq<char>)
    ensures
        keys_of(a + b) == keys_of(a) + keys_of(b),
    decreases b.len(),
{
    if b.len() == 0 {
        assert(a + b =~= a);
        assert(keys_of(a) + keys_of(b) =~= keys_of(a));
    } else {
        assert((a + b).drop_last() =~= a + b.drop_last());
        lemma_text_is_typed_in_order(a, b.drop_last());
        assert(keys_of(a) + (keys_of(b.drop_last()) + keys_for(b.last())) =~= keys_of(a) + keys_of(
            b.drop_last(),
        ) + keys_for(b.last()));
    }
}

/// A character is typed as its units, each pressed and released before the next;
/// a line break is Enter, and a carriage return nothing.
pub proof fn lemma_a_character_is_typed_as_its_units(c: char, i: int)
    requires
        0 <= i < utf16(c).len(),
    ensures
        keys_for('\n') == seq![Key::Enter { up: false }, Key::Enter { up: true }],
        keys_for('\r').len() == 0,
        c != '\n' && c != '\r' ==> keys_for(c).len() == 2 * utf16(c).len() && keys_for(c)[2 * i]
            == (Key::Unit { unit: utf16(c)[i], up: false }) && keys_for(c)[2 * i + 1] == (Key::Unit {
            unit: utf16(c)[i],
            up: true,
        }),
        keys_of(seq![c]) == keys_for(c),
{
    reveal_with_fuel(keys_of, 2);
    assert(seq![c].drop_last() =~= Seq::empty());
    assert(Seq::<Key>::empty() + keys_for(c) =~= keys_for(c));
}

} // verus!
