//! The decision core of the interactive date picker.  The terminal raw-mode
//! plumbing and the drawing live in the binary; which entry a key stroke
//! selects, and what a typed choice means, are verified here.

use vstd::prelude::*;
use crate::text::{chars_of, trim_chars, trim_seq};

verus! {

/// One key stroke of the picker, as decoded from the terminal.
#[derive(Debug, Clone, Copy, PartialEq, Eq, Structural)]
pub enum PickerKey {
    Up,
    Down,
    Enter,
    Quit,
    Other,
}

/// What the picker does after one key stroke.
#[derive(Debug, Clone, Copy, PartialEq, Eq, Structural)]
pub enum PickerStep {
    /// Keep running with this entry highlighted.
    Moved(usize),
    /// The highlighted entry was accepted.
    Accept(usize),
    /// The picker was cancelled.
    Cancel,
}

/// Decodes one 3-byte terminal read: carriage return or newline accept, the
/// arrow escape sequences move, `q` cancels, anything else is ignored.
pub fn decode_key(buf: &[u8; 3]) -> (r: PickerKey)
    ensures
        (buf[0] == 0x0du8 || buf[0] == 0x0au8) ==> r == PickerKey::Enter,
        (buf[0] == 0x1bu8 && buf[1] == 0x5bu8 && buf[2] == 0x41u8) ==> r == PickerKey::Up,
        (buf[0] == 0x1bu8 && buf[1] == 0x5bu8 && buf[2] == 0x42u8) ==> r == PickerKey::Down,
        (buf[0] == 0x71u8) ==> r == PickerKey::Quit,
        (buf[0] != 0x0du8 && buf[0] != 0x0au8 && buf[0] != 0x71u8 && !(buf[0] == 0x1bu8 && buf[1]
            == 0x5bu8 && (buf[2] == 0x41u8 || buf[2] == 0x42u8))) ==> r == PickerKey::Other,
{
    let b0 = buf[0];
    if b0 == 0x0d || b0 == 0x0a {
        PickerKey::Enter
    } else if b0 == 0x71 {
        PickerKey::Quit
    } else if b0 == 0x1b && buf[1] == 0x5b && buf[2] == 0x41 {
        PickerKey::Up
    } else if b0 == 0x1b && buf[1] == 0x5b && buf[2] == 0x42 {
        PickerKey::Down
    } else {
        PickerKey::Other
    }
}

/// One step of the picker over `n` entries: up and down move the highlight
/// and stop at the ends, enter accepts the highlighted entry, `q` cancels,
/// and any other key changes nothing.
pub fn picker_step(sel: usize, n: usize, key: PickerKey) -> (r: PickerStep)
    requires
        n >= 1,
        sel < n,
    ensures
        key == PickerKey::Up ==> r == PickerStep::Moved(
            if sel > 0 {
                (sel - 1) as usize
            } else {
                sel
            },
        ),
        key == PickerKey::Down ==> r == PickerStep::Moved(
            if sel + 1 < n {
                (sel + 1) as usize
            } else {
                sel
            },
        ),
        key == PickerKey::Enter ==> r == PickerStep::Accept(sel),
        key == PickerKey::Quit ==> r == PickerStep::Cancel,
        key == PickerKey::Other ==> r == PickerStep::Moved(sel),
        r matches PickerStep::Moved(s) ==> s < n,
        r matches PickerStep::Accept(s) ==> s < n,
{
    match key {
        PickerKey::Up => PickerStep::Moved(
            if sel > 0 {
                sel - 1
            } else {
                sel
            },
        ),
        PickerKey::Down => PickerStep::Moved(
            if sel + 1 < n {
                sel + 1
            } else {
                sel
            },
        ),
        PickerKey::Enter => PickerStep::Accept(sel),
        PickerKey::Quit => PickerStep::Cancel,
        PickerKey::Other => PickerStep::Moved(sel),
    }
}

/// A decimal digit.
pub open spec fn is_digit(c: char) -> bool {
    let u = c as u32;
    0x30 <= u && u <= 0x39
}

/// The value of a digit sequence read in base ten.
pub open spec fn digits_val(s: Seq<char>) -> int
    decreases s.len(),
{
    if s.len() == 0 {
        0
    } else {
        digits_val(s.drop_last()) * 10 + (s.last() as u32 - 0x30)
    }
}

/// A digit sequence's value is never negative.
proof fn lemma_digits_val_nonneg(s: Seq<char>)
    requires
        forall|k: int| 0 <= k < s.len() ==> is_digit(#[trigger] s[k]),
    ensures
        digits_val(s) >= 0,
    decreases s.len(),
{
    if s.len() > 0 {
        lemma_digits_val_nonneg(s.drop_last());
    }
}

/// Reading more digits never shrinks the value.
proof fn lemma_digits_val_grows(s: Seq<char>, i: int)
    requires
        0 <= i <= s.len(),
        forall|k: int| 0 <= k < s.len() ==> is_digit(#[trigger] s[k]),
    ensures
        digits_val(s.subrange(0, i)) <= digits_val(s),
    decreases s.len() - i,
{
    if i == s.len() {
        assert(s.subrange(0, i) =~= s);
    } else {
        let p = s.subrange(0, i);
        let q = s.subrange(0, i + 1);
        assert(q.drop_last() =~= p);
        lemma_digits_val_nonneg(p);
        assert(digits_val(q) == digits_val(p) * 10 + (s[i] as u32 - 0x30));
        assert(digits_val(p) * 10 >= digits_val(p)) by (nonlinear_arith)
            requires
                digits_val(p) >= 0,
        ;
        lemma_digits_val_grows(s, i + 1);
    }
}

/// What a line typed at the numeric prompt selects: the input is trimmed,
/// and a pure number between 1 and `n` picks that entry (counted from 1);
/// anything else — empty, non-numeric, zero, out of range — selects nothing.
pub open spec fn spec_numeric_choice(s: Seq<char>, n: int) -> Option<int> {
    let t = trim_seq(s);
    if t.len() > 0 && (forall|k: int| 0 <= k < t.len() ==> is_digit(#[trigger] t[k])) && 1
        <= digits_val(t) <= n {
        Some(digits_val(t) - 1)
    } else {
        None
    }
}

/// Reads a typed choice against a menu of `n` entries: `Some(i)` picks entry
/// `i` exactly when the trimmed input is the number `i + 1` and lies between
/// 1 and `n`.
pub fn numeric_choice(s: &str, n: usize) -> (r: Option<usize>)
    ensures
        match r {
            Some(i) => spec_numeric_choice(s@, n as int) == Some(i as int),
            None => spec_numeric_choice(s@, n as int) is None,
        },
{
    let v = chars_of(s);
    let t = trim_chars(&v);
    let m = t.len();
    if m == 0 {
        return None;
    }
    let mut acc: u128 = 0;
    let mut i: usize = 0;
    while i < m
        invariant
            i <= m,
            m == t@.len(),
            t@ == trim_seq(s@),
            forall|k: int| 0 <= k < i ==> is_digit(#[trigger] t@[k]),
            acc <= n as u128,
            acc as int == digits_val(t@.subrange(0, i as int)),
        decreases m - i,
    {
        let c = t[i];
        let u = c as u32;
        if u < 0x30 || u > 0x39 {
            proof {
                assert(!is_digit(t@[i as int]));
            }
            return None;
        }
        let d: u128 = (u - 0x30) as u128;
        let next: u128 = acc * 10 + d;
        proof {
            assert(t@.subrange(0, i + 1).drop_last() =~= t@.subrange(0, i as int));
            assert(next as int == digits_val(t@.subrange(0, i + 1)));
        }
        if next > n as u128 {
            proof {
                let whole = t@;
                if forall|k: int| 0 <= k < whole.len() ==> is_digit(#[trigger] whole[k]) {
                    lemma_digits_val_grows(whole, i + 1);
                    assert(t@.subrange(0, whole.len() as int) =~= whole);
                    assert(digits_val(whole) > n);
                }
            }
            return None;
        }
        acc = next;
        i = i + 1;
    }
    proof {
        assert(t@.subrange(0, m as int) =~= t@);
    }
    if acc == 0 {
        return None;
    }
    Some((acc - 1) as usize)
}

} // verus!
