use vstd::prelude::*;
use vstd::string::*;

use crate::text::{message, same_text};

verus! {

/// Modifier keys held down with a key press.
#[derive(Debug, Clone, Copy, PartialEq, Eq, Hash, Structural)]
pub struct Modifiers {
    pub ctrl: bool,
    pub alt: bool,
    pub shift: bool,
    pub super_key: bool,
}

/// One modifier of a `Modifiers` set.
#[derive(Debug, Clone, Copy, PartialEq, Eq, Hash, Structural)]
pub enum Modifier {
    Ctrl,
    Alt,
    Shift,
    Super,
}

impl Modifiers {
    pub open spec fn with_spec(self, m: Modifier) -> Modifiers {
        match m {
            Modifier::Ctrl => Modifiers { ctrl: true, ..self },
            Modifier::Alt => Modifiers { alt: true, ..self },
            Modifier::Shift => Modifiers { shift: true, ..self },
            Modifier::Super => Modifiers { super_key: true, ..self },
        }
    }

    pub open spec fn has(self, m: Modifier) -> bool {
        match m {
            Modifier::Ctrl => self.ctrl,
            Modifier::Alt => self.alt,
            Modifier::Shift => self.shift,
            Modifier::Super => self.super_key,
        }
    }

    /// The empty set.
    pub fn empty() -> (r: Modifiers)
        ensures
            !r.ctrl && !r.alt && !r.shift && !r.super_key,
    {
        Modifiers { ctrl: false, alt: false, shift: false, super_key: false }
    }

    /// This set with `m` added.
    pub fn with(self, m: Modifier) -> (r: Modifiers)
        ensures
            r == self.with_spec(m),
    {
        match m {
            Modifier::Ctrl => Modifiers { ctrl: true, ..self },
            Modifier::Alt => Modifiers { alt: true, ..self },
            Modifier::Shift => Modifiers { shift: true, ..self },
            Modifier::Super => Modifiers { super_key: true, ..self },
        }
    }

    /// Whether `m` is in this set.
    pub fn contains(&self, m: Modifier) -> (r: bool)
        ensures
            r == self.has(m),
    {
        match m {
            Modifier::Ctrl => self.ctrl,
            Modifier::Alt => self.alt,
            Modifier::Shift => self.shift,
            Modifier::Super => self.super_key,
        }
    }
}

/// The key itself, apart from its modifiers.
#[derive(Debug, Clone, Copy, PartialEq, Eq, Hash, Structural)]
pub enum KeyCode {
    Char(char),
    Enter,
    Esc,
    Backspace,
    Tab,
    BackTab,
    F(u8),
    Up,
    Down,
    Left,
    Right,
}

/// A key press: a code and the modifiers held with it.
#[derive(Debug, Clone, Copy, PartialEq, Eq, Hash, Structural)]
pub struct Key {
    pub code: KeyCode,
    pub modifiers: Modifiers,
}

/// Unicode control characters (general category Cc).
pub open spec fn is_control_char(c: char) -> bool {
    (c as u32) <= 0x1f || (0x7f <= (c as u32) && (c as u32) <= 0x9f)
}

pub open spec fn printable_spec(code: KeyCode) -> bool {
    match code {
        KeyCode::Char(c) => !is_control_char(c),
        KeyCode::Tab => true,
        KeyCode::BackTab => true,
        _ => false,
    }
}

impl Key {
    /// Whether the key produces text: a non-control character or a tab.
    pub fn is_printable(&mut self) -> (r: bool)
        ensures
            r == printable_spec(old(self).code),
            *final(self) == *old(self),
    {
        match self.code {
            KeyCode::Char(c) => {
                let v = c as u32;
                !(v <= 0x1f || (0x7f <= v && v <= 0x9f))
            },
            KeyCode::Tab => true,
            KeyCode::BackTab => true,
            _ => false,
        }
    }
}

/// The pieces of `s` between `+` signs, left to right (always at least one).
pub open spec fn split_plus(s: Seq<char>) -> Seq<Seq<char>>
    decreases s.len(),
{
    if s.len() == 0 {
        seq![Seq::<char>::empty()]
    } else {
        let p = split_plus(s.drop_last());
        if s.last() == '+' {
            p.push(Seq::<char>::empty())
        } else {
            p.update(p.len() - 1, p.last().push(s.last()))
        }
    }
}

pub proof fn lemma_split_plus_nonempty(s: Seq<char>)
    ensures
        split_plus(s).len() >= 1,
    decreases s.len(),
{
    if s.len() > 0 {
        lemma_split_plus_nonempty(s.drop_last());
    }
}

/// What `str::to_lowercase` returns for a text.
pub uninterp spec fn lower_of(s: Seq<char>) -> Seq<char>;

/// Relies on `str::to_lowercase`: the lower-case form of a text, which depends on
/// its characters alone.
#[verifier::external_body]
fn lowercase(s: &str) -> (r: String)
    ensures
        r@ == lower_of(s@),
{
    s.to_lowercase()
}

/// The modifier that a lower-cased name stands for.
pub open spec fn modifier_named(t: Seq<char>) -> Option<Modifier> {
    if t == "ctrl"@ || t == "control"@ {
        Some(Modifier::Ctrl)
    } else if t == "alt"@ {
        Some(Modifier::Alt)
    } else if t == "shift"@ {
        Some(Modifier::Shift)
    } else if t == "super"@ || t == "meta"@ || t == "cmd"@ {
        Some(Modifier::Super)
    } else {
        None
    }
}

pub open spec fn is_digit(c: char) -> bool {
    '0' <= c && c <= '9'
}

pub open spec fn digits_value(s: Seq<char>) -> int
    decreases s.len(),
{
    if s.len() == 0 {
        0
    } else {
        digits_value(s.drop_last()) * 10 + (s.last() as int - '0' as int)
    }
}

/// A decimal number from 0 to 255 written with one or more digits.
pub open spec fn decimal_u8(s: Seq<char>) -> Option<u8> {
    if s.len() > 0 && (forall|i: int| 0 <= i < s.len() ==> is_digit(#[trigger] s[i]))
        && digits_value(s) <= 255 {
        Some(digits_value(s) as u8)
    } else {
        None
    }
}

/// The key code that a key name stands for: `t` is the name lower-cased,
/// which is matched against the names of keys; `raw` is the name as written,
/// which gives the character of a one-character name and the error for an
/// unknown one.
pub open spec fn code_named(t: Seq<char>, raw: Seq<char>) -> Result<KeyCode, Seq<char>> {
    if t == "enter"@ || t == "return"@ {
        Ok(KeyCode::Enter)
    } else if t == "esc"@ || t == "escape"@ {
        Ok(KeyCode::Esc)
    } else if t == "backspace"@ {
        Ok(KeyCode::Backspace)
    } else if t == "tab"@ {
        Ok(KeyCode::Tab)
    } else if t == "backtab"@ {
        Ok(KeyCode::BackTab)
    } else if t == "up"@ {
        Ok(KeyCode::Up)
    } else if t == "down"@ {
        Ok(KeyCode::Down)
    } else if t == "left"@ {
        Ok(KeyCode::Left)
    } else if t == "right"@ {
        Ok(KeyCode::Right)
    } else if t == "space"@ {
        Ok(KeyCode::Char(' '))
    } else if raw.len() == 1 {
        Ok(KeyCode::Char(raw[0]))
    } else if t.len() > 1 && t[0] == 'f' {
        match decimal_u8(t.drop_first()) {
            Some(n) => Ok(KeyCode::F(n)),
            None => Err("Invalid function key: "@ + t),
        }
    } else {
        Err("Unknown key: "@ + raw)
    }
}

/// The modifiers that the written names `raw` give, left to right; the first
/// unknown one is the error.
pub open spec fn modifiers_named(raw: Seq<Seq<char>>) -> Result<Modifiers, Seq<char>>
    decreases raw.len(),
{
    if raw.len() == 0 {
        Ok(Modifiers { ctrl: false, alt: false, shift: false, super_key: false })
    } else {
        match modifiers_named(raw.drop_last()) {
            Err(e) => Err(e),
            Ok(m) => match modifier_named(lower_of(raw.last())) {
                Some(f) => Ok(m.with_spec(f)),
                None => Err("Unknown modifier: "@ + raw.last()),
            },
        }
    }
}

/// What `parse_key` gives for a text such as `ctrl+shift+down`.
pub open spec fn parse_key_spec(s: Seq<char>) -> Result<Key, Seq<char>> {
    let parts = split_plus(s);
    match modifiers_named(parts.drop_last()) {
        Err(e) => Err(e),
        Ok(m) => match code_named(lower_of(parts.last()), parts.last()) {
            Err(e) => Err(e),
            Ok(c) => Ok(Key { code: c, modifiers: m }),
        },
    }
}

pub open spec fn same_result<T>(r: Result<T, String>, s: Result<T, Seq<char>>) -> bool {
    match r {
        Ok(v) => s == Ok::<T, Seq<char>>(v),
        Err(e) => s == Err::<T, Seq<char>>(e@),
    }
}

/// The modifier named by a lower-cased text.
pub fn modifier_from_name(t: &str) -> (r: Option<Modifier>)
    ensures
        r == modifier_named(t@),
{
    if same_text(t, "ctrl") || same_text(t, "control") {
        Some(Modifier::Ctrl)
    } else if same_text(t, "alt") {
        Some(Modifier::Alt)
    } else if same_text(t, "shift") {
        Some(Modifier::Shift)
    } else if same_text(t, "super") || same_text(t, "meta") || same_text(t, "cmd") {
        Some(Modifier::Super)
    } else {
        None
    }
}

/// The number written in decimal digits in `s`, where it is at most 255.
fn parse_decimal_u8(s: &str) -> (r: Option<u8>)
    ensures
        r == decimal_u8(s@),
{
    let n = s.unicode_len();
    if n == 0 {
        return None;
    }
    let mut v: u32 = 0;
    let mut i: usize = 0;
    while i < n
        invariant
            n == s@.len(),
            i <= n,
            v <= 255,
            forall|j: int| 0 <= j < i ==> is_digit(#[trigger] s@[j]),
            v == digits_value(s@.subrange(0, i as int)),
        decreases n - i,
    {
        let c = s.get_char(i);
        if !('0' <= c && c <= '9') {
            assert(!is_digit(s@[i as int]));
            return None;
        }
        let d = (c as u32) - ('0' as u32);
        let ghost sub = s@.subrange(0, i + 1);
        assert(sub.drop_last() == s@.subrange(0, i as int));
        assert(sub.last() == c);
        if v * 10 + d > 255 {
            assert(digits_value(sub) > 255);
            proof {
                if forall|j: int| 0 <= j < n ==> is_digit(#[trigger] s@[j]) {
                    lemma_digits_grow(s@, i + 1, n as int);
                }
            }
            assert(s@ == s@.subrange(0, n as int));
            return None;
        }
        v = v * 10 + d;
        i = i + 1;
    }
    assert(s@ == s@.subrange(0, n as int));
    Some(v as u8)
}

proof fn lemma_digits_grow(s: Seq<char>, i: int, k: int)
    requires
        1 <= i <= k <= s.len(),
        forall|j: int| 0 <= j < k ==> is_digit(#[trigger] s[j]),
    ensures
        digits_value(s.subrange(0, k)) >= digits_value(s.subrange(0, i)),
    decreases k - i,
{
    if k > i {
        lemma_digits_grow(s, i, k - 1);
        let sub = s.subrange(0, k);
        assert(sub.drop_last() == s.subrange(0, k - 1));
        lemma_digits_nonneg(s.subrange(0, k - 1));
        assert(is_digit(s[k - 1]));
    }
}

proof fn lemma_digits_nonneg(s: Seq<char>)
    requires
        forall|j: int| 0 <= j < s.len() ==> is_digit(#[trigger] s[j]),
    ensures
        digits_value(s) >= 0,
    decreases s.len(),
{
    if s.len() > 0 {
        lemma_digits_nonneg(s.drop_last());
        assert(is_digit(s[s.len() - 1]));
    }
}

/// The key code named by `t`, a lower-cased key name; `raw` is the name as
/// written, which gives the character of a one-character name (kept in its
/// case) and the error for an unknown name.
pub fn key_code_from_name(t: &str, raw: &str) -> (r: Result<KeyCode, String>)
    ensures
        same_result(r, code_named(t@, raw@)),
{
    if same_text(t, "enter") || same_text(t, "return") {
        Ok(KeyCode::Enter)
    } else if same_text(t, "esc") || same_text(t, "escape") {
        Ok(KeyCode::Esc)
    } else if same_text(t, "backspace") {
        Ok(KeyCode::Backspace)
    } else if same_text(t, "tab") {
        Ok(KeyCode::Tab)
    } else if same_text(t, "backtab") {
        Ok(KeyCode::BackTab)
    } else if same_text(t, "up") {
        Ok(KeyCode::Up)
    } else if same_text(t, "down") {
        Ok(KeyCode::Down)
    } else if same_text(t, "left") {
        Ok(KeyCode::Left)
    } else if same_text(t, "right") {
        Ok(KeyCode::Right)
    } else if same_text(t, "space") {
        Ok(KeyCode::Char(' '))
    } else if raw.unicode_len() == 1 {
        Ok(KeyCode::Char(raw.get_char(0)))
    } else {
        let n = t.unicode_len();
        if n > 1 && t.get_char(0) == 'f' {
            let rest = t.substring_char(1, n);
            assert(rest@ == t@.drop_first());
            match parse_decimal_u8(rest) {
                Some(v) => Ok(KeyCode::F(v)),
                None => Err(message("Invalid function key: ", t)),
            }
        } else {
            Err(message("Unknown key: ", raw))
        }
    }
}

/// Parses a key written as `modifier+modifier+key`, such as `ctrl+shift+down`.
/// Modifier and key names are read without regard to case; a single character
/// stands for itself, in the case written.
pub fn parse_key(text: &str) -> (r: Result<Key, String>)
    ensures
        same_result(r, parse_key_spec(text@)),
{
    let ghost s = text@;
    let n = text.unicode_len();
    let mut mods = Modifiers::empty();
    let mut start: usize = 0;
    let mut i: usize = 0;
    let ghost mut done: Seq<Seq<char>> = Seq::empty();
    proof {
        lemma_split_plus_nonempty(s);
        assert(s.subrange(0, 0) == Seq::<char>::empty());
        assert(done.push(Seq::<char>::empty()) == seq![Seq::<char>::empty()]);
    }
    while i < n
        invariant
            n == s.len(),
            s == text@,
            start <= i <= n,
            split_plus(s.subrange(0, i as int)) == done.push(s.subrange(start as int, i as int)),
            modifiers_named(done) == Ok::<Modifiers, Seq<char>>(mods),
        decreases n - i,
    {
        let c = text.get_char(i);
        let ghost prev = s.subrange(0, i as int);
        assert(s.subrange(0, i + 1).drop_last() == prev);
        if c == '+' {
            let part = text.substring_char(start, i);
            let low = lowercase(part);
            let ghost d2 = done.push(part@);
            assert(d2.drop_last() == done);
            match modifier_from_name(low.as_str()) {
                Some(m) => {
                    mods = mods.with(m);
                },
                None => {
                    proof {
                        lemma_modifiers_err_prefix(done, part@, s, i + 1);
                    }
                    return Err(message("Unknown modifier: ", part));
                },
            }
            proof {
                done = d2;
            }
            start = i + 1;
            assert(s.subrange(start as int, start as int) == Seq::<char>::empty());
        } else {
            assert(s.subrange(start as int, i + 1) == s.subrange(start as int, i as int).push(c));
        }
        i = i + 1;
    }
    assert(s.subrange(0, n as int) == s);
    let last = text.substring_char(start, n);
    let low = lowercase(last);
    assert(split_plus(s).drop_last() == done);
    match key_code_from_name(low.as_str(), last) {
        Ok(code) => Ok(Key { code, modifiers: mods }),
        Err(e) => Err(e),
    }
}

/// The pieces completed in a prefix of a text stay pieces of the whole text.
proof fn lemma_split_prefix(s: Seq<char>, k: int)
    requires
        0 <= k <= s.len(),
    ensures
        split_plus(s).len() >= split_plus(s.subrange(0, k)).len(),
        forall|j: int|
            0 <= j < split_plus(s.subrange(0, k)).len() - 1 ==> split_plus(s)[j] == split_plus(
                s.subrange(0, k),
            )[j],
    decreases s.len(),
{
    lemma_split_plus_nonempty(s.subrange(0, k));
    if k == s.len() {
        assert(s.subrange(0, k) == s);
    } else {
        let t = s.drop_last();
        assert(t.subrange(0, k) == s.subrange(0, k));
        lemma_split_prefix(t, k);
        lemma_split_plus_nonempty(t);
    }
}

/// Once a leading modifier is unknown, more modifiers after it change nothing.
proof fn lemma_modifiers_err_extend(p: Seq<Seq<char>>, q: Seq<Seq<char>>)
    requires
        modifiers_named(p) is Err,
    ensures
        modifiers_named(p + q) == modifiers_named(p),
    decreases q.len(),
{
    if q.len() == 0 {
        assert(p + q == p);
    } else {
        assert((p + q).drop_last() == p + q.drop_last());
        lemma_modifiers_err_extend(p, q.drop_last());
    }
}

/// An unknown modifier among the leading pieces makes the whole text fail with
/// the first such error.
proof fn lemma_modifiers_err_prefix(done: Seq<Seq<char>>, part: Seq<char>, s: Seq<char>, k: int)
    requires
        modifiers_named(done) is Ok,
        modifier_named(lower_of(part)) is None,
        0 <= k <= s.len(),
        split_plus(s.subrange(0, k)) == done.push(part).push(Seq::<char>::empty()),
    ensures
        parse_key_spec(s) == Err::<Key, Seq<char>>("Unknown modifier: "@ + part),
{
    let pre = done.push(part);
    assert(pre.drop_last() == done);
    lemma_split_prefix(s, k);
    let whole = split_plus(s).drop_last();
    let q = whole.subrange(pre.len() as int, whole.len() as int);
    assert(whole == pre + q);
    lemma_modifiers_err_extend(pre, q);
}

} // verus!
