//! Key bindings as the configuration writes them: `ctrl-a`, `<alt-enter>`,
//! `<g><g>`, and back.
use vstd::prelude::*;
use crate::text::{chars_of, decimal, push_char, push_decimal, push_str, starts_with, starts_with_at, string_of};

verus! {

/// A key of the keyboard.
#[derive(Debug, Clone, Copy, PartialEq, Eq, Hash, Structural)]
pub enum KeyCode {
    Backspace,
    Enter,
    Left,
    Right,
    Up,
    Down,
    Home,
    End,
    PageUp,
    PageDown,
    Tab,
    BackTab,
    Delete,
    Insert,
    F(u8),
    Char(char),
    Null,
    Esc,
    CapsLock,
    ScrollLock,
    NumLock,
    PrintScreen,
    Pause,
    Menu,
    KeypadBegin,
    Media,
    Modifier,
}

/// The modifier keys held with a key.
#[derive(Debug, Clone, Copy, PartialEq, Eq, Hash, Structural)]
pub struct KeyModifiers {
    pub shift: bool,
    pub control: bool,
    pub alt: bool,
}

impl KeyModifiers {
    /// No modifier.
    pub fn empty() -> (r: KeyModifiers)
        ensures
            r == (KeyModifiers { shift: false, control: false, alt: false }),
    {
        KeyModifiers { shift: false, control: false, alt: false }
    }

    /// The shift key.
    pub fn shift() -> (r: KeyModifiers)
        ensures
            r == (KeyModifiers { shift: true, control: false, alt: false }),
    {
        KeyModifiers { shift: true, control: false, alt: false }
    }

    /// The control key.
    pub fn control() -> (r: KeyModifiers)
        ensures
            r == (KeyModifiers { shift: false, control: true, alt: false }),
    {
        KeyModifiers { shift: false, control: true, alt: false }
    }

    /// The alt key.
    pub fn alt() -> (r: KeyModifiers)
        ensures
            r == (KeyModifiers { shift: false, control: false, alt: true }),
    {
        KeyModifiers { shift: false, control: false, alt: true }
    }

    pub open spec fn union_spec(self, other: KeyModifiers) -> KeyModifiers {
        KeyModifiers {
            shift: self.shift || other.shift,
            control: self.control || other.control,
            alt: self.alt || other.alt,
        }
    }

    /// The modifiers of `self` and of `other`.
    pub fn union(self, other: KeyModifiers) -> (r: KeyModifiers)
        ensures
            r == self.union_spec(other),
    {
        KeyModifiers {
            shift: self.shift || other.shift,
            control: self.control || other.control,
            alt: self.alt || other.alt,
        }
    }
}

/// A key pressed with modifiers.
#[derive(Debug, Clone, Copy, PartialEq, Eq, Hash, Structural)]
pub struct KeyEvent {
    pub code: KeyCode,
    pub modifiers: KeyModifiers,
}

impl KeyEvent {
    pub fn new(code: KeyCode, modifiers: KeyModifiers) -> (r: KeyEvent)
        ensures
            r == (KeyEvent { code, modifiers }),
    {
        KeyEvent { code, modifiers }
    }
}

/// `c` in ASCII lowercase.
pub open spec fn ascii_lower_char(c: char) -> char {
    if 'A' <= c <= 'Z' {
        ((c as u32) + 32) as char
    } else {
        c
    }
}

/// `c` in ASCII uppercase.
pub open spec fn ascii_upper_char(c: char) -> char {
    if 'a' <= c <= 'z' {
        ((c as u32) - 32) as char
    } else {
        c
    }
}

/// `s` in ASCII lowercase, as `str::to_ascii_lowercase` gives it.
pub open spec fn ascii_lower(s: Seq<char>) -> Seq<char> {
    s.map_values(|c: char| ascii_lower_char(c))
}

fn to_ascii_lower_char(c: char) -> (r: char)
    ensures
        r == ascii_lower_char(c),
{
    if 'A' <= c && c <= 'Z' {
        ((c as u32) + 32) as u8 as char
    } else {
        c
    }
}

fn to_ascii_upper_char(c: char) -> (r: char)
    ensures
        r == ascii_upper_char(c),
{
    if 'a' <= c && c <= 'z' {
        ((c as u32) - 32) as u8 as char
    } else {
        c
    }
}

/// The modifier prefixes `ctrl-`, `alt-` and `shift-` at the start of `s`, in any
/// order and number: what follows them, and the modifiers they name added to `m`.
pub open spec fn strip_modifiers(s: Seq<char>, m: KeyModifiers) -> (Seq<char>, KeyModifiers)
    decreases s.len(),
{
    if starts_with(s, "ctrl-"@) && s.len() >= 5 {
        strip_modifiers(s.skip(5), KeyModifiers { control: true, ..m })
    } else if starts_with(s, "alt-"@) && s.len() >= 4 {
        strip_modifiers(s.skip(4), KeyModifiers { alt: true, ..m })
    } else if starts_with(s, "shift-"@) && s.len() >= 6 {
        strip_modifiers(s.skip(6), KeyModifiers { shift: true, ..m })
    } else {
        (s, m)
    }
}

/// The key that a name written in lowercase names.
pub open spec fn named_key(raw: Seq<char>) -> Option<KeyCode> {
    if raw == "esc"@ {
        Some(KeyCode::Esc)
    } else if raw == "enter"@ {
        Some(KeyCode::Enter)
    } else if raw == "left"@ {
        Some(KeyCode::Left)
    } else if raw == "right"@ {
        Some(KeyCode::Right)
    } else if raw == "up"@ {
        Some(KeyCode::Up)
    } else if raw == "down"@ {
        Some(KeyCode::Down)
    } else if raw == "home"@ {
        Some(KeyCode::Home)
    } else if raw == "end"@ {
        Some(KeyCode::End)
    } else if raw == "pageup"@ {
        Some(KeyCode::PageUp)
    } else if raw == "pagedown"@ {
        Some(KeyCode::PageDown)
    } else if raw == "backtab"@ {
        Some(KeyCode::BackTab)
    } else if raw == "backspace"@ {
        Some(KeyCode::Backspace)
    } else if raw == "delete"@ {
        Some(KeyCode::Delete)
    } else if raw == "insert"@ {
        Some(KeyCode::Insert)
    } else if raw == "f1"@ {
        Some(KeyCode::F(1))
    } else if raw == "f2"@ {
        Some(KeyCode::F(2))
    } else if raw == "f3"@ {
        Some(KeyCode::F(3))
    } else if raw == "f4"@ {
        Some(KeyCode::F(4))
    } else if raw == "f5"@ {
        Some(KeyCode::F(5))
    } else if raw == "f6"@ {
        Some(KeyCode::F(6))
    } else if raw == "f7"@ {
        Some(KeyCode::F(7))
    } else if raw == "f8"@ {
        Some(KeyCode::F(8))
    } else if raw == "f9"@ {
        Some(KeyCode::F(9))
    } else if raw == "f10"@ {
        Some(KeyCode::F(10))
    } else if raw == "f11"@ {
        Some(KeyCode::F(11))
    } else if raw == "f12"@ {
        Some(KeyCode::F(12))
    } else if raw == "space"@ {
        Some(KeyCode::Char(' '))
    } else if raw == "hyphen"@ || raw == "minus"@ {
        Some(KeyCode::Char('-'))
    } else if raw == "tab"@ {
        Some(KeyCode::Tab)
    } else {
        None
    }
}

/// The key event that the text `raw` (modifiers already read) writes with the
/// modifiers `m`: a key name, or one ASCII character, in uppercase under shift;
/// `backtab` adds shift. `None` for any other text.
pub open spec fn key_code_spec(raw: Seq<char>, m: KeyModifiers) -> Option<KeyEvent> {
    match named_key(raw) {
        Some(KeyCode::BackTab) => Some(
            KeyEvent { code: KeyCode::BackTab, modifiers: KeyModifiers { shift: true, ..m } },
        ),
        Some(k) => Some(KeyEvent { code: k, modifiers: m }),
        None => if raw.len() == 1 && (raw[0] as u32) < 128 {
            Some(
                KeyEvent {
                    code: KeyCode::Char(
                        if m.shift {
                            ascii_upper_char(raw[0])
                        } else {
                            raw[0]
                        },
                    ),
                    modifiers: m,
                },
            )
        } else {
            None
        },
    }
}

/// The key event that `raw` writes, read in ASCII lowercase: modifiers, then a key; or,
/// on failure, the text left after the modifiers.
pub open spec fn key_event_spec(raw: Seq<char>) -> Result<KeyEvent, Seq<char>> {
    let (rest, m) = strip_modifiers(
        ascii_lower(raw),
        KeyModifiers { shift: false, control: false, alt: false },
    );
    match key_code_spec(rest, m) {
        Some(e) => Ok(e),
        None => Err(rest),
    }
}

/// Reads the key named by `raw` (modifiers already read); see `named_key`.
fn named_key_exec(raw: &str) -> (r: Option<KeyCode>)
    ensures
        r == named_key(raw@),
{
    let cs = chars_of(raw);
    if crate::text::chars_eq(&cs, "esc") {
        Some(KeyCode::Esc)
    } else if crate::text::chars_eq(&cs, "enter") {
        Some(KeyCode::Enter)
    } else if crate::text::chars_eq(&cs, "left") {
        Some(KeyCode::Left)
    } else if crate::text::chars_eq(&cs, "right") {
        Some(KeyCode::Right)
    } else if crate::text::chars_eq(&cs, "up") {
        Some(KeyCode::Up)
    } else if crate::text::chars_eq(&cs, "down") {
        Some(KeyCode::Down)
    } else if crate::text::chars_eq(&cs, "home") {
        Some(KeyCode::Home)
    } else if crate::text::chars_eq(&cs, "end") {
        Some(KeyCode::End)
    } else if crate::text::chars_eq(&cs, "pageup") {
        Some(KeyCode::PageUp)
    } else if crate::text::chars_eq(&cs, "pagedown") {
        Some(KeyCode::PageDown)
    } else if crate::text::chars_eq(&cs, "backtab") {
        Some(KeyCode::BackTab)
    } else if crate::text::chars_eq(&cs, "backspace") {
        Some(KeyCode::Backspace)
    } else if crate::text::chars_eq(&cs, "delete") {
        Some(KeyCode::Delete)
    } else if crate::text::chars_eq(&cs, "insert") {
        Some(KeyCode::Insert)
    } else if crate::text::chars_eq(&cs, "f1") {
        Some(KeyCode::F(1))
    } else if crate::text::chars_eq(&cs, "f2") {
        Some(KeyCode::F(2))
    } else if crate::text::chars_eq(&cs, "f3") {
        Some(KeyCode::F(3))
    } else if crate::text::chars_eq(&cs, "f4") {
        Some(KeyCode::F(4))
    } else if crate::text::chars_eq(&cs, "f5") {
        Some(KeyCode::F(5))
    } else if crate::text::chars_eq(&cs, "f6") {
        Some(KeyCode::F(6))
    } else if crate::text::chars_eq(&cs, "f7") {
        Some(KeyCode::F(7))
    } else if crate::text::chars_eq(&cs, "f8") {
        Some(KeyCode::F(8))
    } else if crate::text::chars_eq(&cs, "f9") {
        Some(KeyCode::F(9))
    } else if crate::text::chars_eq(&cs, "f10") {
        Some(KeyCode::F(10))
    } else if crate::text::chars_eq(&cs, "f11") {
        Some(KeyCode::F(11))
    } else if crate::text::chars_eq(&cs, "f12") {
        Some(KeyCode::F(12))
    } else if crate::text::chars_eq(&cs, "space") {
        Some(KeyCode::Char(' '))
    } else if crate::text::chars_eq(&cs, "hyphen") || crate::text::chars_eq(&cs, "minus") {
        Some(KeyCode::Char('-'))
    } else if crate::text::chars_eq(&cs, "tab") {
        Some(KeyCode::Tab)
    } else {
        None
    }
}

/// Reads the key event of `raw`, read in ASCII lowercase: modifiers `ctrl-`, `alt-`,
/// `shift-`, then a key name or one ASCII character; fails with `Unable to parse `
/// and what follows the modifiers. See `key_event_spec`.
pub fn parse_key_event(raw: &str) -> (r: Result<KeyEvent, String>)
    ensures
        match key_event_spec(raw@) {
            Ok(e) => r == Ok::<KeyEvent, String>(e),
            Err(rest) => r matches Err(msg) && msg@ == "Unable to parse "@ + rest,
        },
{
    let cs = chars_of(raw);
    let mut lower: Vec<char> = Vec::new();
    let mut i: usize = 0;
    while i < cs.len()
        invariant
            i <= cs@.len(),
            lower@ == ascii_lower(cs@.take(i as int)),
        decreases cs@.len() - i,
    {
        lower.push(to_ascii_lower_char(cs[i]));
        i = i + 1;
        proof {
            assert(ascii_lower(cs@.take(i as int)) =~= ascii_lower(cs@.take(i - 1)).push(
                ascii_lower_char(cs@[i - 1]),
            ));
        }
    }
    proof {
        assert(cs@.take(cs@.len() as int) =~= cs@);
    }
    let mut m = KeyModifiers::empty();
    let mut p: usize = 0;
    let n = lower.len();
    proof {
        assert(lower@.skip(0) =~= lower@);
    }
    loop
        invariant
            p <= lower@.len(),
            n == lower@.len(),
            lower@ == ascii_lower(raw@),
            strip_modifiers(lower@, KeyModifiers::empty_spec()) == strip_modifiers(
                lower@.skip(p as int),
                m,
            ),
        ensures
            p <= lower@.len(),
            lower@ == ascii_lower(raw@),
            strip_modifiers(lower@, KeyModifiers::empty_spec()) == (lower@.skip(p as int), m),
        decreases lower@.len() - p,
    {
        proof {
            reveal_strlit("ctrl-");
            reveal_strlit("alt-");
            reveal_strlit("shift-");
        }
        let ghost rest = lower@.skip(p as int);
        if starts_with_at(&lower, p, "ctrl-") {
            proof {
                reveal_strlit("ctrl-");
                assert(rest.subrange(0, 5) =~= lower@.subrange(p as int, p + 5));
                assert(rest.skip(5) =~= lower@.skip(p + 5));
            }
            m = KeyModifiers { control: true, ..m };
            p = p + 5;
        } else if starts_with_at(&lower, p, "alt-") {
            proof {
                reveal_strlit("ctrl-");
                reveal_strlit("alt-");
                assert(rest.subrange(0, 4) =~= lower@.subrange(p as int, p + 4));
                assert(rest.skip(4) =~= lower@.skip(p + 4));
                if starts_with(rest, "ctrl-"@) {
                    assert(rest[3] == lower@[p + 3]);
                }
            }
            m = KeyModifiers { alt: true, ..m };
            p = p + 4;
        } else if starts_with_at(&lower, p, "shift-") {
            proof {
                reveal_strlit("ctrl-");
                reveal_strlit("alt-");
                reveal_strlit("shift-");
                assert(rest.subrange(0, 6) =~= lower@.subrange(p as int, p + 6));
                assert(rest.skip(6) =~= lower@.skip(p + 6));
                if starts_with(rest, "ctrl-"@) {
                    assert(rest[0] == lower@[p as int]);
                }
                if starts_with(rest, "alt-"@) {
                    assert(rest[0] == lower@[p as int]);
                }
            }
            m = KeyModifiers { shift: true, ..m };
            p = p + 6;
        } else {
            proof {
                reveal_strlit("ctrl-");
                reveal_strlit("alt-");
                reveal_strlit("shift-");
                if starts_with(rest, "ctrl-"@) {
                    assert(lower@.subrange(p as int, p + 5) =~= rest.subrange(0, 5));
                }
                if starts_with(rest, "alt-"@) {
                    assert(lower@.subrange(p as int, p + 4) =~= rest.subrange(0, 4));
                }
                if starts_with(rest, "shift-"@) {
                    assert(lower@.subrange(p as int, p + 6) =~= rest.subrange(0, 6));
                }
                assert(strip_modifiers(rest, m) == (rest, m));
            }
            break;
        }
    }
    let key = string_of(&lower, p, lower.len());
    proof {
        assert(key@ =~= lower@.skip(p as int));
    }
    let ghost rest = key@;
    match named_key_exec(key.as_str()) {
        Some(KeyCode::BackTab) => Ok(KeyEvent { code: KeyCode::BackTab, modifiers: KeyModifiers { shift: true, ..m } }),
        Some(k) => Ok(KeyEvent { code: k, modifiers: m }),
        None => {
            let kc = chars_of(key.as_str());
            if kc.len() == 1 && (kc[0] as u32) < 128 {
                let c = if m.shift {
                    to_ascii_upper_char(kc[0])
                } else {
                    kc[0]
                };
                Ok(KeyEvent { code: KeyCode::Char(c), modifiers: m })
            } else {
                let mut msg = String::from_str("Unable to parse ");
                proof {
                    reveal_strlit("Unable to parse ");
                }
                push_str(&mut msg, key.as_str());
                Err(msg)
            }
        },
    }
}

impl KeyModifiers {
    pub open spec fn empty_spec() -> KeyModifiers {
        KeyModifiers { shift: false, control: false, alt: false }
    }
}

/// How a key is written back.
pub open spec fn code_text(c: KeyCode) -> Seq<char> {
    match c {
        KeyCode::Backspace => "backspace"@,
        KeyCode::Enter => "enter"@,
        KeyCode::Left => "left"@,
        KeyCode::Right => "right"@,
        KeyCode::Up => "up"@,
        KeyCode::Down => "down"@,
        KeyCode::Home => "home"@,
        KeyCode::End => "end"@,
        KeyCode::PageUp => "pageup"@,
        KeyCode::PageDown => "pagedown"@,
        KeyCode::Tab => "tab"@,
        KeyCode::BackTab => "backtab"@,
        KeyCode::Delete => "delete"@,
        KeyCode::Insert => "insert"@,
        KeyCode::F(n) => "f("@ + decimal(n as nat) + ")"@,
        KeyCode::Char(ch) => if ch == ' ' {
            "space"@
        } else {
            seq![ch]
        },
        KeyCode::Esc => "esc"@,
        _ => seq![],
    }
}

/// The modifiers held, each written with a `-` after it: `ctrl-`, then `shift-`, then
/// `alt-`.
pub open spec fn modifiers_text(m: KeyModifiers) -> Seq<char> {
    (if m.control {
        "ctrl-"@
    } else {
        seq![]
    }) + (if m.shift {
        "shift-"@
    } else {
        seq![]
    }) + (if m.alt {
        "alt-"@
    } else {
        seq![]
    })
}

/// How a key event is written back: its modifiers, then its key.
pub open spec fn key_text(e: KeyEvent) -> Seq<char> {
    modifiers_text(e.modifiers) + code_text(e.code)
}

/// Writes `key_event` back; see `key_text`.
pub fn key_event_to_string(key_event: &KeyEvent) -> (r: String)
    ensures
        r@ == key_text(*key_event),
{
    let mut key = String::new();
    if key_event.modifiers.control {
        push_str(&mut key, "ctrl-");
    }
    if key_event.modifiers.shift {
        push_str(&mut key, "shift-");
    }
    if key_event.modifiers.alt {
        push_str(&mut key, "alt-");
    }
    let ghost mods = key@;
    proof {
        assert(mods =~= modifiers_text(key_event.modifiers));
    }
    match key_event.code {
        KeyCode::Backspace => push_str(&mut key, "backspace"),
        KeyCode::Enter => push_str(&mut key, "enter"),
        KeyCode::Left => push_str(&mut key, "left"),
        KeyCode::Right => push_str(&mut key, "right"),
        KeyCode::Up => push_str(&mut key, "up"),
        KeyCode::Down => push_str(&mut key, "down"),
        KeyCode::Home => push_str(&mut key, "home"),
        KeyCode::End => push_str(&mut key, "end"),
        KeyCode::PageUp => push_str(&mut key, "pageup"),
        KeyCode::PageDown => push_str(&mut key, "pagedown"),
        KeyCode::Tab => push_str(&mut key, "tab"),
        KeyCode::BackTab => push_str(&mut key, "backtab"),
        KeyCode::Delete => push_str(&mut key, "delete"),
        KeyCode::Insert => push_str(&mut key, "insert"),
        KeyCode::F(n) => {
            push_str(&mut key, "f(");
            push_decimal(&mut key, n as u64);
            push_str(&mut key, ")");
            proof {
                assert(key@ =~= mods + ("f("@ + decimal(n as nat) + ")"@));
            }
        },
        KeyCode::Char(c) => {
            if c == ' ' {
                push_str(&mut key, "space");
            } else {
                push_char(&mut key, c);
            }
        },
        KeyCode::Esc => push_str(&mut key, "esc"),
        _ => {
            proof {
                assert(key@ =~= mods + Seq::<char>::empty());
            }
        },
    }
    key
}

/// The number of characters `c` in `s`.
pub open spec fn count_char(s: Seq<char>, c: char) -> nat
    decreases s.len(),
{
    if s.len() == 0 {
        0
    } else {
        count_char(s.drop_last(), c) + if s.last() == c {
            1nat
        } else {
            0nat
        }
    }
}

/// The first `><` of `s` from `i` on.
pub open spec fn first_pair(s: Seq<char>, i: int) -> Option<int>
    decreases s.len() - i,
{
    if i < 0 || i + 1 >= s.len() {
        None
    } else if s[i] == '>' && s[i + 1] == '<' {
        Some(i)
    } else {
        first_pair(s, i + 1)
    }
}

pub proof fn lemma_first_pair(s: Seq<char>, i: int)
    requires
        0 <= i,
    ensures
        first_pair(s, i) matches Some(k) ==> i <= k && k + 1 < s.len() && s[k] == '>' && s[k + 1]
            == '<',
        first_pair(s, i) is None ==> forall|k: int|
            i <= k && k + 1 < s.len() ==> !(s[k] == '>' && #[trigger] s[k + 1] == '<'),
    decreases s.len() - i,
{
    if i + 1 < s.len() && !(s[i] == '>' && s[i + 1] == '<') {
        lemma_first_pair(s, i + 1);
    }
}

/// The pieces of `s` between the `><` separators, as `str::split("><")` gives them.
pub open spec fn split_pair(s: Seq<char>) -> Seq<Seq<char>>
    decreases s.len(),
{
    match first_pair(s, 0) {
        None => seq![s],
        Some(k) => {
            proof {
                lemma_first_pair(s, 0);
            }
            seq![s.take(k)] + split_pair(s.skip(k + 2))
        },
    }
}

/// `s` without its first character when that is `c`.
pub open spec fn strip_first(s: Seq<char>, c: char) -> Seq<char> {
    if s.len() > 0 && s[0] == c {
        s.skip(1)
    } else {
        s
    }
}

/// One piece of a key sequence without its `<`, or else without its `>`.
pub open spec fn piece_key(p: Seq<char>) -> Seq<char> {
    if p.len() > 0 && p[0] == '<' {
        p.skip(1)
    } else if p.len() > 0 && p.last() == '>' {
        p.drop_last()
    } else {
        p
    }
}

/// The text that a key sequence is split in: `raw` itself when it holds a `><`, else
/// `raw` without a first `<`, then without a first `>`.
pub open spec fn sequence_body(raw: Seq<char>) -> Seq<char> {
    if first_pair(raw, 0) is Some {
        raw
    } else {
        strip_first(strip_first(raw, '<'), '>')
    }
}

/// The key events of the keys `ps`, read in order; the error of the first key that
/// does not read.
pub open spec fn keys_spec(ps: Seq<Seq<char>>) -> Result<Seq<KeyEvent>, Seq<char>>
    decreases ps.len(),
{
    if ps.len() == 0 {
        Ok(seq![])
    } else {
        match key_event_spec(piece_key(ps[0])) {
            Err(rest) => Err("Unable to parse "@ + rest),
            Ok(e) => match keys_spec(ps.skip(1)) {
                Ok(es) => Ok(seq![e] + es),
                Err(msg) => Err(msg),
            },
        }
    }
}

/// The key sequence that `raw` writes: fails when it holds a different number of `<`
/// and `>`; else the keys between `><` separators, each read as `key_event_spec` reads
/// it.
pub open spec fn key_sequence_spec(raw: Seq<char>) -> Result<Seq<KeyEvent>, Seq<char>> {
    if count_char(raw, '>') != count_char(raw, '<') {
        Err("Unable to parse `"@ + raw + "`"@)
    } else {
        keys_spec(split_pair(sequence_body(raw)))
    }
}

/// The keys read so far before what the rest gives.
pub open spec fn prepend_keys(done: Seq<KeyEvent>, r: Result<Seq<KeyEvent>, Seq<char>>) -> Result<
    Seq<KeyEvent>,
    Seq<char>,
> {
    match r {
        Ok(es) => Ok(done + es),
        Err(m) => Err(m),
    }
}

proof fn lemma_first_pair_skip(s: Seq<char>, a: int, i: int)
    requires
        0 <= a <= s.len(),
        0 <= i,
    ensures
        first_pair(s.skip(a), i) == match first_pair(s, a + i) {
            Some(k) => Some(k - a),
            None => None::<int>,
        },
    decreases s.len() - a - i,
{
    let t = s.skip(a);
    if i + 1 < t.len() {
        assert(t[i] == s[a + i]);
        assert(t[i + 1] == s[a + i + 1]);
        if !(t[i] == '>' && t[i + 1] == '<') {
            lemma_first_pair_skip(s, a, i + 1);
        }
    }
}

/// The first `><` of `cs` from `i` on; see `first_pair`.
fn find_pair(cs: &[char], i: usize) -> (r: Option<usize>)
    requires
        i <= cs@.len(),
    ensures
        r matches Some(k) ==> first_pair(cs@, i as int) == Some(k as int) && i <= k && k + 2
            <= cs@.len(),
        r is None ==> first_pair(cs@, i as int) is None,
{
    proof {
        lemma_first_pair(cs@, i as int);
    }
    if cs.len() < 2 {
        return None;
    }
    let last = cs.len() - 1;
    let mut j = i;
    while j < last
        invariant
            i <= j <= cs@.len(),
            last + 1 == cs@.len(),
            first_pair(cs@, i as int) == first_pair(cs@, j as int),
        decreases cs@.len() - j,
    {
        if cs[j] == '>' && cs[j + 1] == '<' {
            return Some(j);
        }
        j = j + 1;
    }
    None
}

/// Reads the key of one piece of a key sequence, `cs[a..b]`; see `piece_key`.
fn parse_piece(cs: &[char], a: usize, b: usize) -> (r: Result<KeyEvent, String>)
    requires
        a <= b <= cs@.len(),
    ensures
        match key_event_spec(piece_key(cs@.subrange(a as int, b as int))) {
            Ok(e) => r == Ok::<KeyEvent, String>(e),
            Err(rest) => r matches Err(msg) && msg@ == "Unable to parse "@ + rest,
        },
{
    let ghost p = cs@.subrange(a as int, b as int);
    let (from, to) = if b > a && cs[a] == '<' {
        proof {
            assert(p.skip(1) =~= cs@.subrange(a + 1, b as int));
        }
        (a + 1, b)
    } else if b > a && cs[b - 1] == '>' {
        proof {
            assert(p.drop_last() =~= cs@.subrange(a as int, b - 1));
        }
        (a, b - 1)
    } else {
        (a, b)
    };
    let key = string_of(cs, from, to);
    parse_key_event(key.as_str())
}

/// Reads the key sequence `raw`, such as `<ctrl-a>` or `<g><g>`; see
/// `key_sequence_spec`.
pub fn parse_key_sequence(raw: &str) -> (r: Result<Vec<KeyEvent>, String>)
    ensures
        match key_sequence_spec(raw@) {
            Ok(es) => r matches Ok(v) && v@ == es,
            Err(msg) => r matches Err(m) && m@ == msg,
        },
{
    let cs = chars_of(raw);
    let mut opens: usize = 0;
    let mut closes: usize = 0;
    let mut i: usize = 0;
    while i < cs.len()
        invariant
            i <= cs@.len(),
            opens == count_char(cs@.take(i as int), '<'),
            closes == count_char(cs@.take(i as int), '>'),
            opens <= i,
            closes <= i,
        decreases cs@.len() - i,
    {
        proof {
            assert(cs@.take(i + 1).drop_last() =~= cs@.take(i as int));
        }
        if cs[i] == '<' {
            opens = opens + 1;
        } else if cs[i] == '>' {
            closes = closes + 1;
        }
        i = i + 1;
    }
    proof {
        assert(cs@.take(cs@.len() as int) =~= cs@);
    }
    if opens != closes {
        let mut msg = String::from_str("Unable to parse `");
        push_str(&mut msg, raw);
        push_str(&mut msg, "`");
        proof {
            reveal_strlit("Unable to parse `");
            reveal_strlit("`");
        }
        return Err(msg);
    }
    let n = cs.len();
    let from = if find_pair(&cs, 0).is_some() {
        0
    } else {
        let mut f: usize = 0;
        if f < n && cs[f] == '<' {
            f = 1;
        }
        if f < n && cs[f] == '>' {
            f = f + 1;
        }
        proof {
            let s1 = strip_first(cs@, '<');
            if n > 0 && cs@[0] == '<' {
                assert(s1 =~= cs@.skip(1));
                if n > 1 && cs@[1] == '>' {
                    assert(s1[0] == cs@[1]);
                    assert(strip_first(s1, '>') =~= cs@.skip(2));
                } else {
                    assert(n > 1 ==> s1[0] == cs@[1]);
                }
            } else {
                assert(s1 =~= cs@);
                if n > 0 && cs@[0] == '>' {
                    assert(strip_first(s1, '>') =~= cs@.skip(1));
                }
            }
        }
        f
    };
    proof {
        if from == 0 {
            assert(cs@.skip(0) =~= cs@);
        }
        assert(sequence_body(raw@) == cs@.skip(from as int));
    }
    let mut events: Vec<KeyEvent> = Vec::new();
    let mut pos = from;
    loop
        invariant
            from <= pos <= n,
            n == cs@.len(),
            cs@ == raw@,
            sequence_body(raw@) == cs@.skip(from as int),
            count_char(raw@, '>') == count_char(raw@, '<'),
            keys_spec(split_pair(cs@.skip(from as int))) == prepend_keys(
                events@,
                keys_spec(split_pair(cs@.skip(pos as int))),
            ),
        decreases n - pos,
    {
        let ghost x = cs@.skip(pos as int);
        proof {
            lemma_first_pair_skip(cs@, pos as int, 0);
        }
        match find_pair(&cs, pos) {
            Some(k) => {
                proof {
                    let kk: int = k - pos;
                    assert(first_pair(x, 0) == Some(kk));
                    assert(x.take(kk) =~= cs@.subrange(pos as int, k as int));
                    assert(x.skip(kk + 2) =~= cs@.skip(k + 2));
                    let ps = split_pair(x);
                    assert(ps == seq![x.take(kk)] + split_pair(x.skip(kk + 2)));
                    assert(ps[0] == cs@.subrange(pos as int, k as int));
                    assert(ps.skip(1) =~= split_pair(cs@.skip(k + 2)));
                    assert(ps.len() > 0);
                }
                match parse_piece(&cs, pos, k) {
                    Ok(e) => {
                        let ghost before = events@;
                        events.push(e);
                        proof {
                            let rest = keys_spec(split_pair(cs@.skip(k + 2)));
                            match rest {
                                Ok(es) => {
                                    assert(before + (seq![e] + es) =~= events@ + es);
                                },
                                Err(_) => {},
                            }
                        }
                        pos = k + 2;
                    },
                    Err(msg) => {
                        proof {
                            let ps = split_pair(x);
                            match key_event_spec(piece_key(ps[0])) {
                                Err(rest) => {
                                    assert(keys_spec(ps) == Err::<Seq<KeyEvent>, Seq<char>>("Unable to parse "@ + rest));
                                },
                                Ok(_) => {},
                            }
                        }
                        return Err(msg);
                    },
                }
            },
            None => {
                proof {
                    assert(first_pair(x, 0) is None);
                    assert(split_pair(x) == seq![x]);
                    assert(x =~= cs@.subrange(pos as int, n as int));
                    assert(seq![x].skip(1) =~= Seq::<Seq<char>>::empty());
                    assert(keys_spec(Seq::<Seq<char>>::empty()) == Ok::<Seq<KeyEvent>, Seq<char>>(seq![]));
                    assert(seq![x][0] == x);
                }
                match parse_piece(&cs, pos, n) {
                    Ok(e) => {
                        let ghost before = events@;
                        events.push(e);
                        proof {
                            assert(keys_spec(seq![x]) == Ok::<Seq<KeyEvent>, Seq<char>>(seq![e] + Seq::<KeyEvent>::empty()));
                            assert(before + (seq![e] + Seq::<KeyEvent>::empty()) =~= events@);
                        }
                        return Ok(events);
                    },
                    Err(msg) => {
                        proof {
                            match key_event_spec(piece_key(x)) {
                                Err(rest) => {
                                    assert(keys_spec(seq![x]) == Err::<Seq<KeyEvent>, Seq<char>>("Unable to parse "@ + rest));
                                },
                                Ok(_) => {},
                            }
                        }
                        return Err(msg);
                    },
                }
            },
        }
    }
}

/// Whether the key event `e` reads back from its text: its key is a named key other
/// than `F`-keys (`backtab` under shift only), the space, or one ASCII character
/// written in lowercase (in uppercase under shift).
pub open spec fn key_readable(e: KeyEvent) -> bool {
    match e.code {
        KeyCode::Backspace | KeyCode::Enter | KeyCode::Left | KeyCode::Right | KeyCode::Up
        | KeyCode::Down | KeyCode::Home | KeyCode::End | KeyCode::PageUp | KeyCode::PageDown
        | KeyCode::Tab | KeyCode::Delete | KeyCode::Insert | KeyCode::Esc => true,
        KeyCode::BackTab => e.modifiers.shift,
        KeyCode::Char(c) => c == ' ' || ((c as u32) < 128 && if e.modifiers.shift {
            ascii_upper_char(ascii_lower_char(c)) == c
        } else {
            ascii_lower_char(c) == c
        }),
        _ => false,
    }
}

proof fn lemma_lower_of_lower(s: Seq<char>)
    requires
        forall|i: int| 0 <= i < s.len() ==> !('A' <= #[trigger] s[i] <= 'Z'),
    ensures
        ascii_lower(s) == s,
{
    assert(ascii_lower(s) =~= s);
}

proof fn lemma_lower_concat(a: Seq<char>, b: Seq<char>)
    ensures
        ascii_lower(a + b) == ascii_lower(a) + ascii_lower(b),
{
    assert(ascii_lower(a + b) =~= ascii_lower(a) + ascii_lower(b));
}

/// A text without modifier prefix stays as it is under no further modifier.
proof fn lemma_no_prefix(s: Seq<char>, m: KeyModifiers)
    requires
        !starts_with(s, "ctrl-"@),
        !starts_with(s, "alt-"@),
        !starts_with(s, "shift-"@),
    ensures
        strip_modifiers(s, m) == (s, m),
{
}

proof fn lemma_strip_prefix(p: Seq<char>, s: Seq<char>, m: KeyModifiers)
    requires
        p == "ctrl-"@ || p == "alt-"@ || p == "shift-"@,
    ensures
        strip_modifiers(p + s, m) == strip_modifiers(
            s,
            if p == "ctrl-"@ {
                KeyModifiers { control: true, ..m }
            } else if p == "alt-"@ {
                KeyModifiers { alt: true, ..m }
            } else {
                KeyModifiers { shift: true, ..m }
            },
        ),
{
    reveal_strlit("ctrl-");
    reveal_strlit("alt-");
    reveal_strlit("shift-");
    let t = p + s;
    assert(t.subrange(0, p.len() as int) =~= p);
    assert(t.skip(p.len() as int) =~= s);
    if p == "alt-"@ {
        assert(t[0] == 'a');
    }
    if p == "shift-"@ {
        assert(t[0] == 's');
    }
}

/// The text of a key has no modifier prefix.
proof fn lemma_code_no_prefix(e: KeyEvent)
    requires
        key_readable(e),
    ensures
        !starts_with(ascii_lower(code_text(e.code)), "ctrl-"@),
        !starts_with(ascii_lower(code_text(e.code)), "alt-"@),
        !starts_with(ascii_lower(code_text(e.code)), "shift-"@),
        ascii_lower(code_text(e.code)).len() >= 1,
{
    reveal_strlit("ctrl-");
    reveal_strlit("alt-");
    reveal_strlit("shift-");
    reveal_strlit("backspace");
    reveal_strlit("enter");
    reveal_strlit("left");
    reveal_strlit("right");
    reveal_strlit("up");
    reveal_strlit("down");
    reveal_strlit("home");
    reveal_strlit("end");
    reveal_strlit("pageup");
    reveal_strlit("pagedown");
    reveal_strlit("tab");
    reveal_strlit("backtab");
    reveal_strlit("delete");
    reveal_strlit("insert");
    reveal_strlit("space");
    reveal_strlit("esc");
    let t = ascii_lower(code_text(e.code));
    assert(t.len() == code_text(e.code).len());
    if t.len() >= 4 {
        assert(t[3] == ascii_lower_char(code_text(e.code)[3]));
        assert(t[3] != '-');
        assert(t.subrange(0, 4)[3] == t[3]);
    }
    if t.len() >= 6 {
        assert(t[5] == ascii_lower_char(code_text(e.code)[5]));
        assert(t.subrange(0, 6)[5] == t[5]);
    }
    if t.len() >= 5 {
        assert(t[4] == ascii_lower_char(code_text(e.code)[4]));
        assert(t.subrange(0, 5)[4] == t[4]);
    }
}


/// A short text without uppercase ASCII letter is its own lowercase.
proof fn lemma_lower_short(s: Seq<char>)
    requires
        s.len() <= 9,
        s.len() > 0 ==> !('A' <= s[0] <= 'Z'),
        s.len() > 1 ==> !('A' <= s[1] <= 'Z'),
        s.len() > 2 ==> !('A' <= s[2] <= 'Z'),
        s.len() > 3 ==> !('A' <= s[3] <= 'Z'),
        s.len() > 4 ==> !('A' <= s[4] <= 'Z'),
        s.len() > 5 ==> !('A' <= s[5] <= 'Z'),
        s.len() > 6 ==> !('A' <= s[6] <= 'Z'),
        s.len() > 7 ==> !('A' <= s[7] <= 'Z'),
        s.len() > 8 ==> !('A' <= s[8] <= 'Z'),
    ensures
        ascii_lower(s) == s,
{
    assert forall|i: int| 0 <= i < s.len() implies #[trigger] ascii_lower(s)[i] == s[i] by {
        if i == 0 {
        } else if i == 1 {
        } else if i == 2 {
        } else if i == 3 {
        } else if i == 4 {
        } else if i == 5 {
        } else if i == 6 {
        } else if i == 7 {
        } else if i == 8 {
        }
    }
    assert(ascii_lower(s) =~= s);
}

/// The key of a readable key event is read back from its text.
proof fn lemma_code_round_trip(e: KeyEvent)
    requires
        key_readable(e),
    ensures
        key_code_spec(ascii_lower(code_text(e.code)), e.modifiers) == Some(e),
{
    reveal_strlit("esc");
    reveal_strlit("enter");
    reveal_strlit("left");
    reveal_strlit("right");
    reveal_strlit("up");
    reveal_strlit("down");
    reveal_strlit("home");
    reveal_strlit("end");
    reveal_strlit("pageup");
    reveal_strlit("pagedown");
    reveal_strlit("backtab");
    reveal_strlit("backspace");
    reveal_strlit("delete");
    reveal_strlit("insert");
    reveal_strlit("f1");
    reveal_strlit("f2");
    reveal_strlit("f3");
    reveal_strlit("f4");
    reveal_strlit("f5");
    reveal_strlit("f6");
    reveal_strlit("f7");
    reveal_strlit("f8");
    reveal_strlit("f9");
    reveal_strlit("f10");
    reveal_strlit("f11");
    reveal_strlit("f12");
    reveal_strlit("space");
    reveal_strlit("hyphen");
    reveal_strlit("minus");
    reveal_strlit("tab");
    let ct = code_text(e.code);
    match e.code {
        KeyCode::Char(c) => {
            if c == ' ' {
                lemma_lower_short(ct);
            } else {
                let lc = ascii_lower(ct);
                assert(lc =~= seq![ascii_lower_char(c)]);
                assert(lc.len() == 1);
                assert(named_key(lc) is None);
            }
        },
        _ => {
            lemma_lower_short(ct);
        },
    }
}

/// A key event that reads back from its text does: parsing what
/// `key_event_to_string` writes gives the event again.
pub proof fn lemma_key_text_round_trip(e: KeyEvent)
    requires
        key_readable(e),
    ensures
        key_event_spec(key_text(e)) == Ok::<KeyEvent, Seq<char>>(e),
{
    reveal_strlit("ctrl-");
    reveal_strlit("alt-");
    reveal_strlit("shift-");
    let m = e.modifiers;
    let cp: Seq<char> = if m.control { "ctrl-"@ } else { seq![] };
    let sp: Seq<char> = if m.shift { "shift-"@ } else { seq![] };
    let ap: Seq<char> = if m.alt { "alt-"@ } else { seq![] };
    let ct = code_text(e.code);
    let lc = ascii_lower(ct);
    lemma_lower_of_lower(cp);
    lemma_lower_of_lower(sp);
    lemma_lower_of_lower(ap);
    lemma_lower_concat(cp + sp + ap, ct);
    lemma_lower_concat(cp + sp, ap);
    lemma_lower_concat(cp, sp);
    assert(key_text(e) == cp + sp + ap + ct);
    assert(ascii_lower(key_text(e)) == cp + (sp + (ap + lc))) by {
        assert(cp + sp + ap + lc =~= cp + (sp + (ap + lc)));
    }
    let m0 = KeyModifiers { shift: false, control: false, alt: false };
    let m1 = KeyModifiers { control: m.control, ..m0 };
    let m2 = KeyModifiers { shift: m.shift, ..m1 };
    let m3 = KeyModifiers { alt: m.alt, ..m2 };
    assert(m3 == m);
    if m.control {
        lemma_strip_prefix("ctrl-"@, sp + (ap + lc), m0);
    } else {
        assert(cp + (sp + (ap + lc)) =~= sp + (ap + lc));
    }
    if m.shift {
        lemma_strip_prefix("shift-"@, ap + lc, m1);
    } else {
        assert(sp + (ap + lc) =~= ap + lc);
    }
    if m.alt {
        lemma_strip_prefix("alt-"@, lc, m2);
    } else {
        assert(ap + lc =~= lc);
    }
    lemma_code_no_prefix(e);
    lemma_no_prefix(lc, m3);
    lemma_code_round_trip(e);
}

} // verus!
