//! Styles as the configuration writes them: `red`, `underline red on blue`,
//! `bold color200 on rgb 255 0 128`.
use vstd::prelude::*;
use crate::filter::{contains, contains_chars, lowercase, occurs_at, split_whitespace, to_lowercase, words_of};
use crate::keys::ascii_lower;
use crate::text::{chars_eq, chars_of, is_whitespace_exec, parse_unsigned, starts_with, starts_with_at, string_of, unsigned_spec};
use crate::tracker_parser::{trim, trim_string};

verus! {

/// A terminal color: one of the 256 indexed colors, or red, green and blue.
#[derive(Debug, Clone, Copy, PartialEq, Eq, Hash, Structural)]
pub enum Color {
    Indexed(u8),
    Rgb(u8, u8, u8),
}

/// The text modifiers that a style can set.
#[derive(Debug, Clone, Copy, PartialEq, Eq, Hash, Structural)]
pub struct Modifier {
    pub bold: bool,
    pub underlined: bool,
    pub reversed: bool,
}

impl Modifier {
    /// No modifier.
    pub fn empty() -> (r: Modifier)
        ensures
            r == (Modifier { bold: false, underlined: false, reversed: false }),
    {
        Modifier { bold: false, underlined: false, reversed: false }
    }

    /// Bold text.
    pub fn bold() -> (r: Modifier)
        ensures
            r == (Modifier { bold: true, underlined: false, reversed: false }),
    {
        Modifier { bold: true, underlined: false, reversed: false }
    }

    /// Underlined text.
    pub fn underlined() -> (r: Modifier)
        ensures
            r == (Modifier { bold: false, underlined: true, reversed: false }),
    {
        Modifier { bold: false, underlined: true, reversed: false }
    }

    /// Foreground and background swapped.
    pub fn reversed() -> (r: Modifier)
        ensures
            r == (Modifier { bold: false, underlined: false, reversed: true }),
    {
        Modifier { bold: false, underlined: false, reversed: true }
    }

    pub open spec fn union_spec(self, other: Modifier) -> Modifier {
        Modifier {
            bold: self.bold || other.bold,
            underlined: self.underlined || other.underlined,
            reversed: self.reversed || other.reversed,
        }
    }

    /// The modifiers of `self` and of `other`.
    pub fn union(self, other: Modifier) -> (r: Modifier)
        ensures
            r == self.union_spec(other),
    {
        Modifier {
            bold: self.bold || other.bold,
            underlined: self.underlined || other.underlined,
            reversed: self.reversed || other.reversed,
        }
    }

    pub open spec fn contains_spec(self, other: Modifier) -> bool {
        &&& other.bold ==> self.bold
        &&& other.underlined ==> self.underlined
        &&& other.reversed ==> self.reversed
    }

    /// Whether every modifier of `other` is in `self`.
    pub fn contains(&self, other: Modifier) -> (r: bool)
        ensures
            r == self.contains_spec(other),
    {
        (!other.bold || self.bold) && (!other.underlined || self.underlined) && (!other.reversed
            || self.reversed)
    }
}

/// Colors and modifiers to draw text with: what is unset is left as the terminal has it.
#[derive(Debug, Clone, Copy, PartialEq, Eq, Hash, Structural)]
pub struct Style {
    pub fg: Option<Color>,
    pub bg: Option<Color>,
    pub add_modifier: Modifier,
    pub sub_modifier: Modifier,
}

/// The style that sets nothing.
pub open spec fn plain_style() -> Style {
    Style {
        fg: None,
        bg: None,
        add_modifier: Modifier { bold: false, underlined: false, reversed: false },
        sub_modifier: Modifier { bold: false, underlined: false, reversed: false },
    }
}

impl Default for Style {
    fn default() -> (r: Style)
        ensures
            r == plain_style(),
    {
        Style { fg: None, bg: None, add_modifier: Modifier::empty(), sub_modifier: Modifier::empty() }
    }
}

/// `s` with every occurrence of `pat`, found from the left and without overlap,
/// replaced by `rep`, as `str::replace` of std gives it.
pub open spec fn replace_all(s: Seq<char>, pat: Seq<char>, rep: Seq<char>) -> Seq<char>
    decreases s.len(),
{
    if s.len() == 0 {
        seq![]
    } else if pat.len() > 0 && starts_with(s, pat) {
        rep + replace_all(s.skip(pat.len() as int), pat, rep)
    } else {
        seq![s[0]] + replace_all(s.drop_first(), pat, rep)
    }
}

/// Appends the characters `src` to `out`.
fn push_chars(out: &mut Vec<char>, src: &[char])
    ensures
        final(out)@ == old(out)@ + src@,
{
    let ghost start = out@;
    let mut k: usize = 0;
    while k < src.len()
        invariant
            k <= src@.len(),
            out@ == start + src@.take(k as int),
        decreases src@.len() - k,
    {
        out.push(src[k]);
        k = k + 1;
        assert(out@ =~= start + src@.take(k as int));
    }
    assert(src@.take(src@.len() as int) =~= src@);
}

/// `cs` with every occurrence of `pat` replaced by `rep`; see `replace_all`.
pub fn replace_chars(cs: &[char], pat: &str, rep: &str) -> (r: Vec<char>)
    requires
        pat@.len() > 0,
    ensures
        r@ == replace_all(cs@, pat@, rep@),
{
    let p = chars_of(pat);
    let rp = chars_of(rep);
    let mut out: Vec<char> = Vec::new();
    let mut i: usize = 0;
    assert(cs@.skip(0) =~= cs@);
    while i < cs.len()
        invariant
            i <= cs@.len(),
            p@ == pat@,
            rp@ == rep@,
            pat@.len() > 0,
            out@ + replace_all(cs@.skip(i as int), pat@, rep@) == replace_all(cs@, pat@, rep@),
        decreases cs@.len() - i,
    {
        let ghost t = cs@.skip(i as int);
        if starts_with_at(cs, i, pat) {
            proof {
                assert(t.subrange(0, pat@.len() as int) =~= cs@.subrange(i as int, i + pat@.len()));
                assert(starts_with(t, pat@));
                assert(t.skip(pat@.len() as int) =~= cs@.skip(i + pat@.len()));
                assert(replace_all(t, pat@, rep@) == rep@ + replace_all(
                    cs@.skip(i + pat@.len()),
                    pat@,
                    rep@,
                ));
            }
            let ghost before = out@;
            push_chars(&mut out, &rp);
            i = i + p.len();
            proof {
                assert(before + replace_all(t, pat@, rep@) =~= out@ + replace_all(
                    cs@.skip(i as int),
                    pat@,
                    rep@,
                ));
            }
        } else {
            proof {
                if starts_with(t, pat@) {
                    assert(cs@.subrange(i as int, i + pat@.len()) =~= t.subrange(
                        0,
                        pat@.len() as int,
                    ));
                }
                assert(t.drop_first() =~= cs@.skip(i + 1));
                assert(t[0] == cs@[i as int]);
            }
            let ghost before = out@;
            out.push(cs[i]);
            i = i + 1;
            proof {
                assert(before + replace_all(t, pat@, rep@) =~= out@ + replace_all(
                    cs@.skip(i as int),
                    pat@,
                    rep@,
                ));
            }
        }
    }
    proof {
        assert(cs@.skip(i as int) =~= Seq::<char>::empty());
        assert(out@ + seq![] =~= out@);
    }
    out
}

/// The color name that `color_str` leaves once spelled the usual way: `grey` becomes
/// `gray`, and the words `bright`, `bold`, `underline` and `inverse` with the space
/// after them are dropped.
pub open spec fn color_text(color_str: Seq<char>) -> Seq<char> {
    replace_all(
        replace_all(
            replace_all(
                replace_all(replace_all(color_str, "grey"@, "gray"@), "bright "@, ""@),
                "bold "@,
                ""@,
            ),
            "underline "@,
            ""@,
        ),
        "inverse "@,
        ""@,
    )
}

/// The modifiers that `color_str` names anywhere in it.
pub open spec fn color_modifiers(color_str: Seq<char>) -> Modifier {
    Modifier {
        bold: contains(color_str, "bold"@),
        underlined: contains(color_str, "underline"@),
        reversed: contains(color_str, "inverse"@),
    }
}

/// Splits one side of a style into the color it names and the modifiers it sets.
pub fn process_color_string(color_str: &str) -> (r: (String, Modifier))
    ensures
        r.0@ == color_text(color_str@),
        r.1 == color_modifiers(color_str@),
{
    proof {
        reveal_strlit("grey");
        reveal_strlit("bright ");
        reveal_strlit("bold ");
        reveal_strlit("underline ");
        reveal_strlit("inverse ");
    }
    let cs = chars_of(color_str);
    let c1 = replace_chars(&cs, "grey", "gray");
    let c2 = replace_chars(&c1, "bright ", "");
    let c3 = replace_chars(&c2, "bold ", "");
    let c4 = replace_chars(&c3, "underline ", "");
    let c5 = replace_chars(&c4, "inverse ", "");
    let color = string_of(&c5, 0, c5.len());
    proof {
        assert(c5@.subrange(0, c5@.len() as int) =~= c5@);
    }
    let underlined = contains_chars(&cs, &chars_of("underline"));
    let bold = contains_chars(&cs, &chars_of("bold"));
    let reversed = contains_chars(&cs, &chars_of("inverse"));
    (color, Modifier { bold, underlined, reversed })
}

/// The number that `s` writes, or 0 where it writes none below 256.
pub open spec fn u8_or_zero(s: Seq<char>) -> u8 {
    match unsigned_spec(s, 255) {
        Some(v) => v as u8,
        None => 0,
    }
}

/// The number that `cs` writes, or 0; see `u8_or_zero`.
pub fn parse_u8_or_zero(cs: &[char]) -> (r: u8)
    ensures
        r == u8_or_zero(cs@),
{
    match parse_unsigned(cs, 255) {
        Some(v) => {
            proof {
                crate::text::lemma_digits_value_nonneg(crate::text::unsigned_digits(cs@));
                let w = unsigned_spec(cs@, 255).unwrap();
                assert(w <= 255);
                assert(v == w);
            }
            v as u8
        },
        None => 0,
    }
}

/// `s` with `pat` cut off its front as many times as it stands there, as
/// `str::trim_start_matches` gives it.
pub open spec fn strip_prefixes(s: Seq<char>, pat: Seq<char>) -> Seq<char>
    decreases s.len(),
{
    if pat.len() > 0 && starts_with(s, pat) {
        strip_prefixes(s.skip(pat.len() as int), pat)
    } else {
        s
    }
}

/// `cs[from..]` with `pat` cut off its front as many times as it stands there.
pub fn strip_prefixes_chars(cs: &[char], from: usize, pat: &str) -> (r: usize)
    requires
        from <= cs@.len(),
        pat@.len() > 0,
    ensures
        from <= r <= cs@.len(),
        cs@.skip(r as int) == strip_prefixes(cs@.skip(from as int), pat@),
{
    let n = pat.unicode_len();
    let len = cs.len();
    let mut i = from;
    let mut more = starts_with_at(cs, i, pat);
    while more
        invariant
            from <= i <= cs@.len(),
            len == cs@.len(),
            n == pat@.len(),
            n > 0,
            more == (i + pat@.len() <= cs@.len() && cs@.subrange(i as int, i + pat@.len()) == pat@),
            strip_prefixes(cs@.skip(i as int), pat@) == strip_prefixes(cs@.skip(from as int), pat@),
        decreases cs@.len() - i,
    {
        proof {
            let t = cs@.skip(i as int);
            assert(t.subrange(0, n as int) =~= cs@.subrange(i as int, i + n));
            assert(t.skip(n as int) =~= cs@.skip(i + n));
        }
        i = i + n;
        more = starts_with_at(cs, i, pat);
    }
    proof {
        let t = cs@.skip(i as int);
        if starts_with(t, pat@) {
            assert(cs@.subrange(i as int, i + n) =~= t.subrange(0, n as int));
        }
    }
    i
}

/// The index of a color named in words: `black`, `red`, `green`, `yellow`, `blue`,
/// `magenta`, `cyan` and `white` are 0 to 7, and 8 to 15 with `bold ` before them.
pub open spec fn named_color(t: Seq<char>) -> Option<u8> {
    if t == "bold black"@ {
        Some(8u8)
    } else if t == "bold red"@ {
        Some(9u8)
    } else if t == "bold green"@ {
        Some(10u8)
    } else if t == "bold yellow"@ {
        Some(11u8)
    } else if t == "bold blue"@ {
        Some(12u8)
    } else if t == "bold magenta"@ {
        Some(13u8)
    } else if t == "bold cyan"@ {
        Some(14u8)
    } else if t == "bold white"@ {
        Some(15u8)
    } else if t == "black"@ {
        Some(0u8)
    } else if t == "red"@ {
        Some(1u8)
    } else if t == "green"@ {
        Some(2u8)
    } else if t == "yellow"@ {
        Some(3u8)
    } else if t == "blue"@ {
        Some(4u8)
    } else if t == "magenta"@ {
        Some(5u8)
    } else if t == "cyan"@ {
        Some(6u8)
    } else if t == "white"@ {
        Some(7u8)
    } else {
        None
    }
}

/// The index of a color named in words; see `named_color`.
fn named_color_of(t: &[char]) -> (r: Option<u8>)
    ensures
        r == named_color(t@),
{
    if chars_eq(t, "bold black") {
        Some(8)
    } else if chars_eq(t, "bold red") {
        Some(9)
    } else if chars_eq(t, "bold green") {
        Some(10)
    } else if chars_eq(t, "bold yellow") {
        Some(11)
    } else if chars_eq(t, "bold blue") {
        Some(12)
    } else if chars_eq(t, "bold magenta") {
        Some(13)
    } else if chars_eq(t, "bold cyan") {
        Some(14)
    } else if chars_eq(t, "bold white") {
        Some(15)
    } else if chars_eq(t, "black") {
        Some(0)
    } else if chars_eq(t, "red") {
        Some(1)
    } else if chars_eq(t, "green") {
        Some(2)
    } else if chars_eq(t, "yellow") {
        Some(3)
    } else if chars_eq(t, "blue") {
        Some(4)
    } else if chars_eq(t, "magenta") {
        Some(5)
    } else if chars_eq(t, "cyan") {
        Some(6)
    } else if chars_eq(t, "white") {
        Some(7)
    } else {
        None
    }
}

/// Whether the first word of `t` is `rgb`, in any case.
pub open spec fn rgb_words(t: Seq<char>) -> bool {
    split_whitespace(t).len() > 0 && ascii_lower(split_whitespace(t)[0]) == "rgb"@
}

/// Whether `w` is `rgb` in any case.
fn is_rgb_word(w: &[char]) -> (r: bool)
    ensures
        r == (ascii_lower(w@) == "rgb"@),
{
    proof {
        reveal_strlit("rgb");
    }
    if w.len() != 3 {
        proof {
            assert(ascii_lower(w@).len() == w@.len());
        }
        return false;
    }
    let r = (w[0] == 'r' || w[0] == 'R') && (w[1] == 'g' || w[1] == 'G') && (w[2] == 'b' || w[2]
        == 'B');
    proof {
        let l = ascii_lower(w@);
        assert(l[0] == crate::keys::ascii_lower_char(w@[0]));
        assert(l[1] == crate::keys::ascii_lower_char(w@[1]));
        assert(l[2] == crate::keys::ascii_lower_char(w@[2]));
        if r {
            assert(l =~= "rgb"@);
        }
        if l == "rgb"@ {
            assert(l[0] == 'r' && l[1] == 'g' && l[2] == 'b');
        }
    }
    r
}

/// The color that `s` names, as the configuration writes it: `color<n>` (or
/// `bright color<n>`) is the indexed color `n`, `gray<n>` the indexed color `232 + n`,
/// `rgb <r> <g> <b>` a color by its components, then the named colors. A number that
/// does not read counts as 0.
pub open spec fn color_spec(s: Seq<char>) -> Option<Color> {
    let t = trim(s);
    if contains(t, "bright color"@) {
        Some(Color::Indexed(u8_or_zero(strip_prefixes(strip_prefixes(t, "bright "@), "color"@))))
    } else if contains(t, "color"@) {
        Some(Color::Indexed(u8_or_zero(strip_prefixes(t, "color"@))))
    } else if contains(t, "gray"@) {
        Some(Color::Indexed((232 + u8_or_zero(strip_prefixes(t, "gray"@))) as u8))
    } else if rgb_words(t) {
        let w = split_whitespace(t);
        Some(Color::Rgb(u8_or_zero(w[1]), u8_or_zero(w[2]), u8_or_zero(w[3])))
    } else {
        match named_color(t) {
            Some(i) => Some(Color::Indexed(i)),
            None => None,
        }
    }
}

/// Whether reading a color from `s` fails: `gray<n>` with `232 + n` beyond 255, or
/// `rgb` with fewer than three components after it.
pub open spec fn color_fails(s: Seq<char>) -> bool {
    let t = trim(s);
    &&& !contains(t, "bright color"@)
    &&& !contains(t, "color"@)
    &&& if contains(t, "gray"@) {
        232 + u8_or_zero(strip_prefixes(t, "gray"@)) > 255
    } else {
        rgb_words(t) && split_whitespace(t).len() < 4
    }
}

/// The color that `s` names; see `color_spec`.
pub fn parse_color(s: &str) -> (r: Option<Color>)
    requires
        !color_fails(s@),
    ensures
        r == color_spec(s@),
{
    proof {
        reveal_strlit("bright ");
        reveal_strlit("color");
        reveal_strlit("gray");
    }
    let trimmed = trim_string(&s.to_string());
    let t = chars_of(trimmed.as_str());
    let n = t.len();
    if contains_chars(&t, &chars_of("bright color")) {
        let a = strip_prefixes_chars(&t, 0, "bright ");
        let b = strip_prefixes_chars(&t, a, "color");
        let rest = crate::task_parser::chars_range(&t, b, n);
        let c = parse_u8_or_zero(&rest);
        proof {
            assert(t@.skip(0) =~= t@);
            assert(rest@ =~= t@.skip(b as int));
            assert(c << 0u32 == c) by (bit_vector);
        }
        Some(Color::Indexed(c.wrapping_shl(8)))
    } else if contains_chars(&t, &chars_of("color")) {
        let b = strip_prefixes_chars(&t, 0, "color");
        let rest = crate::task_parser::chars_range(&t, b, n);
        proof {
            assert(t@.skip(0) =~= t@);
            assert(rest@ =~= t@.skip(b as int));
        }
        Some(Color::Indexed(parse_u8_or_zero(&rest)))
    } else if contains_chars(&t, &chars_of("gray")) {
        let b = strip_prefixes_chars(&t, 0, "gray");
        let rest = crate::task_parser::chars_range(&t, b, n);
        proof {
            assert(t@.skip(0) =~= t@);
            assert(rest@ =~= t@.skip(b as int));
        }
        let v = parse_u8_or_zero(&rest);
        Some(Color::Indexed(232 + v))
    } else {
        let words = words_of(&t);
        if words.len() > 0 && is_rgb_word(&words[0]) {
            let red = parse_u8_or_zero(&words[1]);
            let green = parse_u8_or_zero(&words[2]);
            let blue = parse_u8_or_zero(&words[3]);
            Some(Color::Rgb(red, green, blue))
        } else {
            match named_color_of(&t) {
                Some(i) => Some(Color::Indexed(i)),
                None => None,
            }
        }
    }
}

/// Whether reading a color from `s` fails; see `color_fails`.
pub fn color_fails_exec(s: &str) -> (r: bool)
    ensures
        r == color_fails(s@),
{
    proof {
        reveal_strlit("gray");
    }
    let trimmed = trim_string(&s.to_string());
    let t = chars_of(trimmed.as_str());
    let n = t.len();
    if contains_chars(&t, &chars_of("bright color")) || contains_chars(&t, &chars_of("color")) {
        return false;
    }
    if contains_chars(&t, &chars_of("gray")) {
        let b = strip_prefixes_chars(&t, 0, "gray");
        let rest = crate::task_parser::chars_range(&t, b, n);
        proof {
            assert(t@.skip(0) =~= t@);
            assert(rest@ =~= t@.skip(b as int));
        }
        let v = parse_u8_or_zero(&rest);
        return v > 23;
    }
    let words = words_of(&t);
    words.len() > 0 && is_rgb_word(&words[0]) && words.len() < 4
}

/// Number of bytes of `c` in UTF-8.
pub open spec fn utf8_len(c: char) -> nat {
    if (c as u32) < 0x80 {
        1
    } else if (c as u32) < 0x800 {
        2
    } else if (c as u32) < 0x10000 {
        3
    } else {
        4
    }
}

/// Number of bytes of `s` in UTF-8: what `str::len` of std counts.
pub open spec fn utf8_width(s: Seq<char>) -> nat
    decreases s.len(),
{
    if s.len() == 0 {
        0
    } else {
        utf8_width(s.drop_last()) + utf8_len(s.last())
    }
}

/// The first position from `i` on at which `pat` occurs in `s`.
pub open spec fn find_from(s: Seq<char>, pat: Seq<char>, i: int) -> Option<int>
    decreases s.len() + 1 - i,
{
    if i < 0 || i + pat.len() > s.len() {
        None
    } else if occurs_at(s, pat, i) {
        Some(i)
    } else {
        find_from(s, pat, i + 1)
    }
}

/// The number of characters of `s`, from `i` on, whose UTF-8 bytes make up exactly
/// the first `b` bytes of `s`; `None` where no character ends there.
pub open spec fn boundary_from(s: Seq<char>, b: nat, i: int) -> Option<int>
    decreases s.len() + 1 - i,
{
    if i < 0 || i > s.len() {
        None
    } else if utf8_width(s.take(i)) == b {
        Some(i)
    } else if utf8_width(s.take(i)) > b {
        None
    } else {
        boundary_from(s, b, i + 1)
    }
}

/// Where `line` splits into its foreground and its background side: before the first
/// `on ` of its lowercase form, else at its end. The place is counted in bytes of the
/// lowercase form and cut in `line`, so `None` where no character of `line` ends there.
pub open spec fn style_split(line: Seq<char>) -> Option<int> {
    let lo = lowercase(line);
    let b = match find_from(lo, "on "@, 0) {
        Some(j) => utf8_width(lo.take(j)),
        None => utf8_width(line),
    };
    boundary_from(line, b, 0)
}

/// The foreground side of `line` split at `i`.
pub open spec fn fg_side(line: Seq<char>, i: int) -> Seq<char> {
    line.take(i)
}

/// The background side of `line` split at `i`, without its `on `.
pub open spec fn bg_side(line: Seq<char>, i: int) -> Seq<char> {
    replace_all(line.skip(i), "on "@, ""@)
}

/// Whether `line` reads as a style: it splits, and neither side fails as a color.
pub open spec fn style_ok(line: Seq<char>) -> bool {
    match style_split(line) {
        Some(i) => !color_fails(color_text(fg_side(line, i))) && !color_fails(
            color_text(bg_side(line, i)),
        ),
        None => false,
    }
}

/// The style that `line` writes: the color of its foreground side, the color of its
/// background side, and the modifiers that either side names.
pub open spec fn style_of(line: Seq<char>) -> Style {
    let i = style_split(line).unwrap();
    let fg = fg_side(line, i);
    let bg = bg_side(line, i);
    Style {
        fg: color_spec(color_text(fg)),
        bg: color_spec(color_text(bg)),
        add_modifier: color_modifiers(fg).union_spec(color_modifiers(bg)),
        sub_modifier: Modifier { bold: false, underlined: false, reversed: false },
    }
}

/// Number of bytes of `c` in UTF-8.
fn utf8_len_of(c: char) -> (r: u128)
    ensures
        r == utf8_len(c),
        1 <= r <= 4,
{
    let u = c as u32;
    if u < 0x80 {
        1
    } else if u < 0x800 {
        2
    } else if u < 0x10000 {
        3
    } else {
        4
    }
}

/// Number of bytes of the first `k` characters of `cs` in UTF-8.
fn width_of(cs: &[char], k: usize) -> (r: u128)
    requires
        k <= cs@.len(),
    ensures
        r == utf8_width(cs@.take(k as int)),
{
    let mut acc: u128 = 0;
    let mut i: usize = 0;
    assert(cs@.take(0) =~= Seq::<char>::empty());
    while i < k
        invariant
            i <= k <= cs@.len(),
            acc == utf8_width(cs@.take(i as int)),
            acc <= 4 * i,
        decreases k - i,
    {
        let w = utf8_len_of(cs[i]);
        proof {
            let t = cs@.take(i + 1);
            assert(t.drop_last() =~= cs@.take(i as int));
            assert(t.last() == cs@[i as int]);
        }
        acc = acc + w;
        i = i + 1;
    }
    acc
}

/// The first position at which `pat` occurs in `cs`; see `find_from`.
fn find_chars(cs: &[char], pat: &str) -> (r: Option<usize>)
    ensures
        r matches Some(j) ==> find_from(cs@, pat@, 0) == Some(j as int) && j + pat@.len()
            <= cs@.len(),
        r is None ==> find_from(cs@, pat@, 0) is None,
{
    let n = cs.len();
    let p = pat.unicode_len();
    if p > n {
        return None;
    }
    let last = n - p;
    let mut i: usize = 0;
    loop
        invariant
            i <= last,
            last + p == n,
            n == cs@.len(),
            p == pat@.len(),
            find_from(cs@, pat@, 0) == find_from(cs@, pat@, i as int),
        decreases last - i,
    {
        if starts_with_at(cs, i, pat) {
            return Some(i);
        }
        if i == last {
            proof {
                assert(find_from(cs@, pat@, i + 1) is None);
            }
            return None;
        }
        i = i + 1;
    }
}

/// The number of characters of `cs` whose UTF-8 bytes make up exactly its first `b`
/// bytes; see `boundary_from`.
fn boundary_of(cs: &[char], b: u128) -> (r: Option<usize>)
    ensures
        r matches Some(i) ==> boundary_from(cs@, b as nat, 0) == Some(i as int) && i <= cs@.len(),
        r is None ==> boundary_from(cs@, b as nat, 0) is None,
{
    let n = cs.len();
    let mut acc: u128 = 0;
    let mut i: usize = 0;
    assert(cs@.take(0) =~= Seq::<char>::empty());
    loop
        invariant
            i <= n,
            n == cs@.len(),
            acc == utf8_width(cs@.take(i as int)),
            acc <= 4 * i,
            boundary_from(cs@, b as nat, 0) == boundary_from(cs@, b as nat, i as int),
        decreases n - i,
    {
        if acc == b {
            return Some(i);
        }
        if acc > b || i == n {
            proof {
                if acc < b {
                    assert(boundary_from(cs@, b as nat, i + 1) is None);
                }
            }
            return None;
        }
        let w = utf8_len_of(cs[i]);
        proof {
            let t = cs@.take(i + 1);
            assert(t.drop_last() =~= cs@.take(i as int));
            assert(t.last() == cs@[i as int]);
        }
        acc = acc + w;
        i = i + 1;
    }
}

/// Where `line` splits into its two sides; see `style_split`.
fn split_point(line: &str) -> (r: Option<usize>)
    ensures
        r matches Some(i) ==> style_split(line@) == Some(i as int) && i <= line@.len(),
        r is None ==> style_split(line@) is None,
{
    let cs = chars_of(line);
    let lowered = to_lowercase(line);
    let lo = chars_of(lowered.as_str());
    let b = match find_chars(&lo, "on ") {
        Some(j) => width_of(&lo, j),
        None => {
            proof {
                assert(cs@.take(cs@.len() as int) =~= cs@);
            }
            width_of(&cs, cs.len())
        },
    };
    boundary_of(&cs, b)
}

/// The style that `line`, split at `i`, writes; see `style_of`.
fn style_at(line: &str, i: usize) -> (r: Style)
    requires
        i <= line@.len(),
        !color_fails(color_text(fg_side(line@, i as int))),
        !color_fails(color_text(bg_side(line@, i as int))),
    ensures
        r == (Style {
            fg: color_spec(color_text(fg_side(line@, i as int))),
            bg: color_spec(color_text(bg_side(line@, i as int))),
            add_modifier: color_modifiers(fg_side(line@, i as int)).union_spec(
                color_modifiers(bg_side(line@, i as int)),
            ),
            sub_modifier: Modifier { bold: false, underlined: false, reversed: false },
        }),
{
    proof {
        reveal_strlit("on ");
    }
    let cs = chars_of(line);
    let n = cs.len();
    let fg = string_of(&cs, 0, i);
    let rest = crate::task_parser::chars_range(&cs, i, n);
    let bg_chars = replace_chars(&rest, "on ", "");
    let bg = string_of(&bg_chars, 0, bg_chars.len());
    proof {
        assert(fg@ =~= fg_side(line@, i as int));
        assert(rest@ =~= line@.skip(i as int));
        assert(bg_chars@.subrange(0, bg_chars@.len() as int) =~= bg_chars@);
    }
    let (fg_color, fg_mod) = process_color_string(fg.as_str());
    let (bg_color, bg_mod) = process_color_string(bg.as_str());
    let mut style = Style::default();
    if let Some(c) = parse_color(fg_color.as_str()) {
        style.fg = Some(c);
    }
    if let Some(c) = parse_color(bg_color.as_str()) {
        style.bg = Some(c);
    }
    style.add_modifier = style.add_modifier.union(fg_mod.union(bg_mod));
    style
}

/// Reads a style from the configuration: `<foreground> on <background>`, where each
/// side is a color with modifiers before it; see `style_of`.
pub fn parse_style(line: &str) -> (r: Style)
    requires
        style_ok(line@),
    ensures
        r == style_of(line@),
{
    match split_point(line) {
        Some(i) => style_at(line, i),
        None => Style::default(),
    }
}

/// The style that `line` writes, or `None` where it does not read as one (see
/// `style_ok`).
pub fn try_parse_style(line: &str) -> (r: Option<Style>)
    ensures
        r == (if style_ok(line@) {
            Some(style_of(line@))
        } else {
            None::<Style>
        }),
{
    match split_point(line) {
        Some(i) => {
            let cs = chars_of(line);
            let n = cs.len();
            let fg = string_of(&cs, 0, i);
            let rest = crate::task_parser::chars_range(&cs, i, n);
            proof {
                reveal_strlit("on ");
                assert(fg@ =~= fg_side(line@, i as int));
                assert(rest@ =~= line@.skip(i as int));
            }
            let bg_chars = replace_chars(&rest, "on ", "");
            let bg = string_of(&bg_chars, 0, bg_chars.len());
            proof {
                assert(bg_chars@.subrange(0, bg_chars@.len() as int) =~= bg_chars@);
            }
            let (fg_color, _) = process_color_string(fg.as_str());
            let (bg_color, _) = process_color_string(bg.as_str());
            if color_fails_exec(fg_color.as_str()) || color_fails_exec(bg_color.as_str()) {
                None
            } else {
                Some(style_at(line, i))
            }
        },
        None => None,
    }
}

} // verus!
