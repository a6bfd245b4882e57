//! Text helpers over the character view of strings: building strings,
//! decimal numbers, whitespace, case and substring search.
use vstd::prelude::*;

verus! {

/// `String::push` of std: appends one character.
#[verifier::external_body]
pub fn push_char(s: &mut String, c: char)
    ensures
        final(s)@ == old(s)@.push(c),
{
    s.push(c);
}

/// Appends every character of `t` to `s`.
pub fn push_str(s: &mut String, t: &str)
    ensures
        final(s)@ == old(s)@ + t@,
{
    let ghost start = s@;
    for c in it: t.chars()
        invariant
            s@ == start + it.seq().take(it.index() as int),
    {
        push_char(s, c);
    }
}

/// The characters of `s`.
pub fn chars_of(s: &str) -> (r: Vec<char>)
    ensures
        r@ == s@,
{
    let mut v: Vec<char> = Vec::new();
    for c in it: s.chars()
        invariant
            v@ == it.seq().take(it.index() as int),
    {
        v.push(c);
    }
    v
}

/// The string made of the characters `cs[from..to]`.
pub fn string_of(cs: &[char], from: usize, to: usize) -> (r: String)
    requires
        from <= to <= cs@.len(),
    ensures
        r@ == cs@.subrange(from as int, to as int),
{
    let mut s = String::new();
    let mut i = from;
    while i < to
        invariant
            from <= i <= to <= cs@.len(),
            s@ == cs@.subrange(from as int, i as int),
        decreases to - i,
    {
        push_char(&mut s, cs[i]);
        i = i + 1;
        assert(s@ =~= cs@.subrange(from as int, i as int));
    }
    s
}

pub open spec fn digit_char(d: int) -> char {
    (48 + d) as char
}

pub open spec fn is_digit(c: char) -> bool {
    '0' <= c <= '9'
}

pub open spec fn digit_value(c: char) -> int {
    c as int - 48
}

/// Decimal digits of `n`, without leading zeros ("0" for zero).
pub open spec fn decimal(n: nat) -> Seq<char>
    decreases n,
{
    if n < 10 {
        seq![digit_char(n as int)]
    } else {
        decimal(n / 10).push(digit_char((n % 10) as int))
    }
}

/// `s` with zeros in front, so that it has at least `width` characters.
pub open spec fn zero_pad(s: Seq<char>, width: nat) -> Seq<char> {
    if s.len() >= width {
        s
    } else {
        Seq::new((width - s.len()) as nat, |_i: int| '0') + s
    }
}

/// Appends the decimal digits of `n`.
pub fn push_decimal(s: &mut String, n: u64)
    ensures
        final(s)@ == old(s)@ + decimal(n as nat),
    decreases n,
{
    if n < 10 {
        push_char(s, ((48 + n) as u8) as char);
        assert(decimal(n as nat) =~= seq![digit_char(n as int)]);
    } else {
        let ghost start = s@;
        push_decimal(s, n / 10);
        push_char(s, ((48 + n % 10) as u8) as char);
        assert(s@ =~= start + decimal(n as nat));
    }
}

pub proof fn lemma_decimal_len(n: nat)
    ensures
        decimal(n).len() >= 1,
        n < 10 ==> decimal(n).len() == 1,
        10 <= n < 100 ==> decimal(n).len() == 2,
        100 <= n < 1000 ==> decimal(n).len() == 3,
        1000 <= n < 10000 ==> decimal(n).len() == 4,
        n >= 10000 ==> decimal(n).len() >= 5,
    decreases n,
{
    if n >= 10 {
        lemma_decimal_len(n / 10);
    }
}

/// Ten to the power `k`.
pub open spec fn pow10(k: nat) -> nat
    decreases k,
{
    if k == 0 {
        1
    } else {
        10 * pow10((k - 1) as nat)
    }
}

/// A number below `10^k` has at most `k` digits.
pub proof fn lemma_decimal_len_le(n: nat, k: nat)
    requires
        k >= 1,
        n < pow10(k),
    ensures
        decimal(n).len() <= k,
    decreases n,
{
    if n >= 10 {
        assert(k >= 2) by {
            if k == 1 {
                assert(pow10(1) == 10 * pow10(0));
            }
        }
        assert(pow10(k) == 10 * pow10((k - 1) as nat));
        assert(n / 10 < pow10((k - 1) as nat));
        lemma_decimal_len_le(n / 10, (k - 1) as nat);
    }
}

/// The number of decimal digits of `n`.
pub fn decimal_len(n: u64) -> (r: usize)
    ensures
        r == decimal(n as nat).len(),
{
    proof {
        reveal_with_fuel(pow10, 21);
        assert(pow10(20) == 100000000000000000000nat);
        lemma_decimal_len_le(n as nat, 20);
    }
    let mut m = n;
    let mut len: usize = 1;
    while m >= 10
        invariant
            1 <= len,
            decimal(n as nat).len() == (len - 1) + decimal(m as nat).len(),
            decimal(n as nat).len() <= 20,
        decreases m,
    {
        proof {
            assert(decimal(m as nat) == decimal((m / 10) as nat).push(digit_char((m % 10) as int)));
            lemma_decimal_len(m as nat);
            lemma_decimal_len((m / 10) as nat);
        }
        m = m / 10;
        len = len + 1;
    }
    proof {
        lemma_decimal_len(m as nat);
    }
    len
}

/// Appends the decimal digits of `n`, with zeros in front up to `width` characters.
pub fn push_padded(s: &mut String, n: u64, width: usize)
    ensures
        final(s)@ == old(s)@ + zero_pad(decimal(n as nat), width as nat),
{
    let len = decimal_len(n);
    let ghost start = s@;
    let mut k = len;
    while k < width
        invariant
            len <= k,
            k <= width || k == len,
            len == decimal(n as nat).len(),
            s@ == start + Seq::new((k - len) as nat, |_i: int| '0'),
        decreases width - k,
    {
        push_char(s, '0');
        k = k + 1;
        assert(s@ =~= start + Seq::new((k - len) as nat, |_i: int| '0'));
    }
    push_decimal(s, n);
    assert(s@ =~= start + zero_pad(decimal(n as nat), width as nat));
}

/// Value of a sequence of decimal digits.
pub open spec fn digits_value(s: Seq<char>) -> int
    decreases s.len(),
{
    if s.len() == 0 {
        0
    } else {
        digits_value(s.drop_last()) * 10 + digit_value(s.last())
    }
}

pub open spec fn all_digits(s: Seq<char>) -> bool {
    forall|i: int| 0 <= i < s.len() ==> #[trigger] is_digit(s[i])
}

/// The value of the digits `cs[from..to]`, or `None` if it exceeds `max`.
pub fn digits_to_u64(cs: &[char], from: usize, to: usize, max: u64) -> (r: Option<u64>)
    requires
        from <= to <= cs@.len(),
        all_digits(cs@.subrange(from as int, to as int)),
    ensures
        r is Some <==> digits_value(cs@.subrange(from as int, to as int)) <= max,
        r matches Some(v) ==> v == digits_value(cs@.subrange(from as int, to as int)),
{
    let mut v: u64 = 0;
    let mut i = from;
    while i < to
        invariant
            from <= i <= to <= cs@.len(),
            all_digits(cs@.subrange(from as int, to as int)),
            v == digits_value(cs@.subrange(from as int, i as int)),
            v <= max,
        decreases to - i,
    {
        let ghost sub = cs@.subrange(from as int, (i + 1) as int);
        assert(sub.drop_last() =~= cs@.subrange(from as int, i as int));
        assert(cs@.subrange(from as int, to as int)[i - from] == cs@[i as int]);
        assert(is_digit(cs@[i as int]));
        assert(sub.last() == cs@[i as int]);
        let d = (cs[i] as u32 - 48) as u64;
        if d > max || v > (max - d) / 10 {
            proof {
                lemma_digits_value_prefix_le(cs@.subrange(from as int, to as int), i + 1 - from);
                assert(cs@.subrange(from as int, to as int).subrange(0, i + 1 - from) =~= sub);
            }
            return None;
        }
        v = v * 10 + d;
        i = i + 1;
    }
    Some(v)
}

/// The digits of `s` once an optional leading `+` is dropped.
pub open spec fn unsigned_digits(s: Seq<char>) -> Seq<char> {
    if s.len() > 0 && s[0] == '+' {
        s.drop_first()
    } else {
        s
    }
}

/// What `str::parse` of std gives for `s` into an unsigned integer type whose largest
/// value is `max`: an optional `+` followed by at least one decimal digit, with a value
/// up to `max`.
pub open spec fn unsigned_spec(s: Seq<char>, max: nat) -> Option<nat> {
    let d = unsigned_digits(s);
    if d.len() > 0 && all_digits(d) && digits_value(d) <= max {
        Some(digits_value(d) as nat)
    } else {
        None
    }
}

/// The number that `cs` writes, up to `max`; see `unsigned_spec`.
pub fn parse_unsigned(cs: &[char], max: u64) -> (r: Option<u64>)
    ensures
        match unsigned_spec(cs@, max as nat) {
            Some(v) => r == Some(v as u64),
            None => r is None,
        },
        r matches Some(v) ==> v <= max,
{
    let start: usize = if cs.len() > 0 && cs[0] == '+' {
        1
    } else {
        0
    };
    proof {
        assert(unsigned_digits(cs@) =~= cs@.subrange(start as int, cs@.len() as int));
    }
    if start == cs.len() {
        return None;
    }
    let mut k = start;
    while k < cs.len()
        invariant
            start <= k <= cs@.len(),
            unsigned_digits(cs@) == cs@.subrange(start as int, cs@.len() as int),
            forall|m: int| start <= m < k ==> is_digit(#[trigger] cs@[m]),
        decreases cs@.len() - k,
    {
        if !('0' <= cs[k] && cs[k] <= '9') {
            proof {
                let d = cs@.subrange(start as int, cs@.len() as int);
                assert(!is_digit(d[k - start]));
            }
            return None;
        }
        k = k + 1;
    }
    proof {
        let d = cs@.subrange(start as int, cs@.len() as int);
        assert forall|m: int| 0 <= m < d.len() implies #[trigger] is_digit(d[m]) by {
            assert(d[m] == cs@[start + m]);
        }
        lemma_digits_value_nonneg(d);
    }
    digits_to_u64(cs, start, cs.len(), max)
}

pub proof fn lemma_digits_value_nonneg(s: Seq<char>)
    requires
        all_digits(s),
    ensures
        digits_value(s) >= 0,
    decreases s.len(),
{
    if s.len() > 0 {
        assert(all_digits(s.drop_last()));
        assert(is_digit(s[s.len() - 1]));
        lemma_digits_value_nonneg(s.drop_last());
    }
}

/// A prefix of a digit sequence has at most the value of the whole.
pub proof fn lemma_digits_value_prefix_le(s: Seq<char>, k: int)
    requires
        all_digits(s),
        0 <= k <= s.len(),
    ensures
        digits_value(s.subrange(0, k)) <= digits_value(s),
    decreases s.len(),
{
    if k < s.len() {
        assert(all_digits(s.drop_last()));
        lemma_digits_value_prefix_le(s.drop_last(), k);
        assert(s.drop_last().subrange(0, k) =~= s.subrange(0, k));
        lemma_digits_value_nonneg(s.drop_last());
        assert(is_digit(s[s.len() - 1]));
    } else {
        assert(s.subrange(0, k) =~= s);
    }
}


/// The decimal digits of `n` read back give `n`.
pub proof fn lemma_decimal_digits(n: nat)
    ensures
        all_digits(decimal(n)),
        digits_value(decimal(n)) == n,
        decimal(n).len() >= 1,
    decreases n,
{
    assert(digit_value(digit_char((n % 10) as int)) == n % 10) by {
        assert((48 + (n % 10) as int) as char as int == 48 + (n % 10) as int);
    }
    let d = decimal(n);
    assert(digits_value(d) == digits_value(d.drop_last()) * 10 + digit_value(d.last()));
    if n < 10 {
        assert(decimal(n) =~= seq![digit_char(n as int)]);
        assert(decimal(n).drop_last() =~= Seq::<char>::empty());
        assert(digits_value(Seq::<char>::empty()) == 0);
    } else {
        lemma_decimal_digits(n / 10);
        assert(d.drop_last() =~= decimal(n / 10));
        assert(d.last() == digit_char((n % 10) as int));
        assert((n / 10) * 10 + n % 10 == n);
        assert forall|i: int| 0 <= i < d.len() implies #[trigger] is_digit(d[i]) by {
            if i < d.len() - 1 {
                assert(d[i] == decimal(n / 10)[i]);
            }
        }
    }
}

/// A zero in front leaves the value of digits unchanged.
pub proof fn lemma_leading_zero(s: Seq<char>)
    requires
        all_digits(s),
    ensures
        all_digits(seq!['0'] + s),
        digits_value(seq!['0'] + s) == digits_value(s),
    decreases s.len(),
{
    let t = seq!['0'] + s;
    assert forall|i: int| 0 <= i < t.len() implies #[trigger] is_digit(t[i]) by {
        if i > 0 {
            assert(t[i] == s[i - 1]);
        }
    }
    assert(digit_value('0') == 0);
    assert(digits_value(t) == digits_value(t.drop_last()) * 10 + digit_value(t.last()));
    if s.len() == 0 {
        assert(t.drop_last() =~= Seq::<char>::empty());
        assert(digits_value(Seq::<char>::empty()) == 0);
        assert(digits_value(s) == 0);
    } else {
        assert(digits_value(s) == digits_value(s.drop_last()) * 10 + digit_value(s.last()));
        assert(all_digits(s.drop_last()));
        lemma_leading_zero(s.drop_last());
        assert(t.drop_last() =~= seq!['0'] + s.drop_last());
        assert(t.last() == s.last());
    }
}

/// Zeros in front leave the value of digits unchanged.
pub proof fn lemma_zero_pad_digits(s: Seq<char>, width: nat)
    requires
        all_digits(s),
    ensures
        all_digits(zero_pad(s, width)),
        digits_value(zero_pad(s, width)) == digits_value(s),
        zero_pad(s, width).len() >= s.len(),
    decreases width,
{
    if s.len() < width {
        let z = zero_pad(s, width);
        lemma_zero_pad_digits(s, (width - 1) as nat);
        let z1 = zero_pad(s, (width - 1) as nat);
        assert(z =~= seq!['0'] + z1) by {
            if s.len() < width - 1 {
                assert(z1 =~= Seq::new((width - 1 - s.len()) as nat, |_i: int| '0') + s);
            } else {
                assert(z1 =~= s);
            }
        }
        lemma_leading_zero(z1);
    }
}

/// The Unicode `White_Space` property, which `char::is_whitespace` of std tests.
pub open spec fn is_whitespace(c: char) -> bool {
    let u = c as u32;
    ||| 9 <= u <= 13
    ||| u == 32
    ||| u == 0x85
    ||| u == 0xA0
    ||| u == 0x1680
    ||| 0x2000 <= u <= 0x200A
    ||| u == 0x2028
    ||| u == 0x2029
    ||| u == 0x202F
    ||| u == 0x205F
    ||| u == 0x3000
}

pub fn is_whitespace_exec(c: char) -> (r: bool)
    ensures
        r == is_whitespace(c),
{
    let u = c as u32;
    (9 <= u && u <= 13) || u == 32 || u == 0x85 || u == 0xA0 || u == 0x1680 || (0x2000 <= u && u
        <= 0x200A) || u == 0x2028 || u == 0x2029 || u == 0x202F || u == 0x205F || u == 0x3000
}

/// Number of characters left when trailing whitespace is cut off.
pub open spec fn trimmed_end_len(s: Seq<char>) -> nat
    decreases s.len(),
{
    if s.len() == 0 {
        0
    } else if is_whitespace(s.last()) {
        trimmed_end_len(s.drop_last())
    } else {
        s.len()
    }
}

/// `s` without its trailing whitespace, as `str::trim_end` gives it.
pub open spec fn trim_end(s: Seq<char>) -> Seq<char> {
    s.take(trimmed_end_len(s) as int)
}

pub proof fn lemma_trimmed_end_len_le(s: Seq<char>)
    ensures
        trimmed_end_len(s) <= s.len(),
    decreases s.len(),
{
    if s.len() > 0 {
        lemma_trimmed_end_len_le(s.drop_last());
    }
}

/// `s` without its trailing whitespace.
pub fn trim_end_string(s: &String) -> (r: String)
    ensures
        r@ == trim_end(s@),
{
    let cs = chars_of(s.as_str());
    let mut n = cs.len();
    assert(cs@.take(cs@.len() as int) =~= cs@);
    while n > 0 && is_whitespace_exec(cs[n - 1])
        invariant
            n <= cs@.len(),
            trimmed_end_len(cs@.take(n as int)) == trimmed_end_len(cs@),
        decreases n,
    {
        assert(cs@.take(n as int).drop_last() =~= cs@.take(n - 1));
        n = n - 1;
    }
    if n > 0 {
        assert(cs@.take(n as int).last() == cs@[n - 1]);
    }
    assert(trimmed_end_len(cs@.take(n as int)) == n);
    string_of(&cs, 0, n)
}

/// The nonempty parts, in order, joined by single spaces.
pub open spec fn join_nonempty(ps: Seq<Seq<char>>) -> Seq<char>
    decreases ps.len(),
{
    if ps.len() == 0 {
        seq![]
    } else {
        let rest = join_nonempty(ps.drop_last());
        let last = ps.last();
        if last.len() == 0 {
            rest
        } else if rest.len() == 0 {
            last
        } else {
            rest + seq![' '] + last
        }
    }
}

/// The parts joined by `sep`.
pub open spec fn join(ps: Seq<Seq<char>>, sep: Seq<char>) -> Seq<char>
    decreases ps.len(),
{
    if ps.len() == 0 {
        seq![]
    } else if ps.len() == 1 {
        ps[0]
    } else {
        join(ps.drop_last(), sep) + sep + ps.last()
    }
}

/// Joins the strings `parts` with single spaces, leaving out the empty ones.
pub fn join_nonempty_strings(parts: &Vec<String>) -> (r: String)
    ensures
        r@ == join_nonempty(parts@.map_values(|p: String| p@)),
{
    let ghost views = parts@.map_values(|p: String| p@);
    let mut s = String::new();
    let mut i: usize = 0;
    while i < parts.len()
        invariant
            i <= parts@.len(),
            views == parts@.map_values(|p: String| p@),
            s@ == join_nonempty(views.take(i as int)),
        decreases parts@.len() - i,
    {
        let p = &parts[i];
        assert(views.take(i + 1).drop_last() =~= views.take(i as int));
        assert(views.take(i + 1).last() == p@);
        if !p.as_str().is_empty() {
            if !s.as_str().is_empty() {
                push_char(&mut s, ' ');
            }
            push_str(&mut s, p.as_str());
        }
        i = i + 1;
    }
    assert(views.take(parts@.len() as int) =~= views);
    s
}


/// `n` spaces.
pub open spec fn spaces(n: nat) -> Seq<char> {
    Seq::new(n, |_i: int| ' ')
}

/// Appends `n` spaces.
pub fn push_spaces(s: &mut String, n: usize)
    ensures
        final(s)@ == old(s)@ + spaces(n as nat),
{
    let ghost start = s@;
    let mut k: usize = 0;
    while k < n
        invariant
            k <= n,
            s@ == start + spaces(k as nat),
        decreases n - k,
    {
        push_char(s, ' ');
        k = k + 1;
        assert(s@ =~= start + spaces(k as nat));
    }
}

/// Whether `s` starts with `lit`.
pub open spec fn starts_with(s: Seq<char>, lit: Seq<char>) -> bool {
    lit.len() <= s.len() && s.subrange(0, lit.len() as int) == lit
}

/// Whether `cs[i..]` starts with `lit`.
pub fn starts_with_at(cs: &[char], i: usize, lit: &str) -> (r: bool)
    requires
        i <= cs@.len(),
    ensures
        r == (i + lit@.len() <= cs@.len() && cs@.subrange(i as int, i + lit@.len()) == lit@),
{
    let l = chars_of(lit);
    let n = cs.len();
    if l.len() > n - i {
        return false;
    }
    let mut k: usize = 0;
    while k < l.len()
        invariant
            k <= l@.len(),
            l@ == lit@,
            n == cs@.len(),
            i + l@.len() <= n,
            forall|m: int| 0 <= m < k ==> cs@[i + m] == l@[m],
        decreases l@.len() - k,
    {
        assert(i + k < cs@.len());
        if cs[i + k] != l[k] {
            proof {
                assert(cs@.subrange(i as int, i + lit@.len())[k as int] != lit@[k as int]);
            }
            return false;
        }
        k = k + 1;
    }
    assert(cs@.subrange(i as int, i + lit@.len()) =~= lit@);
    true
}

/// Whether the characters `cs` are exactly `lit`.
pub fn chars_eq(cs: &[char], lit: &str) -> (r: bool)
    ensures
        r == (cs@ == lit@),
{
    if cs.len() != lit.unicode_len() {
        return false;
    }
    let r = starts_with_at(cs, 0, lit);
    proof {
        assert(cs@.subrange(0, cs@.len() as int) =~= cs@);
    }
    r
}

/// The rest of `s` once its first `n` characters are read.
pub fn advance<'a>(input: &mut &'a str, n: usize)
    requires
        n <= old(input)@.len(),
    ensures
        final(input)@ == old(input)@.skip(n as int),
{
    let len = input.unicode_len();
    *input = input.substring_char(n, len);
}

/// Whether `a` and `b` hold the same characters.
pub fn str_eq(a: &str, b: &str) -> (r: bool)
    ensures
        r == (a@ == b@),
{
    let cs = chars_of(a);
    chars_eq(&cs, b)
}

/// A sequence that differs from `b` at `i` neither starts with `b` nor equals it.
pub proof fn lemma_differ_at(a: Seq<char>, b: Seq<char>, i: int)
    requires
        0 <= i < a.len(),
        i < b.len(),
        a[i] != b[i],
    ensures
        !starts_with(a, b),
        a != b,
{
    if starts_with(a, b) {
        assert(a.subrange(0, b.len() as int)[i] == a[i]);
    }
}

} // verus!
