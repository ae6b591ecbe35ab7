//! Character-level helpers for the strings that pages and URLs hand us.
//!
//! Every function here is stated over `Seq<char>`, the view of a string.

use vstd::prelude::*;

verus! {

/// Which characters a trimming pass removes from the ends of a string.
#[derive(Clone, Copy, Debug)]
pub enum Strip {
    /// Unicode white space.
    Whitespace,
    /// The single quote `'`.
    Quote,
}

/// The code points that Unicode marks as white space (`White_Space`).
pub open spec fn is_space(c: char) -> bool {
    let n = c as u32;
    ||| 0x09 <= n <= 0x0d
    ||| n == 0x20
    ||| n == 0x85
    ||| n == 0xa0
    ||| n == 0x1680
    ||| 0x2000 <= n <= 0x200a
    ||| n == 0x2028
    ||| n == 0x2029
    ||| n == 0x202f
    ||| n == 0x205f
    ||| n == 0x3000
}

impl Strip {
    /// Whether this pass removes `c`.
    pub open spec fn removes(self, c: char) -> bool {
        match self {
            Strip::Whitespace => is_space(c),
            Strip::Quote => c == '\'',
        }
    }

    /// Executable form of [`Strip::removes`].
    pub fn takes(&self, c: char) -> (r: bool)
        ensures
            r == self.removes(c),
    {
        match self {
            Strip::Whitespace => {
                let n: u32 = c as u32;
                (0x09 <= n && n <= 0x0d) || n == 0x20 || n == 0x85 || n == 0xa0 || n == 0x1680 || (
                0x2000 <= n && n <= 0x200a) || n == 0x2028 || n == 0x2029 || n == 0x202f || n
                    == 0x205f || n == 0x3000
            },
            Strip::Quote => c == '\'',
        }
    }
}

/// `s` without its longest prefix of removed characters.
pub open spec fn strip_front(s: Seq<char>, strip: Strip) -> Seq<char>
    decreases s.len(),
{
    if s.len() > 0 && strip.removes(s[0]) {
        strip_front(s.drop_first(), strip)
    } else {
        s
    }
}

/// `s` without its longest suffix of removed characters.
pub open spec fn strip_back(s: Seq<char>, strip: Strip) -> Seq<char>
    decreases s.len(),
{
    if s.len() > 0 && strip.removes(s.last()) {
        strip_back(s.drop_last(), strip)
    } else {
        s
    }
}

/// `s` with removed characters taken off both ends.
pub open spec fn stripped(s: Seq<char>, strip: Strip) -> Seq<char> {
    strip_back(strip_front(s, strip), strip)
}

/// The characters of `s`, in order.
pub fn chars_of(s: &str) -> (out: Vec<char>)
    ensures
        out@ == s@,
{
    let mut out: Vec<char> = Vec::new();
    for c in it: s.chars()
        invariant
            out@ == it.seq().take(it.index()),
            it.seq() == s@,
    {
        out.push(c);
    }
    out
}

/// Whether two strings hold the same characters.
pub fn same_text(a: &str, b: &str) -> (r: bool)
    ensures
        r == (a@ == b@),
{
    let x = a.to_owned();
    let y = b.to_owned();
    x == y
}

/// The bounds `(from, to)` of `stripped(s, strip)` inside `s`.
pub fn strip_bounds(s: &Vec<char>, strip: Strip) -> (r: (usize, usize))
    ensures
        r.0 <= r.1 <= s.len(),
        s@.subrange(r.0 as int, r.1 as int) == stripped(s@, strip),
{
    let n = s.len();
    let mut from: usize = 0;
    assert(s@.skip(0) == s@);
    while from < n && strip.takes(s[from])
        invariant
            from <= n == s.len(),
            strip_front(s@, strip) == strip_front(s@.skip(from as int), strip),
        decreases n - from,
    {
        assert(s@.skip(from as int).drop_first() == s@.skip(from as int + 1));
        from += 1;
    }
    let ghost front = s@.skip(from as int);
    assert(strip_front(s@, strip) == front);
    assert(front == s@.subrange(from as int, n as int));
    let mut to: usize = n;
    while to > from && strip.takes(s[to - 1])
        invariant
            from <= to <= n == s.len(),
            front == s@.skip(from as int),
            strip_back(front, strip) == strip_back(s@.subrange(from as int, to as int), strip),
        decreases to,
    {
        assert(s@.subrange(from as int, to as int).drop_last() == s@.subrange(
            from as int,
            to as int - 1,
        ));
        to -= 1;
    }
    (from, to)
}

/// `s` with the characters that `strip` removes taken off both ends.
pub fn strip_ends(s: &str, strip: Strip) -> (out: String)
    ensures
        out@ == stripped(s@, strip),
{
    let chars = chars_of(s);
    let (from, to) = strip_bounds(&chars, strip);
    s.substring_char(from, to).to_owned()
}

/// Where the part of `s` after its last `sep` begins: just behind that
/// `sep`, or at 0 when `s` holds none.
pub open spec fn tail_start(s: Seq<char>, sep: char) -> int
    decreases s.len(),
{
    if s.len() == 0 {
        0
    } else if s.last() == sep {
        s.len() as int
    } else {
        tail_start(s.drop_last(), sep)
    }
}

/// The part of `s` after its last `sep`; all of `s` when it holds none.
pub open spec fn after_last(s: Seq<char>, sep: char) -> Seq<char> {
    s.skip(tail_start(s, sep))
}

/// What [`after_last`] is, said without recursion: a suffix free of `sep`
/// that starts at 0 or just behind a `sep`.
pub proof fn lemma_tail_start(s: Seq<char>, sep: char)
    ensures
        0 <= tail_start(s, sep) <= s.len(),
        tail_start(s, sep) > 0 ==> s[tail_start(s, sep) - 1] == sep,
        forall|i: int| tail_start(s, sep) <= i < s.len() ==> s[i] != sep,
    decreases s.len(),
{
    if s.len() > 0 && s.last() != sep {
        let front = s.drop_last();
        lemma_tail_start(front, sep);
        assert forall|i: int| tail_start(s, sep) <= i < s.len() implies s[i] != sep by {
            if i < front.len() {
                assert(front[i] == s[i]);
            }
        }
    }
}

/// The part of `s` after its last `sep`.
pub fn last_part(s: &str, sep: char) -> (out: String)
    ensures
        out@ == after_last(s@, sep),
{
    let chars = chars_of(s);
    let n = chars.len();
    let mut from: usize = n;
    while from > 0 && chars[from - 1] != sep
        invariant
            from <= n == chars.len(),
            forall|i: int| from <= i < n ==> chars@[i] != sep,
        decreases from,
    {
        from -= 1;
    }
    proof {
        lemma_tail_start(chars@, sep);
        let t = tail_start(chars@, sep);
        if t > from as int {
            assert(chars@[t - 1] == sep);
        }
        if t < from as int {
            assert(chars@[from as int - 1] == sep);
        }
        assert(s@.subrange(from as int, n as int) == s@.skip(from as int));
    }
    s.substring_char(from, n).to_owned()
}

/// Whether `needle` occurs in `hay` as a run of consecutive characters.
pub open spec fn occurs_in(needle: Seq<char>, hay: Seq<char>) -> bool {
    exists|i: int| occurs_at(needle, hay, i)
}

/// Whether `needle` stands in `hay` at position `i`.
pub open spec fn occurs_at(needle: Seq<char>, hay: Seq<char>, i: int) -> bool {
    0 <= i && i + needle.len() <= hay.len() && hay.subrange(i, i + needle.len()) == needle
}

fn matches_at(needle: &Vec<char>, hay: &Vec<char>, at: usize) -> (r: bool)
    requires
        at + needle.len() <= hay.len(),
    ensures
        r == occurs_at(needle@, hay@, at as int),
{
    let m = needle.len();
    let mut k: usize = 0;
    while k < m
        invariant
            k <= m == needle.len(),
            at + m <= hay.len(),
            forall|j: int| 0 <= j < k ==> hay@[at + j] == needle@[j],
        decreases m - k,
    {
        if hay[at + k] != needle[k] {
            assert(hay@.subrange(at as int, at + m)[k as int] != needle@[k as int]);
            return false;
        }
        k += 1;
    }
    assert(hay@.subrange(at as int, at + m) =~= needle@);
    true
}

/// Whether `needle` occurs in `hay`.
pub fn contains_text(hay: &str, needle: &str) -> (r: bool)
    ensures
        r == occurs_in(needle@, hay@),
{
    let h = chars_of(hay);
    let n = chars_of(needle);
    if n.len() > h.len() {
        assert(forall|i: int| !occurs_at(n@, h@, i));
        return false;
    }
    let last = h.len() - n.len();
    let mut at: usize = 0;
    loop
        invariant
            at <= last,
            last + n.len() == h.len(),
            h@ == hay@,
            n@ == needle@,
            forall|i: int| 0 <= i < at ==> !occurs_at(n@, h@, i),
        decreases last - at,
    {
        if matches_at(&n, &h, at) {
            assert(occurs_at(n@, h@, at as int));
            return true;
        }
        if at == last {
            assert(forall|i: int| !occurs_at(n@, h@, i));
            return false;
        }
        at += 1;
    }
}

/// Whether `c` is one of `0` to `9`.
pub open spec fn is_digit(c: char) -> bool {
    0x30 <= c as u32 <= 0x39
}

/// The number that a run of decimal digits writes.
pub open spec fn decimal(s: Seq<char>) -> nat
    decreases s.len(),
{
    if s.len() == 0 {
        0
    } else {
        (decimal(s.drop_last()) * 10 + (s.last() as u32 - 0x30)) as nat
    }
}

/// What remains to be read as digits: `s` behind one optional `+`.
pub open spec fn unsigned_digits(s: Seq<char>) -> Seq<char> {
    if s.len() > 0 && s[0] == '+' {
        s.drop_first()
    } else {
        s
    }
}

/// The `u32` that `s` writes in decimal: an optional `+`, then one or more
/// digits and nothing else, with a value that fits.
pub open spec fn parsed_u32(s: Seq<char>) -> Option<u32> {
    let digits = unsigned_digits(s);
    if digits.len() > 0 && (forall|i: int| 0 <= i < digits.len() ==> is_digit(digits[i]))
        && decimal(digits) <= u32::MAX {
        Some(decimal(digits) as u32)
    } else {
        None
    }
}

proof fn lemma_decimal_grows(s: Seq<char>, k: int)
    requires
        0 <= k <= s.len(),
        forall|i: int| 0 <= i < s.len() ==> is_digit(s[i]),
    ensures
        decimal(s.take(k)) <= decimal(s),
    decreases s.len() - k,
{
    if k < s.len() {
        lemma_decimal_grows(s, k + 1);
        assert(s.take(k + 1).drop_last() == s.take(k));
        assert(is_digit(s[k]));
    } else {
        assert(s.take(k) == s);
    }
}

/// Reads `s` as a decimal `u32`.
pub fn parse_u32(s: &str) -> (r: Option<u32>)
    ensures
        r == parsed_u32(s@),
{
    let chars = chars_of(s);
    let n = chars.len();
    let start: usize = if n > 0 && chars[0] == '+' {
        1
    } else {
        0
    };
    let ghost digits = unsigned_digits(chars@);
    assert(digits == chars@.skip(start as int));
    if start == n {
        return None;
    }
    let mut value: u64 = 0;
    let mut k: usize = start;
    while k < n
        invariant
            start <= k <= n == chars.len(),
            chars@ == s@,
            digits == unsigned_digits(chars@),
            digits == chars@.skip(start as int),
            forall|i: int| 0 <= i < k - start ==> is_digit(digits[i]),
            value == decimal(digits.take(k - start)),
            value <= u32::MAX,
        decreases n - k,
    {
        let c = chars[k];
        let d: u32 = c as u32;
        assert(digits[k - start] == c);
        if d < 0x30 || d > 0x39 {
            assert(!is_digit(digits[k - start]));
            return None;
        }
        assert(digits.take(k - start + 1).drop_last() == digits.take(k - start));
        assert(digits.take(k - start + 1).last() == c);
        let next: u64 = value * 10 + (d - 0x30) as u64;
        if next > 0xffff_ffff {
            proof {
                if forall|i: int| 0 <= i < digits.len() ==> is_digit(digits[i]) {
                    lemma_decimal_grows(digits, k - start + 1);
                }
            }
            return None;
        }
        value = next;
        k += 1;
    }
    assert(digits.take(n - start) == digits);
    Some(value as u32)
}

/// Whether `a` comes strictly before `b` in dictionary order, characters
/// compared by code point.
pub open spec fn lex_lt(a: Seq<char>, b: Seq<char>) -> bool
    decreases a.len(),
{
    if b.len() == 0 {
        false
    } else if a.len() == 0 {
        true
    } else if a[0] == b[0] {
        lex_lt(a.drop_first(), b.drop_first())
    } else {
        (a[0] as u32) < (b[0] as u32)
    }
}

/// Whether `a` comes before `b` in dictionary order or equals it.
pub open spec fn lex_le(a: Seq<char>, b: Seq<char>) -> bool {
    a == b || lex_lt(a, b)
}

/// Dictionary order is total: of two strings, one comes no later than the
/// other.
pub proof fn lemma_lex_total(a: Seq<char>, b: Seq<char>)
    ensures
        lex_lt(a, b) || lex_le(b, a),
        !(lex_lt(a, b) && lex_lt(b, a)),
        !lex_lt(a, a),
    decreases a.len(),
{
    lemma_lex_self(a);
    if a.len() == 0 || b.len() == 0 {
        if a.len() == 0 && b.len() == 0 {
            assert(a =~= b);
        }
    } else if a[0] == b[0] {
        lemma_lex_total(a.drop_first(), b.drop_first());
        if a.drop_first() == b.drop_first() {
            assert(a =~= seq![a[0]] + a.drop_first());
            assert(b =~= seq![b[0]] + b.drop_first());
        }
    } else {
        vstd::utf8::char_u32_cast(a[0], a[0] as u32);
        vstd::utf8::char_u32_cast(b[0], b[0] as u32);
    }
}

/// Dictionary order carries over: what comes before a string comes before
/// everything that the string comes before.
pub proof fn lemma_lex_transitive(a: Seq<char>, b: Seq<char>, c: Seq<char>)
    requires
        lex_le(a, b),
        lex_le(b, c),
    ensures
        lex_le(a, c),
        lex_lt(a, b) || lex_lt(b, c) ==> lex_lt(a, c),
    decreases a.len(),
{
    lemma_lex_self(b);
    if a != b && b != c {
        if a.len() > 0 && b.len() > 0 && c.len() > 0 {
            if a[0] == b[0] && b[0] == c[0] {
                lemma_lex_self(a.drop_first());
                lemma_lex_self(b.drop_first());
                lemma_lex_transitive(a.drop_first(), b.drop_first(), c.drop_first());
            }
        }
        lemma_lex_self(a);
    }
}

proof fn lemma_lex_self(a: Seq<char>)
    ensures
        !lex_lt(a, a),
    decreases a.len(),
{
    if a.len() > 0 {
        lemma_lex_self(a.drop_first());
    }
}

/// Whether `a` comes strictly before `b` in dictionary order.
pub fn precedes(a: &str, b: &str) -> (r: bool)
    ensures
        r == lex_lt(a@, b@),
{
    let x = chars_of(a);
    let y = chars_of(b);
    let mut k: usize = 0;
    assert(x@.skip(0) == x@ && y@.skip(0) == y@);
    while k < x.len() && k < y.len()
        invariant
            k <= x.len(),
            k <= y.len(),
            x@ == a@,
            y@ == b@,
            lex_lt(x@, y@) == lex_lt(x@.skip(k as int), y@.skip(k as int)),
        decreases x.len() - k,
    {
        let ghost xs = x@.skip(k as int);
        let ghost ys = y@.skip(k as int);
        assert(xs.drop_first() == x@.skip(k as int + 1));
        assert(ys.drop_first() == y@.skip(k as int + 1));
        assert(xs[0] == x@[k as int] && ys[0] == y@[k as int]);
        if x[k] != y[k] {
            return (x[k] as u32) < (y[k] as u32);
        }
        k += 1;
    }
    k < y.len()
}

/// The character that writes the digit `d`.
pub open spec fn digit_char(d: int) -> char {
    (0x30 + d) as char
}

/// How `n` is written in decimal, without sign or leading zeros.
pub open spec fn decimal_digits(n: nat) -> Seq<char>
    decreases n,
{
    if n < 10 {
        seq![digit_char(n as int)]
    } else {
        decimal_digits(n / 10).push(digit_char((n % 10) as int))
    }
}

fn digit_text(d: u32) -> (text: &'static str)
    requires
        d < 10,
    ensures
        text@ == seq![digit_char(d as int)],
{
    proof {
        reveal_strlit("0");
        reveal_strlit("1");
        reveal_strlit("2");
        reveal_strlit("3");
        reveal_strlit("4");
        reveal_strlit("5");
        reveal_strlit("6");
        reveal_strlit("7");
        reveal_strlit("8");
        reveal_strlit("9");
    }
    let text = match d {
        0 => "0",
        1 => "1",
        2 => "2",
        3 => "3",
        4 => "4",
        5 => "5",
        6 => "6",
        7 => "7",
        8 => "8",
        _ => "9",
    };
    assert(text@ =~= seq![digit_char(d as int)]);
    text
}

/// `n` written in decimal.
pub fn decimal_text(n: u32) -> (text: String)
    ensures
        text@ == decimal_digits(n as nat),
    decreases n,
{
    if n < 10 {
        digit_text(n).to_owned()
    } else {
        let mut text = decimal_text(n / 10);
        text.append(digit_text(n % 10));
        text
    }
}

/// What is written is read back: the decimal digits of a number are read
/// as that number.
pub proof fn lemma_decimal_round_trip(n: u32)
    ensures
        parsed_u32(decimal_digits(n as nat)) == Some(n),
{
    lemma_decimal_digits(n as nat);
    let s = decimal_digits(n as nat);
    vstd::utf8::char_u32_cast('+', 0x2b);
    assert(s[0] != '+') by {
        assert(is_digit(s[0]));
    }
}

proof fn lemma_decimal_digits(n: nat)
    ensures
        decimal_digits(n).len() > 0,
        forall|i: int| 0 <= i < decimal_digits(n).len() ==> is_digit(decimal_digits(n)[i]),
        decimal(decimal_digits(n)) == n,
    decreases n,
{
    let s = decimal_digits(n);
    if n < 10 {
        assert(s.drop_last() =~= Seq::<char>::empty());
        assert(s.last() == digit_char(n as int));
        assert(decimal(Seq::<char>::empty()) == 0);
        assert(s.last() as u32 == 0x30 + n);
    } else {
        lemma_decimal_digits(n / 10);
        let front = decimal_digits(n / 10);
        assert(s.drop_last() =~= front);
        assert(s.last() == digit_char((n % 10) as int));
        assert(s.last() as u32 == 0x30 + n % 10);
        assert forall|i: int| 0 <= i < s.len() implies is_digit(s[i]) by {
            if i < front.len() {
                assert(s[i] == front[i]);
            }
        }
    }
}

/// A string as characters, where there is one.
pub open spec fn opt_text(s: Option<String>) -> Option<Seq<char>> {
    match s {
        Some(s) => Some(s@),
        None => None,
    }
}

/// Runs std's `String::from_utf8`: the bytes as a string where they are
/// valid UTF-8, which is then the string that they encode; none otherwise.
#[verifier::external_body]
pub(crate) fn utf8_text(bytes: Vec<u8>) -> (text: Option<String>)
    ensures
        text.is_some() == vstd::utf8::valid_utf8(bytes@),
        text matches Some(s) ==> s@ == vstd::utf8::decode_utf8(bytes@),
{
    String::from_utf8(bytes).ok()
}

} // verus!
