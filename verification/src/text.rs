//! Character-level text helpers: Unicode whitespace, trimming, and building
//! strings from characters.
use vstd::prelude::*;

verus! {

/// Unicode `White_Space`: the characters for which `char::is_whitespace` holds.
pub open spec fn is_ws(c: char) -> bool {
    let u = c as u32;
    ||| 0x09 <= u <= 0x0d
    ||| u == 0x20
    ||| u == 0x85
    ||| u == 0xa0
    ||| u == 0x1680
    ||| 0x2000 <= u <= 0x200a
    ||| u == 0x2028
    ||| u == 0x2029
    ||| u == 0x202f
    ||| u == 0x205f
    ||| u == 0x3000
}

/// `s` with its leading whitespace removed.
pub open spec fn trim_start(s: Seq<char>) -> Seq<char>
    decreases s.len(),
{
    if s.len() > 0 && is_ws(s[0]) {
        trim_start(s.drop_first())
    } else {
        s
    }
}

/// `s` with its trailing whitespace removed.
pub open spec fn trim_end(s: Seq<char>) -> Seq<char>
    decreases s.len(),
{
    if s.len() > 0 && is_ws(s.last()) {
        trim_end(s.drop_last())
    } else {
        s
    }
}

/// `s` with leading and trailing whitespace removed (what `str::trim` returns).
pub open spec fn trim(s: Seq<char>) -> Seq<char> {
    trim_end(trim_start(s))
}

/// Whether `c` is Unicode whitespace.
pub fn is_whitespace(c: char) -> (r: bool)
    ensures
        r == is_ws(c),
{
    let u = c as u32;
    (0x09 <= u && u <= 0x0d) || u == 0x20 || u == 0x85 || u == 0xa0 || u == 0x1680 || (0x2000
        <= u && u <= 0x200a) || u == 0x2028 || u == 0x2029 || u == 0x202f || u == 0x205f || u
        == 0x3000
}

/// The characters of `s`, in order.
pub fn chars_of(s: &str) -> (v: Vec<char>)
    ensures
        v@ == s@,
{
    let mut v: Vec<char> = Vec::new();
    for c in it: s.chars()
        invariant
            v@ == it.seq().take(it.index() as int),
    {
        v.push(c);
    }
    v
}

/// Appends `c` to `s`.
///
/// Trusted: calls `String::push`, whose documentation says it appends the
/// character to the end of the string; the contract states exactly that.
#[verifier::external_body]
pub fn push_char(s: &mut String, c: char)
    ensures
        final(s)@ == old(s)@.push(c),
{
    s.push(c);
}

/// A new string holding `cs[lo..hi]`.
pub fn string_from_chars(cs: &Vec<char>, lo: usize, hi: usize) -> (r: String)
    requires
        lo <= hi <= cs.len(),
    ensures
        r@ == cs@.subrange(lo as int, hi as int),
{
    let mut r = String::new();
    let mut i = lo;
    while i < hi
        invariant
            lo <= i <= hi <= cs.len(),
            r@ == cs@.subrange(lo as int, i as int),
        decreases hi - i,
    {
        push_char(&mut r, cs[i]);
        assert(cs@.subrange(lo as int, i + 1) == cs@.subrange(lo as int, i as int).push(cs@[i as int]));
        i = i + 1;
    }
    r
}

/// The bounds of `trim(cs[lo..hi])` inside `cs`.
pub fn trim_range(cs: &Vec<char>, lo: usize, hi: usize) -> (r: (usize, usize))
    requires
        lo <= hi <= cs.len(),
    ensures
        lo <= r.0 <= r.1 <= hi,
        cs@.subrange(r.0 as int, r.1 as int) == trim(cs@.subrange(lo as int, hi as int)),
{
    let mut a = lo;
    while a < hi && is_whitespace(cs[a])
        invariant
            lo <= a <= hi <= cs.len(),
            trim_start(cs@.subrange(lo as int, hi as int)) == trim_start(cs@.subrange(a as int, hi as int)),
        decreases hi - a,
    {
        assert(cs@.subrange(a as int, hi as int).drop_first() == cs@.subrange(a + 1, hi as int));
        a = a + 1;
    }
    assert(trim_start(cs@.subrange(a as int, hi as int)) == cs@.subrange(a as int, hi as int));
    let mut b = hi;
    while b > a && is_whitespace(cs[b - 1])
        invariant
            lo <= a <= b <= hi <= cs.len(),
            trim_end(cs@.subrange(a as int, hi as int)) == trim_end(cs@.subrange(a as int, b as int)),
        decreases b - a,
    {
        assert(cs@.subrange(a as int, b as int).drop_last() == cs@.subrange(a as int, b - 1));
        b = b - 1;
    }
    assert(trim_end(cs@.subrange(a as int, b as int)) == cs@.subrange(a as int, b as int));
    (a, b)
}

/// The digit for `d` (`0`-`9`, then lowercase `a`-`f`).
pub open spec fn hex_digit(d: nat) -> char {
    if d < 10 {
        (48 + d) as char
    } else {
        (87 + d) as char
    }
}

/// The numeric value of a digit made by [`hex_digit`].
pub open spec fn digit_value(c: char) -> nat {
    if (c as u32) < 58 {
        (c as u32 - 48) as nat
    } else {
        (c as u32 - 87) as nat
    }
}

/// Decimal notation of `n`, without leading zeros (as `{}` formats it).
pub open spec fn decimal(n: nat) -> Seq<char>
    decreases n,
{
    if n < 10 {
        seq![hex_digit(n)]
    } else {
        decimal(n / 10).push(hex_digit(n % 10))
    }
}

/// Lowercase hexadecimal notation of `n` in exactly `width` digits: the
/// `width` low hexadecimal digits of `n`, zero-padded (as `{:0width$x}`
/// formats a number below `16^width`).
pub open spec fn hex_fixed(n: nat, width: nat) -> Seq<char>
    decreases width,
{
    if width == 0 {
        seq![]
    } else {
        hex_fixed(n / 16, (width - 1) as nat).push(hex_digit(n % 16))
    }
}

/// The number that a string of digits in base `base` denotes.
pub open spec fn digits_value(s: Seq<char>, base: nat) -> nat
    decreases s.len(),
{
    if s.len() == 0 {
        0
    } else {
        digits_value(s.drop_last(), base) * base + digit_value(s.last())
    }
}

/// `16` to the power `w`.
pub open spec fn pow16(w: nat) -> nat
    decreases w,
{
    if w == 0 {
        1
    } else {
        16 * pow16((w - 1) as nat)
    }
}

fn digit_char(d: u64) -> (c: char)
    requires
        d < 16,
    ensures
        c == hex_digit(d as nat),
{
    if d < 10 {
        ((48 + d) as u8) as char
    } else {
        ((87 + d) as u8) as char
    }
}

/// Appends the decimal notation of `n` to `s`.
pub fn push_decimal(s: &mut String, n: u64)
    ensures
        final(s)@ == old(s)@ + decimal(n as nat),
    decreases n,
{
    if n >= 10 {
        push_decimal(s, n / 10);
    }
    push_char(s, digit_char(n % 10));
}

/// Appends the `width` low hexadecimal digits of `n` to `s`, zero-padded.
pub fn push_hex_fixed(s: &mut String, n: u64, width: usize)
    ensures
        final(s)@ == old(s)@ + hex_fixed(n as nat, width as nat),
    decreases width,
{
    if width > 0 {
        push_hex_fixed(s, n / 16, width - 1);
        push_char(s, digit_char(n % 16));
    }
}

/// A digit reads back as the number it was made from.
pub proof fn lemma_digit_roundtrip(d: nat)
    requires
        d < 16,
    ensures
        digit_value(hex_digit(d)) == d,
{
}

/// Decimal notation reads back as the number it was made from, and has no
/// leading zero.
pub proof fn law_decimal_roundtrip(n: nat)
    ensures
        digits_value(decimal(n), 10) == n,
        decimal(n).len() >= 1,
        decimal(n).len() > 1 <==> n >= 10,
        decimal(n).len() > 1 ==> decimal(n)[0] != '0',
    decreases n,
{
    if n < 10 {
        lemma_digit_roundtrip(n);
        assert(decimal(n).drop_last() =~= Seq::<char>::empty());
        assert(digits_value(decimal(n), 10) == digits_value(Seq::<char>::empty(), 10) * 10 + digit_value(hex_digit(n)));
    } else {
        let q = n / 10;
        let r = n % 10;
        law_decimal_roundtrip(q);
        lemma_digit_roundtrip(r);
        assert(decimal(n).drop_last() == decimal(q));
        assert(q * 10 + r == n) by (nonlinear_arith)
            requires
                q == n / 10,
                r == n % 10,
        ;
        assert(digits_value(decimal(n), 10) == digits_value(decimal(q), 10) * 10 + digit_value(hex_digit(r)));
        assert(q >= 1);
        assert(decimal(n)[0] == decimal(q)[0]);
        if q < 10 {
            assert(decimal(q)[0] == hex_digit(q));
        }
    }
}

/// Fixed-width hexadecimal notation has exactly `width` digits and reads
/// back as the number it was made from, when that number has at most
/// `width` hexadecimal digits.
pub proof fn law_hex_fixed_roundtrip(n: nat, width: nat)
    requires
        n < pow16(width),
    ensures
        hex_fixed(n, width).len() == width,
        digits_value(hex_fixed(n, width), 16) == n,
    decreases width,
{
    if width == 0 {
    } else {
        let w1 = (width - 1) as nat;
        assert(n / 16 < pow16(w1)) by (nonlinear_arith)
            requires
                n < 16 * pow16(w1),
        ;
        law_hex_fixed_roundtrip(n / 16, w1);
        lemma_digit_roundtrip(n % 16);
        assert(hex_fixed(n, width).drop_last() == hex_fixed(n / 16, w1));
    }
}

/// Where `trim_start` cuts: everything before `k` is whitespace, the
/// character at `k` (if any) is not.
pub proof fn lemma_trim_start_cut(s: Seq<char>) -> (k: int)
    ensures
        0 <= k <= s.len(),
        trim_start(s) == s.subrange(k, s.len() as int),
        forall|i: int| 0 <= i < k ==> is_ws(#[trigger] s[i]),
        k < s.len() ==> !is_ws(s[k]),
    decreases s.len(),
{
    if s.len() > 0 && is_ws(s[0]) {
        let t = s.drop_first();
        let k1 = lemma_trim_start_cut(t);
        assert(t.subrange(k1, t.len() as int) == s.subrange(k1 + 1, s.len() as int));
        assert forall|i: int| 0 <= i < k1 + 1 implies is_ws(#[trigger] s[i]) by {
            if i > 0 {
                assert(s[i] == t[i - 1]);
            }
        }
        k1 + 1
    } else {
        assert(s.subrange(0, s.len() as int) == s);
        0
    }
}

/// Where `trim_end` cuts: everything from `k` on is whitespace, the
/// character before `k` (if any) is not.
pub proof fn lemma_trim_end_cut(s: Seq<char>) -> (k: int)
    ensures
        0 <= k <= s.len(),
        trim_end(s) == s.subrange(0, k),
        forall|i: int| k <= i < s.len() ==> is_ws(#[trigger] s[i]),
        k > 0 ==> !is_ws(s[k - 1]),
    decreases s.len(),
{
    if s.len() > 0 && is_ws(s.last()) {
        let t = s.drop_last();
        let k1 = lemma_trim_end_cut(t);
        assert(t.subrange(0, k1) == s.subrange(0, k1));
        assert forall|i: int| k1 <= i < s.len() implies is_ws(#[trigger] s[i]) by {
            if i < s.len() - 1 {
                assert(s[i] == t[i]);
            }
        }
        k1
    } else {
        assert(s.subrange(0, s.len() as int) == s);
        s.len() as int
    }
}

/// `trim(s)` is the part `s[a..b]` left after cutting whitespace from both
/// ends: all that is cut is whitespace, and a non-empty result neither
/// starts nor ends with whitespace.
pub proof fn lemma_trim_cut(s: Seq<char>) -> (r: (int, int))
    ensures
        0 <= r.0 <= r.1 <= s.len(),
        trim(s) == s.subrange(r.0, r.1),
        forall|i: int| 0 <= i < r.0 ==> is_ws(#[trigger] s[i]),
        forall|i: int| r.1 <= i < s.len() ==> is_ws(#[trigger] s[i]),
        r.0 < r.1 ==> !is_ws(s[r.0]) && !is_ws(s[r.1 - 1]),
{
    let a = lemma_trim_start_cut(s);
    let t = trim_start(s);
    let k = lemma_trim_end_cut(t);
    assert(t.subrange(0, k) == s.subrange(a, a + k));
    assert forall|i: int| a + k <= i < s.len() implies is_ws(#[trigger] s[i]) by {
        assert(s[i] == t[i - a]);
    }
    if k > 0 {
        assert(s[a] == t[0]);
        assert(s[a + k - 1] == t[k - 1]);
    }
    (a, a + k)
}

/// A trimmed text has no whitespace at either end.
pub proof fn law_trim_edges(s: Seq<char>)
    ensures
        trim(s).len() > 0 ==> !is_ws(trim(s)[0]) && !is_ws(trim(s).last()),
        trim(s).len() == 0 <==> forall|i: int| 0 <= i < s.len() ==> is_ws(#[trigger] s[i]),
        trim(s).len() <= s.len(),
{
    let (a, b) = lemma_trim_cut(s);
    if a < b {
        assert(!is_ws(s[a]));
    } else {
        assert forall|i: int| 0 <= i < s.len() implies is_ws(#[trigger] s[i]) by {
            if i >= a {
                assert(i >= b);
            }
        }
    }
}

/// Trimming twice is trimming once.
pub proof fn law_trim_idempotent(s: Seq<char>)
    ensures
        trim(trim(s)) == trim(s),
{
    let t = trim(s);
    law_trim_edges(s);
    let (a, b) = lemma_trim_cut(t);
    if t.len() > 0 {
        if a > 0 {
            assert(is_ws(t[0]));
        }
        if b < t.len() {
            assert(is_ws(t[t.len() - 1]));
        }
        assert(t.subrange(0, t.len() as int) == t);
    } else {
        assert(t.subrange(a, b) =~= t);
    }
}

} // verus!
