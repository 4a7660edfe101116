//! Character-level primitives: decimal and hexadecimal digits, case mapping,
//! whitespace trimming, and the lemmas that make their parsers exact inverses
//! of their printers.

use vstd::prelude::*;

verus! {

/// Decimal digit character.
pub open spec fn is_digit_char(c: char) -> bool {
    '0' <= c && c <= '9'
}

/// Numeric value of a decimal digit character.
pub open spec fn digit_val(c: char) -> int {
    c as int - '0' as int
}

/// The character for a decimal digit value.
pub open spec fn char_of_digit(d: int) -> char {
    ((48 + d) as u8) as char
}

/// Lowercase hexadecimal digit character for a value below 16.
pub open spec fn char_of_hex_digit(d: int) -> char {
    if d < 10 {
        ((48 + d) as u8) as char
    } else {
        ((97 + (d - 10)) as u8) as char
    }
}

/// Hexadecimal digit character (either case).
pub open spec fn is_hex_digit_char(c: char) -> bool {
    ('0' <= c && c <= '9') || ('a' <= c && c <= 'f') || ('A' <= c && c <= 'F')
}

/// Numeric value of a hexadecimal digit character.
pub open spec fn hex_digit_val(c: char) -> int {
    if '0' <= c && c <= '9' {
        c as int - '0' as int
    } else if 'a' <= c && c <= 'f' {
        10 + (c as int - 'a' as int)
    } else {
        10 + (c as int - 'A' as int)
    }
}

/// The decimal digit sequence of a natural number, most significant first.
pub open spec fn dec_chars(n: nat) -> Seq<char>
    decreases n,
{
    if n < 10 {
        seq![char_of_digit(n as int)]
    } else {
        dec_chars(n / 10) + seq![char_of_digit((n % 10) as int)]
    }
}

/// Value of a sequence of decimal digit characters.
pub open spec fn val_of_digits(s: Seq<char>) -> nat
    decreases s.len(),
{
    if s.len() == 0 {
        0
    } else {
        val_of_digits(s.drop_last()) * 10 + (digit_val(s.last()) as nat)
    }
}

/// Every character that `dec_chars` produces is a decimal digit.
pub proof fn lemma_dec_chars_are_digits(n: nat)
    ensures
        forall|i: int| 0 <= i < dec_chars(n).len() ==> is_digit_char(#[trigger] dec_chars(n)[i]),
        dec_chars(n).len() >= 1,
    decreases n,
{
    if n < 10 {
        assert(is_digit_char(char_of_digit(n as int)));
    } else {
        lemma_dec_chars_are_digits(n / 10);
        assert(is_digit_char(char_of_digit((n % 10) as int)));
        assert(forall|i: int|
            0 <= i < dec_chars(n).len() ==> is_digit_char(#[trigger] dec_chars(n)[i])) by {
            assert(forall|i: int| 0 <= i < dec_chars(n).len() ==> dec_chars(n)[i]
                == if i < dec_chars(n / 10).len() {
                    dec_chars(n / 10)[i]
                } else {
                    char_of_digit((n % 10) as int)
                });
        }
    }
}

/// Reading back the decimal digits of `n` yields `n`.
pub proof fn lemma_val_of_dec_chars(n: nat)
    ensures
        val_of_digits(dec_chars(n)) == n,
    decreases n,
{
    if n < 10 {
        let s = seq![char_of_digit(n as int)];
        assert(dec_chars(n) == s);
        assert(s.len() == 1);
        assert(s.drop_last() =~= Seq::<char>::empty());
        assert(val_of_digits(s.drop_last()) == 0);
        assert(s.last() == char_of_digit(n as int));
        assert(val_of_digits(s) == val_of_digits(s.drop_last()) * 10 + (digit_val(s.last()) as nat));
        assert(digit_val(char_of_digit(n as int)) == n);
    } else {
        lemma_val_of_dec_chars(n / 10);
        let s = dec_chars(n);
        assert(s.drop_last() =~= dec_chars(n / 10));
        assert(s.last() == char_of_digit((n % 10) as int));
        assert(digit_val(char_of_digit((n % 10) as int)) == n % 10);
        vstd::arithmetic::div_mod::lemma_fundamental_div_mod(n as int, 10);
    }
}

/// Powers of ten.
pub open spec fn pow10(k: nat) -> nat
    decreases k,
{
    if k == 0 {
        1
    } else {
        10 * pow10((k - 1) as nat)
    }
}

/// A number below `10^k` prints with at most `k` digits.
pub proof fn lemma_dec_chars_len(n: nat, k: nat)
    requires
        n < pow10(k),
        k >= 1,
    ensures
        dec_chars(n).len() <= k,
    decreases n,
{
    if n >= 10 {
        assert(pow10(k) == 10 * pow10((k - 1) as nat));
        assert(n / 10 < pow10((k - 1) as nat));
        lemma_dec_chars_len(n / 10, (k - 1) as nat);
    }
}

/// The value of `10^20`, unfolded step by step.
pub proof fn lemma_pow10_20_value()
    ensures
        pow10(20) == 100_000_000_000_000_000_000,
{
    assert(pow10(0) == 1);
    assert(pow10(1) == 10);
    assert(pow10(2) == 100);
    assert(pow10(3) == 1000);
    assert(pow10(4) == 10000);
    assert(pow10(5) == 100000);
    assert(pow10(6) == 1000000);
    assert(pow10(7) == 10000000);
    assert(pow10(8) == 100000000);
    assert(pow10(9) == 1000000000);
    assert(pow10(10) == 10000000000);
    assert(pow10(11) == 100000000000);
    assert(pow10(12) == 1000000000000);
    assert(pow10(13) == 10000000000000);
    assert(pow10(14) == 100000000000000);
    assert(pow10(15) == 1000000000000000);
    assert(pow10(16) == 10000000000000000);
    assert(pow10(17) == 100000000000000000);
    assert(pow10(18) == 1000000000000000000);
    assert(pow10(19) == 10000000000000000000);
    assert(pow10(20) == 100000000000000000000);
}

/// `u64` values print with at most twenty digits.
pub proof fn lemma_dec_chars_len_u64(n: u64)
    ensures
        1 <= dec_chars(n as nat).len() <= 20,
{
    lemma_dec_chars_are_digits(n as nat);
    lemma_pow10_20_value();
    assert((n as nat) < pow10(20));
    lemma_dec_chars_len(n as nat, 20);
}

/// Decimal digit test, executable form.
pub fn is_digit(c: char) -> (r: bool)
    ensures
        r == is_digit_char(c),
{
    let b = c as u32;
    48 <= b && b <= 57
}

/// Decimal digits of `n`, most significant first.
pub fn u64_to_dec(n: u64) -> (s: Vec<char>)
    ensures
        s@ == dec_chars(n as nat),
    decreases n,
{
    if n < 10 {
        let mut v: Vec<char> = Vec::new();
        v.push((48 + (n as u8)) as char);
        assert(v@ =~= dec_chars(n as nat));
        v
    } else {
        let mut v = u64_to_dec(n / 10);
        v.push((48 + ((n % 10) as u8)) as char);
        assert(v@ =~= dec_chars(n as nat));
        v
    }
}

/// Number of leading decimal digit characters.
pub open spec fn digits_prefix_len(s: Seq<char>) -> int
    decreases s.len(),
{
    if s.len() == 0 || !is_digit_char(s[0]) {
        0
    } else {
        1 + digits_prefix_len(s.skip(1))
    }
}


/// If the first `k` characters are digits and the next one is not (or the
/// sequence ends there), then the digit prefix has length exactly `k`.
pub proof fn lemma_digits_prefix_len_exact(s: Seq<char>, k: int)
    requires
        0 <= k <= s.len(),
        forall|i: int| 0 <= i < k ==> is_digit_char(#[trigger] s[i]),
        k < s.len() ==> !is_digit_char(s[k]),
    ensures
        digits_prefix_len(s) == k,
    decreases k,
{
    if k == 0 {
    } else {
        assert(is_digit_char(s[0]));
        lemma_digits_prefix_len_exact(s.skip(1), k - 1);
    }
}

/// First index in `[from, to)` whose character is not a decimal digit,
/// scanning `v[from..to]`.
pub fn scan_digits_range(v: &Vec<char>, from: usize, to: usize) -> (j: usize)
    requires
        from <= to <= v@.len(),
    ensures
        from <= j <= to,
        j - from == digits_prefix_len(v@.subrange(from as int, to as int)),
        forall|t: int| from <= t < j ==> is_digit_char(#[trigger] v@[t]),
        j < to ==> !is_digit_char(v@[j as int]),
{
    let mut j = from;
    while j < to && is_digit(v[j])
        invariant
            from <= j <= to <= v@.len(),
            forall|t: int| from <= t < j ==> is_digit_char(#[trigger] v@[t]),
        decreases to - j,
    {
        j = j + 1;
    }
    proof {
        let s = v@.subrange(from as int, to as int);
        assert(forall|t: int| 0 <= t < j - from ==> is_digit_char(#[trigger] s[t]));
        lemma_digits_prefix_len_exact(s, j - from);
    }
    j
}

/// Value of the digit characters `v[i..j]`, accumulated left to right.
pub fn digits_value(v: &Vec<char>, i: usize, j: usize) -> (r: u128)
    requires
        i <= j <= v@.len(),
        j - i <= 20,
        forall|t: int| i <= t < j ==> is_digit_char(#[trigger] v@[t]),
    ensures
        r == val_of_digits(v@.subrange(i as int, j as int)),
        r < 0x5_0000_0000_0000_0000_0000u128,
{
    let mut acc: u128 = 0;
    let mut t = i;
    proof {
        assert(v@.subrange(i as int, i as int) =~= Seq::<char>::empty());
        lemma_val_of_digits_bound(v@.subrange(i as int, i as int));
    }
    while t < j
        invariant
            i <= t <= j <= v@.len(),
            j - i <= 20,
            forall|q: int| i <= q < j ==> is_digit_char(#[trigger] v@[q]),
            acc == val_of_digits(v@.subrange(i as int, t as int)),
            acc < pow10((t - i) as nat),
        decreases j - t,
    {
        let c = v[t];
        let d: u128 = (c as u32 - 48) as u128;
        proof {
            assert(v@.subrange(i as int, t as int + 1).drop_last() =~= v@.subrange(
                i as int,
                t as int,
            ));
            assert(v@.subrange(i as int, t as int + 1).last() == v@[t as int]);
            lemma_pow10_le_20((t + 1 - i) as nat);
            assert(pow10((t + 1 - i) as nat) == 10 * pow10((t - i) as nat));
        }
        acc = acc * 10 + d;
        t = t + 1;
    }
    proof {
        lemma_pow10_le_20((j - i) as nat);
    }
    acc
}

/// Values of at most twenty digits stay below `5 * 10^20`.
proof fn lemma_pow10_le_20(k: nat)
    requires
        k <= 20,
    ensures
        pow10(k) <= pow10(20),
        pow10(20) < 0x5_0000_0000_0000_0000_0000u128,
    decreases 20 - k,
{
    lemma_pow10_20_value();
    if k < 20 {
        lemma_pow10_le_20(k + 1);
        assert(pow10(k + 1) == 10 * pow10(k));
    }
}

/// A digit string's value is below `10^len`.
pub proof fn lemma_val_of_digits_bound(s: Seq<char>)
    requires
        forall|i: int| 0 <= i < s.len() ==> is_digit_char(#[trigger] s[i]),
    ensures
        val_of_digits(s) < pow10(s.len()),
    decreases s.len(),
{
    if s.len() == 0 {
    } else {
        assert(forall|i: int| 0 <= i < s.drop_last().len() ==> is_digit_char(
            #[trigger] s.drop_last()[i],
        ));
        lemma_val_of_digits_bound(s.drop_last());
        assert(pow10(s.len()) == 10 * pow10((s.len() - 1) as nat));
        assert(digit_val(s.last()) <= 9);
    }
}

/// ASCII lowercase of one character.
pub open spec fn lower_char(c: char) -> char {
    if 'A' <= c && c <= 'Z' {
        ((c as int + 32) as u8) as char
    } else {
        c
    }
}

/// ASCII uppercase of one character.
pub open spec fn upper_char(c: char) -> char {
    if 'a' <= c && c <= 'z' {
        ((c as int - 32) as u8) as char
    } else {
        c
    }
}

/// ASCII lowercase of a character sequence.
pub open spec fn spec_lower(s: Seq<char>) -> Seq<char> {
    s.map_values(|c: char| lower_char(c))
}

/// ASCII uppercase of a character sequence.
pub open spec fn spec_upper(s: Seq<char>) -> Seq<char> {
    s.map_values(|c: char| upper_char(c))
}

/// ASCII lowercase of one character.
pub fn to_lower_char(c: char) -> (r: char)
    ensures
        r == lower_char(c),
{
    if 'A' <= c && c <= 'Z' {
        ((c as u32 + 32) as u8) as char
    } else {
        c
    }
}

/// ASCII uppercase of one character.
pub fn to_upper_char(c: char) -> (r: char)
    ensures
        r == upper_char(c),
{
    if 'a' <= c && c <= 'z' {
        ((c as u32 - 32) as u8) as char
    } else {
        c
    }
}

/// ASCII whitespace, as trimmed from input lines.
pub open spec fn is_ws(c: char) -> bool {
    c == ' ' || c == '\t' || c == '\r' || c == '\n' || c == '\u{b}' || c == '\u{c}'
}

/// Whitespace test, executable form.
pub fn is_ws_char(c: char) -> (r: bool)
    ensures
        r == is_ws(c),
{
    c == ' ' || c == '\t' || c == '\r' || c == '\n' || c == '\u{b}' || c == '\u{c}'
}

/// Index of the first non-whitespace character.
pub open spec fn ws_prefix_len(s: Seq<char>) -> int
    decreases s.len(),
{
    if s.len() == 0 || !is_ws(s[0]) {
        0
    } else {
        1 + ws_prefix_len(s.skip(1))
    }
}

/// Length after trailing whitespace is removed.
pub open spec fn trimmed_end_len(s: Seq<char>) -> int
    decreases s.len(),
{
    if s.len() == 0 {
        0
    } else if is_ws(s.last()) {
        trimmed_end_len(s.drop_last())
    } else {
        s.len() as int
    }
}

/// The sequence with leading and trailing whitespace removed.
pub open spec fn spec_trim(s: Seq<char>) -> Seq<char> {
    let t = s.take(trimmed_end_len(s));
    t.skip(ws_prefix_len(t))
}

pub proof fn lemma_trimmed_end_len_bounds(s: Seq<char>)
    ensures
        0 <= trimmed_end_len(s) <= s.len(),
        forall|i: int| trimmed_end_len(s) <= i < s.len() ==> is_ws(#[trigger] s[i]),
        trimmed_end_len(s) > 0 ==> !is_ws(s[trimmed_end_len(s) - 1]),
    decreases s.len(),
{
    if s.len() == 0 {
    } else if is_ws(s.last()) {
        lemma_trimmed_end_len_bounds(s.drop_last());
        assert(forall|i: int| 0 <= i < s.len() - 1 ==> s[i] == s.drop_last()[i]);
    } else {
    }
}

pub proof fn lemma_ws_prefix_len_bounds(s: Seq<char>)
    ensures
        0 <= ws_prefix_len(s) <= s.len(),
        forall|i: int| 0 <= i < ws_prefix_len(s) ==> is_ws(#[trigger] s[i]),
        ws_prefix_len(s) < s.len() ==> !is_ws(s[ws_prefix_len(s)]),
    decreases s.len(),
{
    if s.len() == 0 || !is_ws(s[0]) {
    } else {
        lemma_ws_prefix_len_bounds(s.skip(1));
        assert(forall|i: int| 0 <= i < ws_prefix_len(s) ==> is_ws(#[trigger] s[i])) by {
            assert(forall|i: int| 1 <= i < s.len() ==> s[i] == s.skip(1)[i - 1]);
        }
    }
}

/// Trim leading and trailing whitespace from `v[from..to]`.
pub fn trim_range(v: &Vec<char>, from: usize, to: usize) -> (r: Vec<char>)
    requires
        from <= to <= v@.len(),
    ensures
        r@ == spec_trim(v@.subrange(from as int, to as int)),
{
    let ghost s = v@.subrange(from as int, to as int);
    proof {
        assert(s.take((to - from) as int) =~= s);
    }
    let mut hi = to;
    while hi > from && is_ws_char(v[hi - 1])
        invariant
            from <= hi <= to <= v@.len(),
            s == v@.subrange(from as int, to as int),
            trimmed_end_len(s) == trimmed_end_len(s.take(hi - from)),
        decreases hi,
    {
        proof {
            let t = s.take(hi - from);
            assert(t.last() == v@[hi - 1]);
            assert(t.drop_last() =~= s.take(hi - from - 1));
        }
        hi = hi - 1;
    }
    proof {
        let t = s.take(hi - from);
        if hi > from {
            assert(t.last() == v@[hi - 1]);
        }
        assert(trimmed_end_len(t) == t.len());
        assert(s.take(trimmed_end_len(s)) =~= t);
    }
    proof {
        let t = s.take(hi - from);
        assert(t.skip(0) =~= t);
    }
    let mut lo = from;
    while lo < hi && is_ws_char(v[lo])
        invariant
            from <= lo <= hi <= v@.len(),
            hi <= to <= v@.len(),
            s == v@.subrange(from as int, to as int),
            hi - from == trimmed_end_len(s),
            ws_prefix_len(s.take(hi - from)) == (lo - from) + ws_prefix_len(
                s.take(hi - from).skip(lo - from),
            ),
        decreases hi - lo,
    {
        proof {
            let t = s.take(hi - from);
            let u = t.skip(lo - from);
            assert(u[0] == v@[lo as int]);
            assert(u.skip(1) =~= t.skip(lo - from + 1));
        }
        lo = lo + 1;
    }
    proof {
        let t = s.take(hi - from);
        let u = t.skip(lo - from);
        if lo < hi {
            assert(u[0] == v@[lo as int]);
        }
        assert(ws_prefix_len(u) == 0);
        assert(ws_prefix_len(t) == lo - from);
    }
    let mut r: Vec<char> = Vec::new();
    let mut t = lo;
    while t < hi
        invariant
            lo <= t <= hi <= v@.len(),
            from <= lo,
            r@ =~= v@.subrange(lo as int, t as int),
        decreases hi - t,
    {
        r.push(v[t]);
        t = t + 1;
    }
    proof {
        assert(r@ =~= v@.subrange(lo as int, hi as int));
        assert(spec_trim(s) =~= s.take(hi - from).skip(lo - from));
        assert(s.take(hi - from).skip(lo - from) =~= v@.subrange(lo as int, hi as int));
    }
    r
}

/// Append `src` to `dst`.
pub fn push_all(dst: &mut Vec<char>, src: &Vec<char>)
    ensures
        final(dst)@ == old(dst)@ + src@,
{
    let mut i: usize = 0;
    while i < src.len()
        invariant
            i <= src@.len(),
            dst@ =~= old(dst)@ + src@.take(i as int),
        decreases src@.len() - i,
    {
        dst.push(src[i]);
        i = i + 1;
    }
    proof {
        assert(src@.take(src@.len() as int) =~= src@);
    }
}

/// The characters of a string slice.
pub fn chars_of_str(s: &str) -> (v: Vec<char>)
    ensures
        v@ == s@,
{
    let n = s.unicode_len();
    let mut v: Vec<char> = Vec::new();
    let mut i: usize = 0;
    while i < n
        invariant
            i <= n,
            n == s@.len(),
            v@ =~= s@.take(i as int),
        decreases n - i,
    {
        v.push(s.get_char(i));
        i = i + 1;
    }
    proof {
        assert(s@.take(n as int) =~= s@);
    }
    v
}

/// Builds a `String` from a character vector.
///
/// Relies on `std::iter::Iterator::collect` for `String`: collecting
/// characters yields the string of exactly those characters in order.
#[verifier::external_body]
pub fn string_from_chars(v: &Vec<char>) -> (s: String)
    ensures
        s@ == v@,
{
    v.iter().collect()
}

} // verus!
