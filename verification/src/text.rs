//! Character-sequence helpers shared by the clipboard-format parser and
//! generator: whitespace trimming, prefix and substring search, and numbers
//! written in a radix (parsed the way std parses `u32`, printed the way
//! `format!` prints them).
use vstd::prelude::*;
use vstd::string::StringExecFns;

verus! {

broadcast use vstd::string::group_string_axioms;

// ── whitespace ──────────────────────────────────────────────────────────────

/// `char::is_whitespace`: the Unicode `White_Space` property.
pub open spec fn is_whitespace(c: char) -> bool {
    let u = c as u32;
    ||| 9 <= u <= 13
    ||| u == 32
    ||| u == 0x85
    ||| u == 0xA0
    ||| u == 0x1680
    ||| 0x2000 <= u <= 0x200A
    ||| u == 0x2028
    ||| u == 0x2029
    ||| u == 0x202F
    ||| u == 0x205F
    ||| u == 0x3000
}

/// `s` without its leading whitespace.
pub open spec fn trim_start(s: Seq<char>) -> Seq<char>
    decreases s.len(),
{
    if s.len() > 0 && is_whitespace(s[0]) {
        trim_start(s.drop_first())
    } else {
        s
    }
}

/// `s` without its trailing whitespace.
pub open spec fn trim_end(s: Seq<char>) -> Seq<char>
    decreases s.len(),
{
    if s.len() > 0 && is_whitespace(s.last()) {
        trim_end(s.drop_last())
    } else {
        s
    }
}

/// `str::trim`: `s` without leading and trailing whitespace.
pub open spec fn trim(s: Seq<char>) -> Seq<char> {
    trim_end(trim_start(s))
}

/// `str::starts_with` for a literal prefix.
pub open spec fn starts_with(s: Seq<char>, prefix: Seq<char>) -> bool {
    prefix.len() <= s.len() && s.subrange(0, prefix.len() as int) == prefix
}

/// First position at or after `i` where `needle` occurs in `hay`.
pub open spec fn find_from(hay: Seq<char>, needle: Seq<char>, i: int) -> Option<int>
    decreases hay.len() + 1 - i,
{
    if i < 0 || i + needle.len() > hay.len() {
        None
    } else if hay.subrange(i, i + needle.len()) == needle {
        Some(i)
    } else {
        find_from(hay, needle, i + 1)
    }
}

/// `str::find`: the first position where `needle` occurs in `hay`.
pub open spec fn find(hay: Seq<char>, needle: Seq<char>) -> Option<int> {
    find_from(hay, needle, 0)
}

// ── numbers ─────────────────────────────────────────────────────────────────

/// `char::to_digit(radix)` (for a radix of at most 36).
pub open spec fn digit_value(c: char, radix: nat) -> Option<nat> {
    let u = c as u32;
    let v: int = if 48 <= u <= 57 {
        u - 48
    } else if 97 <= u <= 122 {
        u - 97 + 10
    } else if 65 <= u <= 90 {
        u - 65 + 10
    } else {
        36
    };
    if v < radix {
        Some(v as nat)
    } else {
        None
    }
}

/// Every character of `s` is a digit in `radix`.
pub open spec fn all_digits(s: Seq<char>, radix: nat) -> bool {
    forall|i: int| 0 <= i < s.len() ==> (#[trigger] digit_value(s[i], radix)) is Some
}

/// The number that the digits `s` write in `radix`, most significant first.
pub open spec fn digits_value(s: Seq<char>, radix: nat) -> nat
    decreases s.len(),
{
    if s.len() == 0 {
        0
    } else {
        digits_value(s.drop_last(), radix) * radix + match digit_value(s.last(), radix) {
            Some(d) => d,
            None => 0,
        }
    }
}

/// `u32::from_str_radix(s, radix)` as an `Option`: an optional leading `+`,
/// then one or more digits whose value fits in a `u32`.
pub open spec fn parse_u32_radix(s: Seq<char>, radix: nat) -> Option<u32> {
    if s.len() == 0 {
        None
    } else if s.len() == 1 && (s[0] == '+' || s[0] == '-') {
        None
    } else {
        let d = if s[0] == '+' {
            s.drop_first()
        } else {
            s
        };
        if all_digits(d, radix) && digits_value(d, radix) <= u32::MAX {
            Some(digits_value(d, radix) as u32)
        } else {
            None
        }
    }
}

/// The character of digit `d` (`0`–`9`, then upper-case letters).
pub open spec fn digit_char(d: nat) -> char {
    if d < 10 {
        (48 + d) as char
    } else {
        (55 + d) as char
    }
}

/// `format!("{}", n)`: decimal digits without leading zeros.
pub open spec fn decimal(n: nat) -> Seq<char>
    decreases n,
{
    if n < 10 {
        seq![digit_char(n)]
    } else {
        decimal(n / 10).push(digit_char(n % 10))
    }
}

/// The last `k` hexadecimal digits of `v`, upper case, zero-padded.
pub open spec fn hex_digits(v: nat, k: nat) -> Seq<char>
    decreases k,
{
    if k == 0 {
        seq![]
    } else {
        hex_digits(v / 16, (k - 1) as nat).push(digit_char(v % 16))
    }
}

/// `16` to the power `k`.
pub open spec fn pow16(k: nat) -> nat
    decreases k,
{
    if k == 0 {
        1
    } else {
        16 * pow16((k - 1) as nat)
    }
}

/// A decimal digit or an upper-case hexadecimal letter.
pub open spec fn is_upper_hex(c: char) -> bool {
    let u = c as u32;
    (48 <= u <= 57) || (65 <= u <= 70)
}

// ── lemmas ──────────────────────────────────────────────────────────────────

/// What `find_from` gives where the first match at or after `k` is at `j`.
pub proof fn lemma_find_first(hay: Seq<char>, needle: Seq<char>, k: int, j: int)
    requires
        0 <= k <= j,
        j + needle.len() <= hay.len(),
        hay.subrange(j, j + needle.len()) == needle,
        forall|i: int| k <= i < j ==> #[trigger] hay.subrange(i, i + needle.len()) != needle,
    ensures
        find_from(hay, needle, k) == Some(j),
    decreases j - k,
{
    if k < j {
        lemma_find_first(hay, needle, k + 1, j);
    }
}

/// Where the first character of `needle` does not occur in `hay[k..j]`,
/// the first match at or after `k` is the one at `j`.
pub proof fn lemma_find_first_char(hay: Seq<char>, needle: Seq<char>, k: int, j: int)
    requires
        needle.len() > 0,
        0 <= k <= j,
        j + needle.len() <= hay.len(),
        hay.subrange(j, j + needle.len()) == needle,
        forall|i: int| k <= i < j ==> hay[i] != needle[0],
    ensures
        find_from(hay, needle, k) == Some(j),
{
    assert forall|i: int| k <= i < j implies #[trigger] hay.subrange(i, i + needle.len()) != needle by {
        assert(hay.subrange(i, i + needle.len())[0] == hay[i]);
    }
    lemma_find_first(hay, needle, k, j);
}

/// Where the first character of `needle` does not occur in `hay` from `k`
/// on, nothing is found.
pub proof fn lemma_find_none(hay: Seq<char>, needle: Seq<char>, k: int)
    requires
        needle.len() > 0,
        0 <= k,
        forall|i: int| k <= i < hay.len() ==> hay[i] != needle[0],
    ensures
        find_from(hay, needle, k) is None,
    decreases hay.len() + 1 - k,
{
    if k + needle.len() <= hay.len() {
        assert(hay.subrange(k, k + needle.len())[0] == hay[k]);
        lemma_find_none(hay, needle, k + 1);
    }
}

/// A found position lies where the needle fits.
pub proof fn lemma_find_bounds(hay: Seq<char>, needle: Seq<char>, k: int)
    ensures
        find_from(hay, needle, k) matches Some(j) ==> {
            &&& k <= j
            &&& j + needle.len() <= hay.len()
            &&& hay.subrange(j, j + needle.len()) == needle
            &&& forall|i: int| k <= i < j ==> #[trigger] hay.subrange(i, i + needle.len()) != needle
        },
    decreases hay.len() + 1 - k,
{
    if k >= 0 && k + needle.len() <= hay.len() && hay.subrange(k, k + needle.len()) != needle {
        lemma_find_bounds(hay, needle, k + 1);
    }
}

/// Trimming leaves `s` as it is where it neither starts nor ends with
/// whitespace.
pub proof fn lemma_trim_unchanged(s: Seq<char>)
    requires
        s.len() > 0,
        !is_whitespace(s[0]),
        !is_whitespace(s.last()),
    ensures
        trim(s) == s,
{
}

/// Digits in a prefix write a number no larger than all of them.
pub proof fn lemma_prefix_value_le(s: Seq<char>, k: int, radix: nat)
    requires
        0 <= k <= s.len(),
        radix >= 1,
    ensures
        digits_value(s.take(k), radix) <= digits_value(s, radix),
    decreases s.len() - k,
{
    if k < s.len() {
        lemma_prefix_value_le(s, k + 1, radix);
        let t = s.take(k + 1);
        assert(t.drop_last() =~= s.take(k));
        let v = digits_value(s.take(k), radix);
        assert(v * radix >= v) by (nonlinear_arith)
            requires
                radix >= 1,
        ;
    } else {
        assert(s.take(k) =~= s);
    }
}

/// A digit character and its value.
pub proof fn lemma_digit_char(d: nat, radix: nat)
    requires
        d < radix <= 36,
    ensures
        digit_value(digit_char(d), radix) == Some(d),
        d < 10 ==> 48 <= digit_char(d) as u32 <= 57,
        d < 16 ==> is_upper_hex(digit_char(d)),
{
}

/// `decimal(n)` is what std prints, and what std's parser reads back as `n`.
pub proof fn lemma_decimal(n: nat)
    ensures
        decimal(n).len() > 0,
        all_digits(decimal(n), 10),
        digits_value(decimal(n), 10) == n,
        forall|i: int| 0 <= i < decimal(n).len() ==> 48 <= (#[trigger] decimal(n)[i]) as u32 <= 57,
    decreases n,
{
    if n < 10 {
        lemma_digit_char(n, 10);
        let e: Seq<char> = seq![];
        assert(decimal(n).drop_last() =~= e);
        assert(digits_value(e, 10) == 0);
        assert(digits_value(decimal(n), 10) == digits_value(e, 10) * 10 + n);
    } else {
        lemma_decimal(n / 10);
        lemma_digit_char(n % 10, 10);
        assert(decimal(n).drop_last() =~= decimal(n / 10));
        assert(decimal(n).last() == digit_char(n % 10));
        assert(digits_value(decimal(n), 10) == (n / 10) * 10 + n % 10);
    }
}

/// Parsing the decimal digits of a `u32` gives it back.
pub proof fn lemma_decimal_parse(n: u32)
    ensures
        parse_u32_radix(decimal(n as nat), 10) == Some(n),
{
    lemma_decimal(n as nat);
    let s = decimal(n as nat);
    assert(48 <= s[0] as u32 <= 57);
}

/// `hex_digits(v, k)` has `k` upper-case hexadecimal digits that write `v`
/// where `v < 16^k`.
pub proof fn lemma_hex_digits(v: nat, k: nat)
    requires
        v < pow16(k),
    ensures
        hex_digits(v, k).len() == k,
        all_digits(hex_digits(v, k), 16),
        digits_value(hex_digits(v, k), 16) == v,
        forall|i: int| 0 <= i < k ==> is_upper_hex(#[trigger] hex_digits(v, k)[i]),
    decreases k,
{
    if k > 0 {
        let p = pow16((k - 1) as nat);
        assert(v / 16 < p);
        lemma_hex_digits(v / 16, (k - 1) as nat);
        lemma_digit_char(v % 16, 16);
        assert(hex_digits(v, k).drop_last() =~= hex_digits(v / 16, (k - 1) as nat));
    } else {
        assert(v == 0);
    }
}

/// Eight hexadecimal digits hold any `u32`.
pub proof fn lemma_pow16_8()
    ensures
        pow16(8) == 0x1_0000_0000,
{
    reveal_with_fuel(pow16, 9);
}

// ── executable helpers ──────────────────────────────────────────────────────

/// Copies the characters of `s` into a vector.
pub fn chars_of(s: &str) -> (res: Vec<char>)
    ensures
        res@ == s@,
{
    let mut res: Vec<char> = Vec::new();
    for c in it: s.chars()
        invariant
            res@ == it.seq().take(it.index() as int),
            it.seq() == s@,
    {
        res.push(c);
    }
    res
}

/// Appends one character to a `String` (std's `String::push`).
#[verifier::external_body]
pub(crate) fn push_char(s: &mut String, c: char)
    ensures
        final(s)@ == old(s)@.push(c),
{
    s.push(c);
}

/// Appends the characters of `v` to `out`.
pub fn push_chars(out: &mut String, v: &Vec<char>)
    ensures
        final(out)@ == old(out)@ + v@,
{
    let ghost start = out@;
    let mut i: usize = 0;
    while i < v.len()
        invariant
            i <= v.len(),
            out@ == start + v@.take(i as int),
        decreases v.len() - i,
    {
        assert(v@.take(i as int + 1) =~= v@.take(i as int).push(v@[i as int]));
        push_char(out, v[i]);
        i = i + 1;
    }
    assert(v@.take(i as int) =~= v@);
}

/// A `String` holding the characters of `v`.
pub fn string_of(v: &Vec<char>) -> (res: String)
    ensures
        res@ == v@,
{
    let mut res = String::new();
    push_chars(&mut res, v);
    assert(res@ =~= v@);
    res
}

/// `char::is_whitespace`.
pub fn is_whitespace_exec(c: char) -> (b: bool)
    ensures
        b == is_whitespace(c),
{
    let u = c as u32;
    (9 <= u && u <= 13) || u == 32 || u == 0x85 || u == 0xA0 || u == 0x1680 || (0x2000 <= u && u
        <= 0x200A) || u == 0x2028 || u == 0x2029 || u == 0x202F || u == 0x205F || u == 0x3000
}

/// The characters `v[a..b]`.
pub fn subvec(v: &Vec<char>, a: usize, b: usize) -> (res: Vec<char>)
    requires
        a <= b <= v.len(),
    ensures
        res@ == v@.subrange(a as int, b as int),
{
    let mut res: Vec<char> = Vec::new();
    let mut i = a;
    while i < b
        invariant
            a <= i <= b,
            b <= v.len(),
            res@ == v@.subrange(a as int, i as int),
        decreases b - i,
    {
        res.push(v[i]);
        i = i + 1;
        assert(res@ =~= v@.subrange(a as int, i as int));
    }
    res
}

/// `str::trim`.
pub fn trim_exec(v: &Vec<char>) -> (res: Vec<char>)
    ensures
        res@ == trim(v@),
{
    let n = v.len();
    let mut a: usize = 0;
    assert(v@.skip(0) =~= v@);
    while a < n && is_whitespace_exec(v[a])
        invariant
            a <= n,
            n == v.len(),
            trim_start(v@) == trim_start(v@.skip(a as int)),
        decreases n - a,
    {
        assert(v@.skip(a as int).drop_first() =~= v@.skip(a as int + 1));
        a = a + 1;
    }
    let ghost t = v@.skip(a as int);
    assert(trim_start(t) == t);
    let mut b: usize = n;
    while b > a && is_whitespace_exec(v[b - 1])
        invariant
            a <= b <= n,
            n == v.len(),
            trim_end(t) == trim_end(v@.subrange(a as int, b as int)),
        decreases b,
    {
        assert(v@.subrange(a as int, b as int).drop_last() =~= v@.subrange(a as int, b - 1));
        b = b - 1;
    }
    assert(t =~= v@.subrange(a as int, n as int));
    subvec(v, a, b)
}

/// `str::starts_with`.
pub fn starts_with_exec(s: &Vec<char>, prefix: &Vec<char>) -> (b: bool)
    ensures
        b == starts_with(s@, prefix@),
{
    if prefix.len() > s.len() {
        return false;
    }
    matches_at(s, prefix, 0)
}

/// Whether `needle` occurs in `hay` at position `i`.
pub fn matches_at(hay: &Vec<char>, needle: &Vec<char>, i: usize) -> (b: bool)
    requires
        i + needle.len() <= hay.len(),
    ensures
        b == (hay@.subrange(i as int, i + needle.len()) == needle@),
{
    let m = needle.len();
    let mut k: usize = 0;
    while k < m
        invariant
            k <= m,
            m == needle.len(),
            i + m <= hay.len(),
            forall|j: int| 0 <= j < k ==> hay@[i + j] == needle@[j],
        decreases m - k,
    {
        if hay[i + k] != needle[k] {
            assert(hay@.subrange(i as int, i + m)[k as int] != needle@[k as int]);
            return false;
        }
        k = k + 1;
    }
    assert(hay@.subrange(i as int, i + m) =~= needle@);
    true
}

/// `str::find`: the first position where `needle` occurs in `hay`.
pub fn find_exec(hay: &Vec<char>, needle: &Vec<char>) -> (res: Option<usize>)
    ensures
        match res {
            Some(i) => find(hay@, needle@) == Some(i as int),
            None => find(hay@, needle@) is None,
        },
{
    if needle.len() > hay.len() {
        return None;
    }
    if needle.len() == 0 {
        assert(hay@.subrange(0, 0) =~= needle@);
        return Some(0);
    }
    let last = hay.len() - needle.len();
    let mut i: usize = 0;
    while i <= last
        invariant
            i <= last + 1,
            last + needle.len() == hay.len(),
            needle.len() > 0,
            find(hay@, needle@) == find_from(hay@, needle@, i as int),
        decreases last + 1 - i,
    {
        if matches_at(hay, needle, i) {
            return Some(i);
        }
        i = i + 1;
    }
    None
}

/// `char::to_digit(radix)`.
pub fn digit_value_exec(c: char, radix: u32) -> (res: Option<u32>)
    requires
        2 <= radix <= 36,
    ensures
        match res {
            Some(v) => digit_value(c, radix as nat) == Some(v as nat),
            None => digit_value(c, radix as nat) is None,
        },
{
    let u = c as u32;
    let v: u32 = if 48 <= u && u <= 57 {
        u - 48
    } else if 97 <= u && u <= 122 {
        u - 97 + 10
    } else if 65 <= u && u <= 90 {
        u - 65 + 10
    } else {
        36
    };
    if v < radix {
        Some(v)
    } else {
        None
    }
}

/// `u32::from_str_radix(s, radix).ok()`.
pub fn parse_u32_radix_exec(s: &Vec<char>, radix: u32) -> (res: Option<u32>)
    requires
        2 <= radix <= 36,
    ensures
        res == parse_u32_radix(s@, radix as nat),
{
    let len = s.len();
    if len == 0 {
        return None;
    }
    let first = s[0];
    if len == 1 && (first == '+' || first == '-') {
        return None;
    }
    let start: usize = if first == '+' {
        1
    } else {
        0
    };
    let ghost d = if first == '+' {
        s@.drop_first()
    } else {
        s@
    };
    assert(d =~= s@.skip(start as int));
    let mut acc: u64 = 0;
    let mut i = start;
    assert(d.take(0) =~= seq![]);
    while i < len
        invariant
            start <= i <= len,
            len == s.len(),
            start <= 1,
            d == s@.skip(start as int),
            d == (if s@[0] == '+' {
                s@.drop_first()
            } else {
                s@
            }),
            s@.len() > 0,
            !(s@.len() == 1 && (s@[0] == '+' || s@[0] == '-')),
            acc == digits_value(d.take(i - start), radix as nat),
            all_digits(d.take(i - start), radix as nat),
            acc <= u32::MAX,
            2 <= radix <= 36,
        decreases len - i,
    {
        let k = i - start;
        assert(d[k as int] == s@[i as int]);
        match digit_value_exec(s[i], radix) {
            None => {
                assert(digit_value(d[k as int], radix as nat) is None);
                assert(!all_digits(d, radix as nat));
                return None;
            },
            Some(v) => {
                let ghost t = d.take(k + 1);
                assert(t.drop_last() =~= d.take(k as int));
                assert(t.last() == s@[i as int]);
                assert(acc * (radix as u64) <= 0xffff_ffff * 36) by (nonlinear_arith)
                    requires
                        acc <= 0xffff_ffff,
                        radix <= 36,
                ;
                let next = acc * (radix as u64) + (v as u64);
                assert(next == digits_value(t, radix as nat));
                assert(all_digits(t, radix as nat)) by {
                    assert forall|j: int| 0 <= j < t.len() implies (#[trigger] digit_value(
                        t[j],
                        radix as nat,
                    )) is Some by {
                        if j < k {
                            assert(t[j] == d.take(k as int)[j]);
                        }
                    }
                }
                if next > 0xffff_ffff {
                    proof {
                        if all_digits(d, radix as nat) {
                            lemma_prefix_value_le(d, k + 1, radix as nat);
                            assert(digits_value(d, radix as nat) > u32::MAX);
                        }
                    }
                    return None;
                }
                acc = next;
                i = i + 1;
            },
        }
    }
    assert(d.take(len - start) =~= d);
    Some(acc as u32)
}

/// The character of digit `d` (`0`–`9`, then upper-case letters).
pub fn digit_char_exec(d: u32) -> (c: char)
    requires
        d < 36,
    ensures
        c == digit_char(d as nat),
{
    if d < 10 {
        ((48 + d) as u8) as char
    } else {
        ((55 + d) as u8) as char
    }
}

/// Appends `format!("{}", n)` to `out`.
pub fn push_decimal(out: &mut String, n: u64)
    ensures
        final(out)@ == old(out)@ + decimal(n as nat),
    decreases n,
{
    if n < 10 {
        push_char(out, digit_char_exec(n as u32));
        assert(old(out)@.push(digit_char(n as nat)) =~= old(out)@ + decimal(n as nat));
    } else {
        push_decimal(out, n / 10);
        push_char(out, digit_char_exec((n % 10) as u32));
        assert(old(out)@ + decimal(n as nat / 10) + seq![digit_char(n as nat % 10)] =~= old(out)@
            + decimal(n as nat));
    }
}

/// Appends the last `k` hexadecimal digits of `v` to `out`.
pub fn push_hex_digits(out: &mut String, v: u32, k: u32)
    ensures
        final(out)@ == old(out)@ + hex_digits(v as nat, k as nat),
    decreases k,
{
    if k == 0 {
        assert(old(out)@ + hex_digits(v as nat, 0) =~= old(out)@);
    } else {
        push_hex_digits(out, v / 16, k - 1);
        push_char(out, digit_char_exec(v % 16));
        assert(old(out)@ + hex_digits(v as nat / 16, (k - 1) as nat) + seq![
            digit_char(v as nat % 16),
        ] =~= old(out)@ + hex_digits(v as nat, k as nat));
    }
}

/// Appends a string literal (or any `&str`) to `out`.
pub fn push_str(out: &mut String, s: &str)
    ensures
        final(out)@ == old(out)@ + s@,
{
    out.append(s);
}

} // verus!
