//! Small tools on text: comparison, joining, and the digits of a number.

use vstd::prelude::*;
use vstd::string::{StrSliceExecFns, StringExecFns};

verus! {

/// The digits of every base up to sixteen, by their value.
pub const DIGITS: &'static str = "0123456789abcdef";

/// A letter from `A` to `Z` becomes its small form; any other character stays
/// as it is.
pub open spec fn small(c: char) -> char {
    if 'A' <= c && c <= 'Z' {
        (c as u8 + 32) as char
    } else {
        c
    }
}

/// Whether two texts differ at most in the case of the letters `A` to `Z`.
pub open spec fn same_but_case(a: Seq<char>, b: Seq<char>) -> bool {
    &&& a.len() == b.len()
    &&& forall|i: int| 0 <= i < a.len() ==> small(#[trigger] a[i]) == small(b[i])
}

/// The digits of `n` in the given base, most significant first and without
/// leading zeros.
pub open spec fn digits(n: nat, base: nat) -> Seq<char>
    decreases n,
{
    if base < 2 || n < base {
        seq![DIGITS@[n as int]]
    } else {
        proof {
            vstd::arithmetic::div_mod::lemma_div_decreases(n as int, base as int);
        }
        digits(n / base, base).push(DIGITS@[(n % base) as int])
    }
}

/// The last `width` digits of `n` in the given base, with leading zeros.
pub open spec fn padded(n: nat, base: nat, width: nat) -> Seq<char>
    decreases width,
{
    if width == 0 {
        Seq::empty()
    } else {
        padded(n / base, base, (width - 1) as nat).push(DIGITS@[(n % base) as int])
    }
}

/// Whether `n` has at most `width` digits in the given base.
pub open spec fn fits(n: nat, base: nat, width: nat) -> bool
    decreases width,
{
    if width == 0 {
        n == 0
    } else {
        fits(n / base, base, (width - 1) as nat)
    }
}

/// Whether two texts first differ at `k`, where `a` has the lesser character.
pub open spec fn differ_at(a: Seq<char>, b: Seq<char>, k: int) -> bool {
    &&& 0 <= k < a.len()
    &&& k < b.len()
    &&& a.take(k) == b.take(k)
    &&& a[k] < b[k]
}

/// Whether `a` comes before `b`: it is shorter, or as long and has the lesser
/// character where the two first differ. Numbers are in this order when they
/// are written out.
pub open spec fn precedes(a: Seq<char>, b: Seq<char>) -> bool {
    a.len() < b.len() || (a.len() == b.len() && exists|k: int| differ_at(a, b, k))
}

/// Whether one text comes before another or is the same, byte by byte.
pub open spec fn bytes_le(a: Seq<u8>, b: Seq<u8>) -> bool
    decreases a.len(),
{
    if a.len() == 0 {
        true
    } else if b.len() == 0 {
        false
    } else if a[0] != b[0] {
        a[0] < b[0]
    } else {
        bytes_le(a.drop_first(), b.drop_first())
    }
}

/// The texts of a list of strings.
pub open spec fn texts(strings: Seq<String>) -> Seq<Seq<char>> {
    strings.map_values(|s: String| s@)
}

/// Whether two texts are equal.
pub fn same_text(a: &str, b: &str) -> (r: bool)
    ensures
        r == (a@ == b@),
{
    a.to_owned() == b.to_owned()
}

/// The characters of a text.
pub fn characters(s: &str) -> (r: Vec<char>)
    ensures
        r@ == s@,
{
    let mut out: Vec<char> = Vec::new();
    for c in it: s.chars()
        invariant
            out@ == s@.take(it.index()),
            it.seq() == s@,
    {
        out.push(c);
    }
    out
}

/// Makes a letter from `A` to `Z` small.
fn made_small(c: char) -> (r: char)
    ensures
        r == small(c),
{
    if 'A' <= c && c <= 'Z' {
        (c as u8 + 32) as char
    } else {
        c
    }
}

/// Whether two texts differ at most in the case of the letters `A` to `Z`.
pub fn equal_but_case(a: &str, b: &str) -> (r: bool)
    ensures
        r == same_but_case(a@, b@),
{
    let x = characters(a);
    let y = characters(b);
    if x.len() != y.len() {
        return false;
    }
    let n: usize = x.len();
    for i in 0..n
        invariant
            x@ == a@,
            y@ == b@,
            n == x.len(),
            n == y.len(),
            forall|k: int| 0 <= k < i ==> small(#[trigger] a@[k]) == small(b@[k]),
    {
        if made_small(x[i]) != made_small(y[i]) {
            assert(small(a@[i as int]) != small(b@[i as int]));
            return false;
        }
    }
    true
}

/// Whether the bytes of one text come before those of another or are the same.
pub fn comes_before(x: &Vec<u8>, y: &Vec<u8>) -> (r: bool)
    ensures
        r == bytes_le(x@, y@),
{
    let mut i: usize = 0;
    assert(x@.skip(0) =~= x@);
    assert(y@.skip(0) =~= y@);
    while i < x.len() && i < y.len() && x[i] == y[i]
        invariant
            i <= x.len(),
            i <= y.len(),
            bytes_le(x@, y@) == bytes_le(x@.skip(i as int), y@.skip(i as int)),
        decreases x.len() - i,
    {
        assert(x@.skip(i as int).drop_first() =~= x@.skip(i + 1));
        assert(y@.skip(i as int).drop_first() =~= y@.skip(i + 1));
        i = i + 1;
    }
    if i == x.len() {
        true
    } else if i == y.len() {
        false
    } else {
        x[i] < y[i]
    }
}

/// One text after the other.
pub fn joined(a: &str, b: &str) -> (r: String)
    ensures
        r@ == a@ + b@,
{
    let mut out = a.to_owned();
    out.append(b);
    out
}

/// Writes `n` out in the given base.
pub fn number(n: u64, base: u64) -> (r: String)
    requires
        2 <= base <= 16,
    ensures
        r@ == digits(n as nat, base as nat),
    decreases n,
{
    proof {
        reveal_strlit("0123456789abcdef");
    }
    if n < base {
        let d: usize = n as usize;
        let out = DIGITS.substring_char(d, d + 1).to_owned();
        assert(out@ =~= seq![DIGITS@[n as int]]);
        out
    } else {
        proof {
            vstd::arithmetic::div_mod::lemma_div_decreases(n as int, base as int);
        }
        let mut out = number(n / base, base);
        let d: usize = (n % base) as usize;
        let last = DIGITS.substring_char(d, d + 1);
        out.append(last);
        assert(out@ =~= digits((n / base) as nat, base as nat).push(
            DIGITS@[(n % base) as int],
        ));
        out
    }
}

/// Writes the last `width` digits of `n` out in the given base.
pub fn padded_number(n: u64, base: u64, width: usize) -> (r: String)
    requires
        2 <= base <= 16,
    ensures
        r@ == padded(n as nat, base as nat, width as nat),
    decreases width,
{
    if width == 0 {
        let none = "".to_owned();
        proof {
            reveal_strlit("");
        }
        assert(none@ =~= Seq::empty());
        return none;
    }
    proof {
        reveal_strlit("0123456789abcdef");
    }
    let mut out = padded_number(n / base, base, width - 1);
    let d: usize = (n % base) as usize;
    let last = DIGITS.substring_char(d, d + 1);
    out.append(last);
    assert(out@ =~= padded((n / base) as nat, base as nat, (width - 1) as nat).push(
        DIGITS@[(n % base) as int],
    ));
    out
}

/// A digit stands for one value only.
proof fn digit_values_differ(a: nat, b: nat)
    requires
        a < 16,
        b < 16,
        DIGITS@[a as int] == DIGITS@[b as int],
    ensures
        a == b,
{
    reveal_strlit("0123456789abcdef");
}

/// Different numbers are written differently.
pub proof fn digits_tell_numbers_apart(a: nat, b: nat, base: nat)
    requires
        2 <= base <= 16,
        digits(a, base) == digits(b, base),
    ensures
        a == b,
    decreases a,
{
    let x = digits(a, base);
    let y = digits(b, base);
    assert(x.last() == y.last());
    assert(x.drop_last() == y.drop_last());
    digits_are_there(a, base);
    digits_are_there(b, base);
    if a < base && b < base {
        digit_values_differ(a, b);
    } else if a >= base && b >= base {
        vstd::arithmetic::div_mod::lemma_div_decreases(a as int, base as int);
        assert(x.drop_last() =~= digits(a / base, base));
        assert(y.drop_last() =~= digits(b / base, base));
        digits_tell_numbers_apart(a / base, b / base, base);
        vstd::arithmetic::div_mod::lemma_mod_bound(a as int, base as int);
        vstd::arithmetic::div_mod::lemma_mod_bound(b as int, base as int);
        digit_values_differ(a % base, b % base);
        vstd::arithmetic::div_mod::lemma_fundamental_div_mod(a as int, base as int);
        vstd::arithmetic::div_mod::lemma_fundamental_div_mod(b as int, base as int);
    } else if a >= base {
        digits_are_there(a / base, base);
        assert(x.len() > y.len());
    } else {
        digits_are_there(b / base, base);
        assert(y.len() > x.len());
    }
}

/// Every number has at least one digit.
proof fn digits_are_there(n: nat, base: nat)
    requires
        2 <= base <= 16,
    ensures
        digits(n, base).len() >= 1,
{
}

/// Digits come in the order of their values.
proof fn digit_values_are_in_order(a: nat, b: nat)
    requires
        a < b < 16,
    ensures
        DIGITS@[a as int] < DIGITS@[b as int],
{
    reveal_strlit("0123456789abcdef");
}

/// Of two numbers, the lesser has the lesser quotient, or the same quotient and
/// the lesser remainder.
proof fn division_keeps_order(a: nat, b: nat, base: nat)
    requires
        base > 0,
        a < b,
    ensures
        a / base < b / base || (a / base == b / base && a % base < b % base),
        a % base < base,
        b % base < base,
{
    vstd::arithmetic::div_mod::lemma_div_is_ordered(a as int, b as int, base as int);
    vstd::arithmetic::div_mod::lemma_fundamental_div_mod(a as int, base as int);
    vstd::arithmetic::div_mod::lemma_fundamental_div_mod(b as int, base as int);
    vstd::arithmetic::div_mod::lemma_mod_bound(a as int, base as int);
    vstd::arithmetic::div_mod::lemma_mod_bound(b as int, base as int);
}

/// A text that differs from another keeps doing so with more behind both.
proof fn differences_stay(a: Seq<char>, b: Seq<char>, c: char, d: char)
    requires
        a.len() == b.len(),
        exists|k: int| differ_at(a, b, k),
    ensures
        exists|k: int| differ_at(a.push(c), b.push(d), k),
{
    let k = choose|k: int| differ_at(a, b, k);
    assert(a.push(c).take(k) =~= a.take(k));
    assert(b.push(d).take(k) =~= b.take(k));
    assert(differ_at(a.push(c), b.push(d), k));
}

/// In a fixed number of digits, numbers are written as long as each other and
/// in their order.
pub proof fn padded_keeps_order(a: nat, b: nat, base: nat, width: nat)
    requires
        2 <= base <= 16,
        fits(a, base, width),
        fits(b, base, width),
    ensures
        padded(a, base, width).len() == width,
        padded(b, base, width).len() == width,
        a < b ==> exists|k: int| differ_at(padded(a, base, width), padded(b, base, width), k),
    decreases width,
{
    if width > 0 {
        let less = (width - 1) as nat;
        let x = padded(a / base, base, less);
        let y = padded(b / base, base, less);
        let c = DIGITS@[(a % base) as int];
        let d = DIGITS@[(b % base) as int];
        padded_keeps_order(a / base, b / base, base, less);
        if a < b {
            division_keeps_order(a, b, base);
            if a / base < b / base {
                differences_stay(x, y, c, d);
            } else {
                digit_values_are_in_order(a % base, b % base);
                assert(x.push(c).take(less as int) =~= x);
                assert(y.push(d).take(less as int) =~= y);
                assert(differ_at(x.push(c), y.push(d), less as int));
            }
        }
    }
}

/// In a fixed number of digits that they fit in, different numbers are written
/// differently.
pub proof fn padded_tells_numbers_apart(a: nat, b: nat, base: nat, width: nat)
    requires
        2 <= base <= 16,
        fits(a, base, width),
        fits(b, base, width),
        padded(a, base, width) == padded(b, base, width),
    ensures
        a == b,
{
    padded_keeps_order(a, b, base, width);
    padded_keeps_order(b, a, base, width);
}

/// Numbers that are written out come in their order.
pub proof fn digits_keep_order(a: nat, b: nat, base: nat)
    requires
        2 <= base <= 16,
        a < b,
    ensures
        precedes(digits(a, base), digits(b, base)),
    decreases b,
{
    digits_are_there(a, base);
    digits_are_there(b, base);
    if b < base {
        digit_values_are_in_order(a, b);
        assert(digits(a, base).take(0) =~= digits(b, base).take(0));
        assert(differ_at(digits(a, base), digits(b, base), 0));
    } else if a < base {
        digits_are_there(b / base, base);
    } else {
        let x = digits(a / base, base);
        let y = digits(b / base, base);
        let c = DIGITS@[(a % base) as int];
        let d = DIGITS@[(b % base) as int];
        vstd::arithmetic::div_mod::lemma_div_decreases(b as int, base as int);
        division_keeps_order(a, b, base);
        if a / base < b / base {
            digits_keep_order(a / base, b / base, base);
            if x.len() == y.len() {
                differences_stay(x, y, c, d);
            }
        } else {
            digit_values_are_in_order(a % base, b % base);
            assert(x.push(c).take(x.len() as int) =~= x);
            assert(y.push(d).take(x.len() as int) =~= x);
            assert(differ_at(x.push(c), y.push(d), x.len() as int));
        }
    }
}

/// Of two texts, one comes before the other or is the same.
pub proof fn bytes_le_total(a: Seq<u8>, b: Seq<u8>)
    ensures
        bytes_le(a, b) || bytes_le(b, a),
    decreases a.len(),
{
    if a.len() > 0 && b.len() > 0 && a[0] == b[0] {
        bytes_le_total(a.drop_first(), b.drop_first());
    }
}

/// What comes before a text comes before those behind it.
pub proof fn bytes_le_transitive(a: Seq<u8>, b: Seq<u8>, c: Seq<u8>)
    requires
        bytes_le(a, b),
        bytes_le(b, c),
    ensures
        bytes_le(a, c),
    decreases a.len(),
{
    if a.len() > 0 && b.len() > 0 && c.len() > 0 && a[0] == b[0] && b[0] == c[0] {
        bytes_le_transitive(a.drop_first(), b.drop_first(), c.drop_first());
    }
}

/// What making a letter small does to two characters: they become the same only
/// if they are, or if they are the two forms of one letter from `A` to `Z`.
proof fn small_joins_the_two_forms(x: char, y: char)
    ensures
        small(x) == small(y) <==> x == y || (65 <= x as u32 <= 90 && y as u32 == x as u32 + 32) || (
        65 <= y as u32 <= 90 && x as u32 == y as u32 + 32),
        !(65 <= small(x) as u32 <= 90),
        !(65 <= x as u32 <= 90) ==> small(x) == x,
{
}

/// Texts differ at most in case if they are as long, and wherever they differ one
/// has a letter from `A` to `Z` and the other its small form.
pub proof fn only_the_case_of_letters_is_ignored(a: Seq<char>, b: Seq<char>)
    ensures
        same_but_case(a, b) <==> a.len() == b.len() && forall|i: int|
            0 <= i < a.len() ==> {
                let x = #[trigger] a[i];
                let y = b[i];
                ||| x == y
                ||| 65 <= x as u32 <= 90 && y as u32 == x as u32 + 32
                ||| 65 <= y as u32 <= 90 && x as u32 == y as u32 + 32
            },
{
    assert forall|i: int| 0 <= i < a.len() && i < b.len() implies (small(#[trigger] a[i]) == small(
        b[i],
    ) <==> a[i] == b[i] || (65 <= a[i] as u32 <= 90 && b[i] as u32 == a[i] as u32 + 32) || (65
        <= b[i] as u32 <= 90 && a[i] as u32 == b[i] as u32 + 32)) by {
        small_joins_the_two_forms(a[i], b[i]);
    }
}

/// A number is written as one digit if it is below the base, and otherwise as what
/// is left without its last digit, and that digit.
pub proof fn numbers_are_written_digit_by_digit(a: nat, b: nat, base: nat)
    requires
        2 <= base <= 16,
        b < base,
    ensures
        digits(b, base) == seq!["0123456789abcdef"@[b as int]],
        a > 0 ==> digits(a * base + b, base) == digits(a, base).push(
            "0123456789abcdef"@[b as int],
        ),
{
    if a > 0 {
        let n = a * base + b;
        assert(n >= base) by (nonlinear_arith)
            requires
                n == a * base + b,
                a > 0,
                base > 0,
        ;
        vstd::arithmetic::div_mod::lemma_fundamental_div_mod_converse(
            n as int,
            base as int,
            a as int,
            b as int,
        );
    }
}

/// A fixed number of digits is the number as it is written, filled up with zeros
/// at the front.
pub proof fn padding_is_leading_zeros(n: nat, base: nat, width: nat)
    requires
        2 <= base <= 16,
        digits(n, base).len() <= width,
    ensures
        padded(n, base, width) == Seq::new((width - digits(n, base).len()) as nat, |i: int| '0')
            + digits(n, base),
    decreases width,
{
    reveal_strlit("0123456789abcdef");
    digits_are_there(n, base);
    let less = (width - 1) as nat;
    if n < base {
        zero_is_padded_with_zeros(base, less);
        vstd::arithmetic::div_mod::lemma_basic_div(n as int, base as int);
        vstd::arithmetic::div_mod::lemma_small_mod(n, base);
        assert(padded(n, base, width) =~= Seq::new(
            (width - digits(n, base).len()) as nat,
            |i: int| '0',
        ) + digits(n, base));
    } else {
        vstd::arithmetic::div_mod::lemma_div_decreases(n as int, base as int);
        padding_is_leading_zeros(n / base, base, less);
        assert(padded(n, base, width) =~= Seq::new(
            (width - digits(n, base).len()) as nat,
            |i: int| '0',
        ) + digits(n, base));
    }
}

proof fn zero_is_padded_with_zeros(base: nat, width: nat)
    requires
        2 <= base <= 16,
    ensures
        padded(0, base, width) == Seq::new(width, |i: int| '0'),
    decreases width,
{
    reveal_strlit("0123456789abcdef");
    if width > 0 {
        zero_is_padded_with_zeros(base, (width - 1) as nat);
        vstd::arithmetic::div_mod::lemma_basic_div(0, base as int);
        vstd::arithmetic::div_mod::lemma_small_mod(0, base);
    }
    assert(padded(0, base, width) =~= Seq::new(width, |i: int| '0'));
}

/// The order of texts is that of a dictionary: one comes first if it is the start
/// of the other, or if it has the lesser byte where the two first differ.
pub proof fn bytes_are_in_dictionary_order(a: Seq<u8>, b: Seq<u8>)
    ensures
        a.is_prefix_of(b) ==> bytes_le(a, b),
        b.is_prefix_of(a) && a != b ==> !bytes_le(a, b),
        forall|k: int|
            0 <= k < a.len() && k < b.len() && a.take(k) == b.take(k) && #[trigger] a[k] != b[k]
                ==> (bytes_le(a, b) <==> a[k] < b[k]),
    decreases a.len(),
{
    if a.len() > 0 && b.len() > 0 {
        let x = a.drop_first();
        let y = b.drop_first();
        bytes_are_in_dictionary_order(x, y);
        if a.is_prefix_of(b) {
            assert(a[0] == b[0]);
            assert(x =~= y.take(x.len() as int));
        }
        if b.is_prefix_of(a) {
            assert(a[0] == b[0]);
            assert(y =~= x.take(y.len() as int));
            assert(a =~= seq![a[0]] + x);
            assert(b =~= seq![b[0]] + y);
        }
        assert forall|k: int|
            0 <= k < a.len() && k < b.len() && a.take(k) == b.take(k) && #[trigger] a[k]
                != b[k] implies (bytes_le(a, b) <==> a[k] < b[k]) by {
            if k > 0 {
                assert(a.take(k)[0] == b.take(k)[0]);
                assert(x.take(k - 1) =~= a.take(k).drop_first());
                assert(y.take(k - 1) =~= b.take(k).drop_first());
                assert(x[k - 1] == a[k] && y[k - 1] == b[k]);
            }
        }
    } else if b.is_prefix_of(a) && a.len() == 0 {
        assert(a =~= b);
    }
}

/// The texts of a list are those of its strings, each in its place.
pub proof fn texts_are_those_of_the_strings(strings: Seq<String>)
    ensures
        texts(strings).len() == strings.len(),
        forall|i: int| 0 <= i < strings.len() ==> #[trigger] texts(strings)[i] == strings[i]@,
{
}

} // verus!
