//! Ids of clips and profiles.

use crate::text::{
    differ_at, digits, digits_keep_order, digits_tell_numbers_apart, fits, joined, number, padded,
    padded_keeps_order, padded_number, padded_tells_numbers_apart, padding_is_leading_zeros,
    precedes,
};
use vstd::prelude::*;

verus! {

/// How many digits of an id tell the time: as many as the largest time has.
pub const TIME_WIDTH: usize = 16;

/// The id made at a time, in microseconds, as the nth of its run: both in
/// hexadecimal, one behind the other, the time in a fixed number of digits.
pub open spec fn id_text(micros: nat, n: nat) -> Seq<char> {
    padded(micros, 16, TIME_WIDTH as nat) + digits(n, 16)
}

/// An id: monotonic, collision-free, and short enough to read in the
/// configuration file. `micros` is the time in microseconds, and `n` counts the
/// ids that were made before.
pub fn uid(micros: u64, n: u64) -> (r: String)
    ensures
        r@ == id_text(micros as nat, n as nat),
{
    let time = padded_number(micros, 16, TIME_WIDTH);
    let count = number(n, 16);
    joined(time.as_str(), count.as_str())
}

/// Every time fits in the digits that are set aside for it.
proof fn times_fit(t: u64)
    ensures
        fits(t as nat, 16, TIME_WIDTH as nat),
{
    reveal_with_fuel(fits, 17);
}

/// Ids do not collide: two are equal only if they were made at the same time
/// with the same count.
pub proof fn ids_do_not_collide(t: u64, n: u64, u: u64, m: u64)
    ensures
        id_text(t as nat, n as nat) == id_text(u as nat, m as nat) <==> t == u && n == m,
{
    if id_text(t as nat, n as nat) == id_text(u as nat, m as nat) {
        let a = padded(t as nat, 16, TIME_WIDTH as nat);
        let b = padded(u as nat, 16, TIME_WIDTH as nat);
        times_fit(t);
        times_fit(u);
        padded_keeps_order(t as nat, u as nat, 16, TIME_WIDTH as nat);
        assert(a =~= id_text(t as nat, n as nat).take(TIME_WIDTH as int));
        assert(b =~= id_text(u as nat, m as nat).take(TIME_WIDTH as int));
        assert(digits(n as nat, 16) =~= id_text(t as nat, n as nat).skip(TIME_WIDTH as int));
        assert(digits(m as nat, 16) =~= id_text(u as nat, m as nat).skip(TIME_WIDTH as int));
        padded_tells_numbers_apart(t as nat, u as nat, 16, TIME_WIDTH as nat);
        digits_tell_numbers_apart(n as nat, m as nat, 16);
    }
}

/// Ids are monotonic: while the clock does not go back, each id of a run comes
/// before those made after it, in the order of [`precedes`].
pub proof fn ids_are_monotonic(t: u64, n: u64, u: u64, m: u64)
    requires
        t <= u,
        n < m,
    ensures
        precedes(id_text(t as nat, n as nat), id_text(u as nat, m as nat)),
{
    let a = padded(t as nat, 16, TIME_WIDTH as nat);
    let b = padded(u as nat, 16, TIME_WIDTH as nat);
    let c = digits(n as nat, 16);
    let d = digits(m as nat, 16);
    times_fit(t);
    times_fit(u);
    padded_keeps_order(t as nat, u as nat, 16, TIME_WIDTH as nat);
    digits_keep_order(n as nat, m as nat, 16);
    if c.len() == d.len() {
        if t < u {
            let k = choose|k: int| differ_at(a, b, k);
            assert((a + c).take(k) =~= a.take(k));
            assert((b + d).take(k) =~= b.take(k));
            assert(differ_at(a + c, b + d, k));
        } else {
            let k = choose|k: int| differ_at(c, d, k);
            assert((a + c).take(a.len() + k) =~= a + c.take(k));
            assert((b + d).take(a.len() + k) =~= b + d.take(k));
            assert(differ_at(a + c, b + d, a.len() + k));
        }
    }
}

/// An id is the time in sixteen hexadecimal digits, and behind it the count in as
/// many as it has.
pub proof fn an_id_is_the_time_and_the_count(t: u64, n: u64)
    ensures
        id_text(t as nat, n as nat).len() == 16 + digits(n as nat, 16).len(),
        id_text(t as nat, n as nat).skip(16) == digits(n as nat, 16),
        digits(t as nat, 16).len() <= 16,
        id_text(t as nat, n as nat).take(16) == Seq::new(
            (16 - digits(t as nat, 16).len()) as nat,
            |i: int| '0',
        ) + digits(t as nat, 16),
{
    times_fit(t);
    padded_keeps_order(t as nat, t as nat, 16, TIME_WIDTH as nat);
    what_fits_has_as_many_digits(t as nat, 16, TIME_WIDTH as nat);
    padding_is_leading_zeros(t as nat, 16, TIME_WIDTH as nat);
    let id = id_text(t as nat, n as nat);
    assert(id.skip(16) =~= digits(n as nat, 16));
    assert(id.take(16) =~= padded(t as nat, 16, 16));
}

proof fn what_fits_has_as_many_digits(n: nat, base: nat, width: nat)
    requires
        2 <= base <= 16,
        width > 0,
        fits(n, base, width),
    ensures
        digits(n, base).len() <= width,
    decreases width,
{
    if n >= base {
        vstd::arithmetic::div_mod::lemma_div_non_zero(n as int, base as int);
        if width == 1 {
            reveal_with_fuel(fits, 2);
        } else {
            what_fits_has_as_many_digits(n / base, base, (width - 1) as nat);
        }
    }
}

} // verus!
