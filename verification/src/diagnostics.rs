//! Figures about the database file.

use vstd::prelude::*;
use vstd::string::*;

use crate::text::{decimal, to_decimal};

verus! {

/// Size of the database file and of its write-ahead log, where they exist.
#[derive(Clone, Copy, Debug, PartialEq, Eq, Structural)]
pub struct DbFileSize {
    pub main_bytes: Option<u64>,
    pub wal_bytes: Option<u64>,
}

impl Default for DbFileSize {
    fn default() -> (r: DbFileSize)
        ensures
            r == (DbFileSize { main_bytes: None, wal_bytes: None }),
    {
        DbFileSize { main_bytes: None, wal_bytes: None }
    }
}

/// A size that is not known counts as nothing.
pub open spec fn or_zero(n: Option<u64>) -> int {
    match n {
        Some(b) => b as int,
        None => 0,
    }
}

impl DbFileSize {
    /// Both sizes together; a missing file counts as empty.
    pub fn total_bytes(&self) -> (r: u64)
        requires
            or_zero(self.main_bytes) + or_zero(self.wal_bytes) <= u64::MAX,
        ensures
            r == or_zero(self.main_bytes) + or_zero(self.wal_bytes),
    {
        let main: u64 = match self.main_bytes {
            Some(b) => b,
            None => 0,
        };
        let wal: u64 = match self.wal_bytes {
            Some(b) => b,
            None => 0,
        };
        main + wal
    }
}

/// The write-ahead log that belongs to a database file.
pub fn wal_path(db_path: &str) -> (r: String)
    ensures
        r@ == db_path@ + "-wal"@,
{
    let mut out = db_path.to_owned();
    out.append("-wal");
    out
}

/// The bytes a chunk takes on average, or nothing where there is no chunk.
pub fn bytes_per_chunk(total_bytes: u64, total_chunks: u64) -> (r: Option<u64>)
    ensures
        total_chunks == 0 ==> r is None,
        total_chunks > 0 ==> r == Some((total_bytes / total_chunks) as u64),
{
    if total_chunks == 0 {
        None
    } else {
        Some(total_bytes / total_chunks)
    }
}

// ---------------------------------------------------------------------------
// Sizes for human readers
// ---------------------------------------------------------------------------

/// `num / den` rounded to the nearest integer, halves to the even one.
pub open spec fn half_even(num: int, den: int) -> int {
    let q = num / den;
    let r = num % den;
    if 2 * r < den || (2 * r == den && q % 2 == 0) {
        q
    } else {
        q + 1
    }
}

/// The distance of neighbouring 64-bit floats around `n`, at least 1.
pub open spec fn float_step(n: int) -> int
    decreases n,
{
    if n < 0x20_0000_0000_0000 {
        1
    } else {
        2 * float_step(n / 2)
    }
}

/// `n` as a 64-bit float: rounded to 53 significant bits.
pub open spec fn as_float(n: int) -> int {
    half_even(n, float_step(n)) * float_step(n)
}

/// The size of a unit: byte, and 1024 times as much for each further one.
pub open spec fn unit_size(unit: int) -> int
    decreases unit,
{
    if unit <= 0 {
        1
    } else {
        1024 * unit_size(unit - 1)
    }
}

/// The largest unit, up to `unit`, that `value` reaches.
pub open spec fn unit_of(value: int, unit: int) -> int
    decreases unit,
{
    if unit <= 0 || value >= unit_size(unit) {
        unit
    } else {
        unit_of(value, unit - 1)
    }
}

/// The name of a unit.
pub open spec fn unit_name(unit: int) -> Seq<char> {
    if unit <= 0 {
        "B"@
    } else if unit == 1 {
        "KB"@
    } else if unit == 2 {
        "MB"@
    } else if unit == 3 {
        "GB"@
    } else {
        "TB"@
    }
}

/// `bytes` in the largest unit that it reaches, with one decimal from kilobytes
/// on.
pub open spec fn size_text(bytes: int) -> Seq<char> {
    let value = as_float(bytes);
    let unit = unit_of(value, 4);
    let tenths = half_even(value * 10, unit_size(unit));
    if unit == 0 {
        decimal(bytes) + " "@ + unit_name(0)
    } else {
        decimal(tenths / 10) + "."@ + decimal(tenths % 10) + " "@ + unit_name(unit)
    }
}

fn divide_half_even(num: u128, den: u128) -> (r: u128)
    requires
        0 < den <= 0x1_0000_0000_0000_0000_0000,
        num <= 0x1_0000_0000_0000_0000_0000,
    ensures
        r == half_even(num as int, den as int),
        r <= num + 1,
{
    let q: u128 = num / den;
    let rest: u128 = num % den;
    proof {
        assert(q <= num) by (nonlinear_arith)
            requires
                q == num / den,
                den > 0,
        ;
    }
    if 2 * rest < den || (2 * rest == den && q % 2 == 0) {
        q
    } else {
        q + 1
    }
}

/// The step grows with the number, and stays a small part of it.
proof fn lemma_float_step(n: int)
    requires
        0 <= n <= 0xffff_ffff_ffff_ffff,
    ensures
        1 <= float_step(n) <= 2048,
        float_step(n) > 1 ==> float_step(n) * 0x10_0000_0000_0000 <= n,
{
    reveal_with_fuel(float_step, 13);
}

/// `n` as a 64-bit float: rounded to 53 significant bits.
fn round_to_float(n: u64) -> (r: u128)
    ensures
        r == as_float(n as int),
        r <= 0x1_0000_0000_0000_0000 + 4096,
{
    let mut step: u128 = 1;
    let mut m: u64 = n;
    while m >= 0x20_0000_0000_0000
        invariant
            step * float_step(m as int) == float_step(n as int),
            1 <= step,
        decreases m,
    {
        proof {
            lemma_float_step(n as int);
            lemma_float_step(m as int / 2);
            assert(step * (2 * float_step(m as int / 2)) == (step * 2) * float_step(
                m as int / 2,
            )) by (nonlinear_arith);
            let s2 = step * 2;
            let f = float_step(m as int / 2);
            assert(s2 <= 2048) by (nonlinear_arith)
                requires
                    s2 * f <= 2048,
                    f >= 1,
                    s2 >= 1,
            ;
        }
        step = step * 2;
        m = m / 2;
    }
    proof {
        lemma_float_step(n as int);
        assert(float_step(m as int) == 1);
    }
    let q: u128 = divide_half_even(n as u128, step);
    proof {
        let f = float_step(n as int);
        let nn = n as int;
        vstd::arithmetic::div_mod::lemma_fundamental_div_mod(nn, f);
        assert(q * f <= nn + f) by (nonlinear_arith)
            requires
                nn == f * (nn / f) + nn % f,
                0 <= nn % f,
                q <= nn / f + 1,
                f >= 1,
        ;
    }
    q * step
}

fn unit_label(unit: u64) -> (r: &'static str)
    requires
        unit <= 4,
    ensures
        r@ == unit_name(unit as int),
{
    if unit == 0 {
        "B"
    } else if unit == 1 {
        "KB"
    } else if unit == 2 {
        "MB"
    } else if unit == 3 {
        "GB"
    } else {
        "TB"
    }
}

/// `bytes` for a human reader, such as `128.4 MB`.
pub fn format_bytes(bytes: u64) -> (r: String)
    ensures
        r@ == size_text(bytes as int),
{
    let value: u128 = round_to_float(bytes);
    let mut unit: u64 = 4;
    let mut size: u128 = 1_099_511_627_776;
    proof {
        reveal_with_fuel(unit_size, 6);
    }
    while unit > 0 && value < size
        invariant
            unit <= 4,
            size == unit_size(unit as int),
            1 <= size <= 1_099_511_627_776,
            unit_of(value as int, 4) == unit_of(value as int, unit as int),
        decreases unit,
    {
        size = size / 1024;
        unit = unit - 1;
    }
    let label = unit_label(unit);
    if unit == 0 {
        let mut out = to_decimal(bytes);
        out.append(" ");
        out.append(label);
        return out;
    }
    let tenths: u128 = divide_half_even(value * 10, size);
    proof {
        let num = value * 10;
        assert(tenths <= num / 1024 + 1) by {
            reveal_with_fuel(unit_size, 6);
            assert(size >= 1024);
            assert(num / size as int <= num / 1024) by (nonlinear_arith)
                requires
                    size >= 1024,
                    num >= 0,
            ;
        }
    }
    let mut out = to_decimal((tenths / 10) as u64);
    out.append(".");
    let last = to_decimal((tenths % 10) as u64);
    out.append(last.as_str());
    out.append(" ");
    out.append(label);
    out
}

// ---------------------------------------------------------------------------
// Laws
// ---------------------------------------------------------------------------

/// Rounding gives a nearest integer, and of two that are equally near the even one.
pub proof fn law_rounds_to_nearest(num: int, den: int)
    requires
        0 <= num,
        0 < den,
    ensures
        2 * (half_even(num, den) * den - num) <= den,
        2 * (num - half_even(num, den) * den) <= den,
        2 * (half_even(num, den) * den - num) == den || 2 * (num - half_even(num, den) * den) == den
            ==> half_even(num, den) % 2 == 0,
{
    let q = num / den;
    let r = num % den;
    vstd::arithmetic::div_mod::lemma_fundamental_div_mod(num, den);
    assert(q * den == den * q) by (nonlinear_arith);
    assert((q + 1) * den == den * q + den) by (nonlinear_arith);
}

/// A size that 64-bit floats hold exactly is itself.
pub proof fn law_small_sizes_are_exact(n: int)
    requires
        0 <= n < 0x20_0000_0000_0000,
    ensures
        as_float(n) == n,
{
}

/// A size is told in the largest unit that it reaches, of which there are five,
/// each 1024 times the one before.
pub proof fn law_unit_is_the_largest_reached(value: int)
    requires
        0 <= value,
    ensures
        0 <= unit_of(value, 4) <= 4,
        unit_of(value, 4) > 0 ==> value >= unit_size(unit_of(value, 4)),
        unit_of(value, 4) < 4 ==> value < unit_size(unit_of(value, 4) + 1),
        unit_size(0) == 1,
        unit_size(1) == 1024,
        unit_size(2) == 1024 * 1024,
        unit_size(3) == 1024 * 1024 * 1024,
        unit_size(4) == 1024 * 1024 * 1024 * 1024,
{
    reveal_with_fuel(unit_size, 6);
    reveal_with_fuel(unit_of, 6);
}

/// Below 1024 bytes the number of bytes is told, and from there on tenths of the
/// unit, rounded to the nearest.
pub proof fn law_size_text(bytes: int)
    requires
        0 <= bytes < 0x20_0000_0000_0000,
    ensures
        bytes < 1024 ==> size_text(bytes) == decimal(bytes) + " B"@,
        bytes >= 1024 ==> ({
            let unit = unit_of(bytes, 4);
            let name = if unit == 1 {
                " KB"@
            } else if unit == 2 {
                " MB"@
            } else if unit == 3 {
                " GB"@
            } else {
                " TB"@
            };
            exists|tenths: int|
                #![trigger decimal(tenths / 10)]
                size_text(bytes) == decimal(tenths / 10) + "."@ + decimal(tenths % 10) + name && 2 * (
                tenths * unit_size(unit) - 10 * bytes) <= unit_size(unit) && 2 * (10 * bytes
                    - tenths * unit_size(unit)) <= unit_size(unit)
        }),
{
    law_small_sizes_are_exact(bytes);
    law_unit_is_the_largest_reached(bytes);
    reveal_strlit(" ");
    reveal_strlit("B");
    reveal_strlit(" B");
    reveal_strlit("KB");
    reveal_strlit("MB");
    reveal_strlit("GB");
    reveal_strlit("TB");
    reveal_strlit(" KB");
    reveal_strlit(" MB");
    reveal_strlit(" GB");
    reveal_strlit(" TB");
    let unit = unit_of(bytes, 4);
    if bytes < 1024 {
        assert(unit == 0);
        assert(size_text(bytes) =~= decimal(bytes) + " B"@);
    } else {
        let size = unit_size(unit);
        let tenths = half_even(bytes * 10, size);
        law_rounds_to_nearest(bytes * 10, size);
        let name = if unit == 1 {
            " KB"@
        } else if unit == 2 {
            " MB"@
        } else if unit == 3 {
            " GB"@
        } else {
            " TB"@
        };
        assert(" "@ + unit_name(unit) =~= name);
        assert(size_text(bytes) =~= decimal(tenths / 10) + "."@ + decimal(tenths % 10) + name);
    }
}

/// Floats have 53 significant bits: the step is a power of two, no smaller than it
/// must be, and the size is told by a nearest multiple of it.
pub proof fn law_large_sizes_are_rounded(n: int)
    requires
        0 <= n <= u64::MAX,
    ensures
        n < 0x20_0000_0000_0000 * float_step(n),
        float_step(n) > 1 ==> 0x10_0000_0000_0000 * float_step(n) <= n,
        2 * (as_float(n) - n) <= float_step(n),
        2 * (n - as_float(n)) <= float_step(n),
        as_float(n) % float_step(n) == 0,
{
    reveal_with_fuel(float_step, 13);
    lemma_float_step(n);
    let f = float_step(n);
    law_rounds_to_nearest(n, f);
    let q = half_even(n, f);
    vstd::arithmetic::div_mod::lemma_mod_multiples_basic(q, f);
}

} // verus!
