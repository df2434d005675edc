//! The byte formatter: a non-negative byte count becomes a short
//! human-readable string, selected by the largest power of 1024 that fits.
use vstd::prelude::*;

verus! {

pub enum ByteUnits {
    Bytes,
    Kilobytes,
    Megabytes,
    Gigabytes,
}

/// 1024 raised to the power `k`.
pub open spec fn pow1024(k: nat) -> nat
    decreases k,
{
    if k == 0 {
        1
    } else {
        1024 * pow1024((k - 1) as nat)
    }
}

/// The exponent of the unit.
pub open spec fn unit_exp(x: ByteUnits) -> nat {
    match x {
        ByteUnits::Bytes => 0,
        ByteUnits::Kilobytes => 1,
        ByteUnits::Megabytes => 2,
        ByteUnits::Gigabytes => 3,
    }
}

/// The decimal digit character of a value below ten.
pub open spec fn spec_digit(d: int) -> char {
    ((('0' as u8) + d) as char)
}

/// The decimal digits of `n`, most significant first.
pub open spec fn dec_digits(n: nat) -> Seq<char>
    decreases n,
{
    if n < 10 {
        seq![spec_digit(n as int)]
    } else {
        dec_digits(n / 10).push(spec_digit((n % 10) as int))
    }
}

/// The human-readable form of a byte count: the count divided by the
/// largest power of 1024 that leaves at least 1, with that unit's suffix.
pub open spec fn spec_readable(n: u64) -> Seq<char> {
    if n as nat / pow1024(3) >= 1 {
        dec_digits(n as nat / pow1024(3)) + " GB"@
    } else if n as nat / pow1024(2) >= 1 {
        dec_digits(n as nat / pow1024(2)) + " MB"@
    } else if n as nat / pow1024(1) >= 1 {
        dec_digits(n as nat / pow1024(1)) + " KB"@
    } else {
        dec_digits(n as nat) + " Bytes"@
    }
}

pub trait BytesExt: Sized {
    /// The human-readable form of this value read as a byte count.
    spec fn spec_readable_of(self) -> Seq<char>;

    fn bytes_to_readable(self) -> (r: String)
        ensures
            r@ == self.spec_readable_of(),
    ;
}

impl BytesExt for u64 {
    open spec fn spec_readable_of(self) -> Seq<char> {
        spec_readable(self)
    }

    fn bytes_to_readable(self) -> (r: String) {
        bytes_to_readable(self)
    }
}

fn digit_str(d: u64) -> (r: &'static str)
    requires
        d < 10,
    ensures
        r@ == seq![spec_digit(d as int)],
{
    let r: &'static str = match d {
        0 => "0",
        1 => "1",
        2 => "2",
        3 => "3",
        4 => "4",
        5 => "5",
        6 => "6",
        7 => "7",
        8 => "8",
        _ => "9",
    };
    proof {
        reveal_strlit("0");
        reveal_strlit("1");
        reveal_strlit("2");
        reveal_strlit("3");
        reveal_strlit("4");
        reveal_strlit("5");
        reveal_strlit("6");
        reveal_strlit("7");
        reveal_strlit("8");
        reveal_strlit("9");
        assert(r@ =~= seq![spec_digit(d as int)]);
    }
    r
}

/// The decimal digits of `n` as a string.
pub fn u64_to_string(n: u64) -> (r: String)
    ensures
        r@ == dec_digits(n as nat),
    decreases n,
{
    if n < 10 {
        digit_str(n).to_owned()
    } else {
        let mut s = u64_to_string(n / 10);
        s.append(digit_str(n % 10));
        proof {
            assert((n / 10) as nat == n as nat / 10);
            assert((n % 10) as int == (n as nat % 10) as int);
            let ghost d = spec_digit((n as nat % 10) as int);
            assert(dec_digits(n as nat) == dec_digits(n as nat / 10).push(d));
            assert(s@ == dec_digits(n as nat / 10) + seq![d]);
            assert(dec_digits(n as nat / 10).push(d) =~= dec_digits(n as nat / 10) + seq![d]);
            assert(s@ == dec_digits(n as nat));
        }
        s
    }
}

pub fn bytes_to_readable(num_of_bytes: u64) -> (r: String)
    ensures
        r@ == spec_readable(num_of_bytes),
{
    proof {
        assert(pow1024(0) == 1);
        assert(pow1024(1) == 1024);
        assert(pow1024(2) == 1024 * 1024);
        assert(pow1024(3) == 1024 * 1024 * 1024);
    }
    let val = get(ByteUnits::Gigabytes, num_of_bytes);
    if val > 0 {
        return u64_to_string(val).concat(" GB");
    }
    let val = get(ByteUnits::Megabytes, num_of_bytes);
    if val > 0 {
        return u64_to_string(val).concat(" MB");
    }
    let val = get(ByteUnits::Kilobytes, num_of_bytes);
    if val > 0 {
        return u64_to_string(val).concat(" KB");
    }
    u64_to_string(num_of_bytes).concat(" Bytes")
}

/// The byte count divided down to the given unit, truncating.
pub fn get(x: ByteUnits, num_of_bytes: u64) -> (r: u64)
    ensures
        r as nat == num_of_bytes as nat / pow1024(unit_exp(x)),
{
    match x {
        ByteUnits::Gigabytes => divide(3, num_of_bytes),
        ByteUnits::Megabytes => divide(2, num_of_bytes),
        ByteUnits::Kilobytes => divide(1, num_of_bytes),
        ByteUnits::Bytes => divide(0, num_of_bytes),
    }
}

/// Division by 1024 raised to `multiplier`; only the exponents up to the
/// gigabyte unit are meaningful here.
pub fn divide(multiplier: u32, num_of_bytes: u64) -> (r: u64)
    requires
        multiplier <= 3,
    ensures
        r as nat == num_of_bytes as nat / pow1024(multiplier as nat),
{
    proof {
        assert(pow1024(0) == 1);
        assert(pow1024(1) == 1024);
        assert(pow1024(2) == 1024 * 1024);
        assert(pow1024(3) == 1024 * 1024 * 1024);
    }
    let res: u64 = if multiplier == 0 {
        1
    } else if multiplier == 1 {
        1024
    } else if multiplier == 2 {
        1048576
    } else {
        1073741824
    };
    num_of_bytes / res
}

/// The thresholds of the byte formatter: exactly one whole unit at each
/// power of 1024, and the largest value below it still in the unit before.
pub proof fn lemma_byte_formatter_thresholds()
    ensures
        spec_readable(1024) == "1 KB"@,
        spec_readable(1048576) == "1 MB"@,
        spec_readable(1073741824) == "1 GB"@,
        spec_readable(1023) == "1023 Bytes"@,
        spec_readable(1048575) == "1023 KB"@,
        spec_readable(1073741823) == "1023 MB"@,
{
    reveal_strlit(" KB");
    reveal_strlit(" MB");
    reveal_strlit(" GB");
    reveal_strlit(" Bytes");
    reveal_strlit("1 KB");
    reveal_strlit("1 MB");
    reveal_strlit("1 GB");
    reveal_strlit("1023 Bytes");
    reveal_strlit("1023 KB");
    reveal_strlit("1023 MB");
    assert(pow1024(0) == 1);
    assert(pow1024(1) == 1024);
    assert(pow1024(2) == 1024 * 1024);
    assert(pow1024(3) == 1024 * 1024 * 1024);
    assert(dec_digits(1) =~= seq!['1']);
    assert(dec_digits(10) =~= seq!['1', '0']);
    assert(dec_digits(102) =~= seq!['1', '0', '2']);
    assert(dec_digits(1023) =~= seq!['1', '0', '2', '3']);
    assert(spec_readable(1024) =~= "1 KB"@);
    assert(spec_readable(1048576) =~= "1 MB"@);
    assert(spec_readable(1073741824) =~= "1 GB"@);
    assert(spec_readable(1023) =~= "1023 Bytes"@);
    assert(spec_readable(1048575) =~= "1023 KB"@);
    assert(spec_readable(1073741823) =~= "1023 MB"@);
}

} // verus!
