//! Human-readable traffic sizes and rates.
//!
//! A size below 1 KB is shown exactly (`"512 B"`); a larger one is divided by
//! 1024 until it falls below 1024 (at most up to TB) and shown with two
//! decimals. The byte count is taken as a 64-bit float, as the display always
//! did: the integer arithmetic below reproduces that float value exactly, and
//! rounds the two decimals half-to-even on the exact value, as Rust's
//! formatter does.

use vstd::prelude::*;

verus! {

/// `2^s`.
pub open spec fn two_pow(s: nat) -> nat
    decreases s,
{
    if s == 0 {
        1
    } else {
        2 * two_pow((s - 1) as nat)
    }
}

/// How many low bits a 64-bit float drops from `n`: none below `2^53`.
pub open spec fn excess_bits(n: nat) -> nat
    decreases n,
{
    if n < 0x20_0000_0000_0000 {
        0
    } else {
        1 + excess_bits(n / 2)
    }
}

/// `q * d + r` rounded to a multiple of `d`, ties to the even multiple.
pub open spec fn round_half_even(q: nat, r: nat, d: nat) -> nat {
    if 2 * r > d || (2 * r == d && q % 2 == 1) {
        q + 1
    } else {
        q
    }
}

/// `n as f64`: the nearest 64-bit float, ties to even.
pub open spec fn f64_of(n: nat) -> nat {
    let p = two_pow(excess_bits(n));
    round_half_even(n / p, n % p, p) * p
}

/// The decimal digit `d`.
pub open spec fn digit_char(d: nat) -> char {
    (48 + d) as char
}

/// Decimal representation of `n`.
pub open spec fn dec_string(n: nat) -> Seq<char>
    decreases n,
{
    if n < 10 {
        seq![digit_char(n)]
    } else {
        dec_string(n / 10).push(digit_char(n % 10))
    }
}

/// `1024^u`.
pub open spec fn unit_size(u: nat) -> nat {
    if u == 0 {
        1
    } else if u == 1 {
        1024
    } else if u == 2 {
        1048576
    } else if u == 3 {
        1073741824
    } else {
        1099511627776
    }
}

/// The unit shown for `n` bytes: the largest of B, KB, MB, GB, TB that is
/// not above `n`.
pub open spec fn unit_of(n: nat) -> nat {
    if n >= 1099511627776 {
        4
    } else if n >= 1073741824 {
        3
    } else if n >= 1048576 {
        2
    } else if n >= 1024 {
        1
    } else {
        0
    }
}

pub open spec fn unit_name(u: nat) -> Seq<char> {
    if u == 0 {
        "B"@
    } else if u == 1 {
        "KB"@
    } else if u == 2 {
        "MB"@
    } else if u == 3 {
        "GB"@
    } else {
        "TB"@
    }
}

/// `v / d` in hundredths, rounded half to even.
pub open spec fn hundredths(v: nat, d: nat) -> nat {
    round_half_even((v * 100) / d, (v * 100) % d, d)
}

/// The text of `n` bytes.
pub open spec fn bytes_text(n: nat) -> Seq<char> {
    let u = unit_of(n);
    if u == 0 {
        dec_string(n) + " B"@
    } else {
        let h = hundredths(f64_of(n), unit_size(u));
        dec_string(h / 100) + "."@ + seq![digit_char((h % 100) / 10), digit_char(h % 10)] + " "@
            + unit_name(u)
    }
}

/// Decimal digits of `n`.
pub(crate) fn dec_chars(n: u64) -> (v: Vec<char>)
    ensures
        v@ == dec_string(n as nat),
    decreases n,
{
    if n < 10 {
        let c = ((48 + n) as u8) as char;
        let mut v: Vec<char> = Vec::new();
        v.push(c);
        assert(v@ =~= seq![digit_char(n as nat)]);
        v
    } else {
        let mut v = dec_chars(n / 10);
        let c = ((48 + n % 10) as u8) as char;
        v.push(c);
        v
    }
}

/// `n as f64`, computed exactly in integers.
fn float_value(n: u64) -> (v: u128)
    ensures
        v as nat == f64_of(n as nat),
        v < 0x2_0000_0000_0000_0000u128,
{
    let mut m: u128 = n as u128;
    let mut p: u128 = 1;
    let mut r: u128 = 0;
    let ghost mut s: nat = 0;
    while m >= 0x20_0000_0000_0000
        invariant
            n as int == m * p + r,
            0 <= r < p,
            p as nat == two_pow(s),
            excess_bits(n as nat) == s + excess_bits(m as nat),
            m <= n,
            s > 0 ==> m >= 0x10_0000_0000_0000,
            p >= 1,
        decreases m,
    {
        let bit = m % 2;
        assert(m * p + r == (m / 2) * (2 * p) + (bit * p + r)) by (nonlinear_arith)
            requires
                bit == m % 2,
        ;
        assert(p <= m * p) by (nonlinear_arith)
            requires
                m >= 1,
                p >= 1,
        ;
        assert(bit * p + r < 2 * p) by (nonlinear_arith)
            requires
                bit <= 1,
                r < p,
        ;
        r = r + bit * p;
        m = m / 2;
        p = p * 2;
        proof {
            s = s + 1;
        }
    }
    proof {
        vstd::arithmetic::div_mod::lemma_fundamental_div_mod_converse(
            n as int,
            p as int,
            m as int,
            r as int,
        );
        assert(p <= m * p + p) by (nonlinear_arith)
            requires
                p >= 1,
        ;
    }
    let q = if 2 * r > p || (2 * r == p && m % 2 == 1) {
        m + 1
    } else {
        m
    };
    assert(q * p < 0x2_0000_0000_0000_0000u128) by (nonlinear_arith)
        requires
            q <= m + 1,
            m < 0x20_0000_0000_0000,
            s > 0 ==> m >= 0x10_0000_0000_0000,
            s == 0 ==> p == 1,
            m * p + r == n,
            n < 0x1_0000_0000_0000_0000u128,
            r >= 0,
            p >= 1,
    ;
    q * p
}

/// A byte count as B / KB / MB / GB / TB.
#[verifier::spinoff_prover]
#[verifier::rlimit(40)]
pub fn bytes(n: u64) -> (r: String)
    ensures
        r@ == bytes_text(n as nat),
{
    let mut out: Vec<char>;
    if n < 1024 {
        out = dec_chars(n);
        crate::text::append_chars(&mut out, &crate::text::chars_of(" B"));
    } else {
        let (d, name): (u128, &str) = if n >= 1099511627776 {
            (1099511627776, "TB")
        } else if n >= 1073741824 {
            (1073741824, "GB")
        } else if n >= 1048576 {
            (1048576, "MB")
        } else {
            (1024, "KB")
        };
        let v = float_value(n);
        let t = v * 100;
        let q = t / d;
        let rem = t % d;
        let h = if 2 * rem > d || (2 * rem == d && q % 2 == 1) {
            q + 1
        } else {
            q
        };
        let h = h as u64;
        out = dec_chars(h / 100);
        crate::text::append_chars(&mut out, &crate::text::chars_of("."));
        let frac = h % 100;
        out.push(((48 + frac / 10) as u8) as char);
        out.push(((48 + frac % 10) as u8) as char);
        crate::text::append_chars(&mut out, &crate::text::chars_of(" "));
        crate::text::append_chars(&mut out, &crate::text::chars_of(name));
    }
    crate::text::string_from(&out)
}


/// A rate in bytes per second.
pub fn speed(bytes_per_sec: u64) -> (r: String)
    ensures
        r@ == bytes_text(bytes_per_sec as nat) + "/s"@,
{
    let mut out = crate::text::chars_of(bytes(bytes_per_sec).as_str());
    crate::text::append_chars(&mut out, &crate::text::chars_of("/s"));
    crate::text::string_from(&out)
}

/// The download progress line of the first-run screen: `done / total` when
/// the size is known, else just what was received.
pub fn progress(done: u64, total: Option<u64>) -> (r: String)
    ensures
        r@ == match total {
            Some(t) => bytes_text(done as nat) + " / "@ + bytes_text(t as nat),
            None => bytes_text(done as nat),
        },
{
    match total {
        Some(t) => {
            let mut out = crate::text::chars_of(bytes(done).as_str());
            crate::text::append_chars(&mut out, &crate::text::chars_of(" / "));
            crate::text::append_chars(&mut out, &crate::text::chars_of(bytes(t).as_str()));
            crate::text::string_from(&out)
        },
        None => bytes(done),
    }
}

} // verus!
