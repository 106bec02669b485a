//! Human-readable transfer speeds and remaining times.
use vstd::prelude::*;
use crate::text::{dec, digit_char, digit_of, push_dec, string_push, string_push_str};

verus! {

/// The spacing of `f64` values around a magnitude below 2^65.
pub open spec fn f64_spacing(n: nat) -> nat {
    if n < 0x20_0000_0000_0000 {
        1
    } else if n < 0x40_0000_0000_0000 {
        2
    } else if n < 0x80_0000_0000_0000 {
        4
    } else if n < 0x100_0000_0000_0000 {
        8
    } else if n < 0x200_0000_0000_0000 {
        16
    } else if n < 0x400_0000_0000_0000 {
        32
    } else if n < 0x800_0000_0000_0000 {
        64
    } else if n < 0x1000_0000_0000_0000 {
        128
    } else if n < 0x2000_0000_0000_0000 {
        256
    } else if n < 0x4000_0000_0000_0000 {
        512
    } else if n < 0x8000_0000_0000_0000 {
        1024
    } else {
        2048
    }
}

/// The value of `n as f64` for an unsigned 64-bit `n`: `n` rounded to the
/// nearest multiple of the spacing, ties to an even multiple.
pub open spec fn u64_as_f64(n: nat) -> nat {
    let u = f64_spacing(n);
    let q = n / u;
    let r = n % u;
    if r * 2 > u || (r * 2 == u && q % 2 == 1) {
        (q + 1) * u
    } else {
        q * u
    }
}

/// `num / den` in tenths, rounded to the nearest tenth, ties to even
/// (how `{:.1}` prints a value that is exactly `num / den`).
pub open spec fn round_tenths(num: nat, den: nat) -> nat {
    let t = num * 10 / den;
    let r = num * 10 % den;
    if r * 2 > den || (r * 2 == den && t % 2 == 1) {
        t + 1
    } else {
        t
    }
}

/// A count of tenths written with one decimal.
pub open spec fn one_decimal(t: nat) -> Seq<char> {
    dec(t / 10) + seq!['.', digit_char(t % 10)]
}

/// The text of a transfer speed: bytes, kibibytes or mebibytes per second,
/// the latter two with one decimal.
pub open spec fn speed_text(bps: nat) -> Seq<char> {
    if bps == 0 {
        seq!['0', ' ', 'B', '/', 's']
    } else if bps < 1024 {
        dec(bps) + seq![' ', 'B', '/', 's']
    } else if bps < 1024 * 1024 {
        one_decimal(round_tenths(bps, 1024)) + seq![' ', 'K', 'B', '/', 's']
    } else {
        one_decimal(round_tenths(u64_as_f64(bps), 1024 * 1024)) + seq![' ', 'M', 'B', '/', 's']
    }
}

/// The text of a remaining time: seconds; minutes and seconds; or hours and minutes.
pub open spec fn eta_text(secs: nat) -> Seq<char> {
    if secs < 60 {
        dec(secs) + seq!['s']
    } else if secs < 3600 {
        dec(secs / 60) + seq!['m', ' '] + dec(secs % 60) + seq!['s']
    } else {
        dec(secs / 3600) + seq!['h', ' '] + dec((secs % 3600) / 60) + seq!['m']
    }
}

fn f64_spacing_exec(n: u64) -> (u: u64)
    ensures
        u == f64_spacing(n as nat),
        1 <= u <= 2048,
{
    if n < 0x20_0000_0000_0000 {
        1
    } else if n < 0x40_0000_0000_0000 {
        2
    } else if n < 0x80_0000_0000_0000 {
        4
    } else if n < 0x100_0000_0000_0000 {
        8
    } else if n < 0x200_0000_0000_0000 {
        16
    } else if n < 0x400_0000_0000_0000 {
        32
    } else if n < 0x800_0000_0000_0000 {
        64
    } else if n < 0x1000_0000_0000_0000 {
        128
    } else if n < 0x2000_0000_0000_0000 {
        256
    } else if n < 0x4000_0000_0000_0000 {
        512
    } else if n < 0x8000_0000_0000_0000 {
        1024
    } else {
        2048
    }
}

fn u64_as_f64_exec(n: u64) -> (v: u128)
    ensures
        v == u64_as_f64(n as nat),
        v <= 0x1_0000_0000_0000_0800,
{
    let u = f64_spacing_exec(n) as u128;
    let n2 = n as u128;
    let q = n2 / u;
    let r = n2 % u;
    assert(q * u <= n2 && n2 < q * u + u) by (nonlinear_arith)
        requires
            q == n2 / u,
            u >= 1,
    ;
    if r * 2 > u || (r * 2 == u && q % 2 == 1) {
        assert((q + 1) * u == q * u + u) by (nonlinear_arith);
        assert(u <= 2048);
        (q + 1) * u
    } else {
        q * u
    }
}

fn round_tenths_exec(num: u128, den: u128) -> (t: u128)
    requires
        1 <= den <= 0x1_0000_0000,
        num <= 0x1_0000_0000_0000_0800,
    ensures
        t == round_tenths(num as nat, den as nat),
{
    let t = num * 10 / den;
    let r = num * 10 % den;
    assert(r < den);
    if r * 2 > den || (r * 2 == den && t % 2 == 1) {
        assert(t <= num * 10) by (nonlinear_arith)
            requires
                t == (num * 10) as int / den as int,
                den >= 1,
        ;
        t + 1
    } else {
        t
    }
}

fn push_one_decimal(s: &mut String, t: u128)
    requires
        t <= 0x1000_0000_0000_0000,
    ensures
        final(s)@ == old(s)@ + one_decimal(t as nat),
{
    let whole: u128 = t / 10;
    assert(whole <= u64::MAX);
    push_dec(s, whole as u64);
    string_push(s, '.');
    let d = (t % 10) as u64;
    let c = digit_of(d);
    string_push(s, c);
    assert(old(s)@ + one_decimal(t as nat) == old(s)@ + dec(whole as nat) + seq!['.'] + seq![c]);
}

/// A transfer speed for display, e.g. `512 B/s`, `1.5 KB/s`, `2.0 MB/s`.
pub fn format_speed(bps: u64) -> (s: String)
    ensures
        s@ == speed_text(bps as nat),
{
    let mut s = String::new();
    if bps == 0 {
        string_push_str(&mut s, "0 B/s");
        proof {
            reveal_strlit("0 B/s");
            assert(s@ =~= speed_text(bps as nat));
        }
        return s;
    }
    if bps < 1024 {
        push_dec(&mut s, bps);
        string_push_str(&mut s, " B/s");
        proof {
            reveal_strlit(" B/s");
            assert(s@ =~= speed_text(bps as nat));
        }
        return s;
    }
    if bps < 1024 * 1024 {
        let t = round_tenths_exec(bps as u128, 1024);
        assert(t <= 10240) by (nonlinear_arith)
            requires
                t == round_tenths(bps as nat, 1024),
                bps < 1024 * 1024,
        ;
        push_one_decimal(&mut s, t);
        string_push_str(&mut s, " KB/s");
        proof {
            reveal_strlit(" KB/s");
            assert(s@ =~= speed_text(bps as nat));
        }
        return s;
    }
    let v = u64_as_f64_exec(bps);
    let t = round_tenths_exec(v, 1024 * 1024);
    assert(t <= 0x1000_0000_0000_0000) by (nonlinear_arith)
        requires
            t == round_tenths(v as nat, 1024 * 1024),
            v <= 0x1_0000_0000_0000_0800,
    ;
    push_one_decimal(&mut s, t);
    string_push_str(&mut s, " MB/s");
    proof {
        reveal_strlit(" MB/s");
        assert(s@ =~= speed_text(bps as nat));
    }
    s
}

/// A remaining time for display, e.g. `42s`, `3m 5s`, `2h 15m`.
pub fn format_eta(secs: u64) -> (s: String)
    ensures
        s@ == eta_text(secs as nat),
{
    let mut s = String::new();
    if secs < 60 {
        push_dec(&mut s, secs);
        string_push(&mut s, 's');
        assert(s@ =~= eta_text(secs as nat));
        return s;
    }
    if secs < 3600 {
        push_dec(&mut s, secs / 60);
        string_push(&mut s, 'm');
        string_push(&mut s, ' ');
        push_dec(&mut s, secs % 60);
        string_push(&mut s, 's');
        assert(s@ =~= eta_text(secs as nat));
        return s;
    }
    push_dec(&mut s, secs / 3600);
    string_push(&mut s, 'h');
    string_push(&mut s, ' ');
    push_dec(&mut s, (secs % 3600) / 60);
    string_push(&mut s, 'm');
    assert(s@ =~= eta_text(secs as nat));
    s
}

} // verus!
