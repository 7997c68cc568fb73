//! Formatting numbers for the serial console: digits most significant
//! first, lowercase hexadecimal without prefix, and "0" for zero.
use vstd::prelude::*;

verus! {

/// ASCII digit of `d` (below 16), lowercase for 10..15.
pub open spec fn digit_char(d: nat) -> u8 {
    if d < 10 {
        (0x30 + d) as u8
    } else {
        (0x61 + d - 10) as u8
    }
}

/// Digits of `v` in base `b`, least significant first; empty for 0.
pub open spec fn digits_rev(v: nat, b: nat) -> Seq<u8>
    decreases v,
{
    if v == 0 || b < 2 {
        seq![]
    } else {
        proof {
            vstd::arithmetic::div_mod::lemma_div_decreases(v as int, b as int);
        }
        seq![digit_char(v % b)] + digits_rev(v / b, b)
    }
}

/// `v` written in base `b` (2..16), most significant digit first.
pub open spec fn format_num(v: nat, b: nat) -> Seq<u8> {
    if v == 0 {
        seq![0x30u8]
    } else {
        digits_rev(v, b).reverse()
    }
}

/// Value of a digit character (b'0'..b'9', b'a'..b'f').
pub open spec fn char_value(c: u8) -> nat {
    if 0x30 <= c <= 0x39 {
        (c - 0x30) as nat
    } else {
        (c - 0x61 + 10) as nat
    }
}

/// The number that digits `s` (most significant first) denote in base `b`.
pub open spec fn parse_num(s: Seq<u8>, b: nat) -> nat
    decreases s.len(),
{
    if s.len() == 0 {
        0
    } else {
        parse_num(s.drop_last(), b) * b + char_value(s.last())
    }
}

fn format_rev_then_out(v0: u64, base: u64) -> (r: Vec<u8>)
    requires
        base == 10 || base == 16,
    ensures
        r@ == format_num(v0 as nat, base as nat),
{
    if v0 == 0 {
        let mut out: Vec<u8> = Vec::new();
        out.push(0x30);
        assert(out@ =~= seq![0x30u8]);
        return out;
    }
    let mut buf: Vec<u8> = Vec::new();
    let mut v = v0;
    assert(pow_base(base as nat, 0) == 1);
    assert(buf@ + digits_rev(v as nat, base as nat) =~= digits_rev(v0 as nat, base as nat));
    while v > 0
        invariant
            base == 10 || base == 16,
            digits_rev(v0 as nat, base as nat) == buf@ + digits_rev(v as nat, base as nat),
            buf@.len() <= 64,
            v as nat * pow_base(base as nat, buf@.len()) <= v0,
        decreases v,
    {
        let d = v % base;
        let c: u8 = if d < 10 { 0x30 + d as u8 } else { 0x61 + (d - 10) as u8 };
        proof {
            let rest = digits_rev((v / base) as nat, base as nat);
            assert(digits_rev(v as nat, base as nat) == seq![digit_char((v % base) as nat)] + rest);
            assert(buf@.push(c) + rest =~= buf@ + (seq![c] + rest));
            lemma_len_bound(v0, v, base, buf@.len());
        }
        buf.push(c);
        v = v / base;
    }
    assert(buf@ + seq![] =~= buf@);
    let mut out: Vec<u8> = Vec::new();
    let mut i = buf.len();
    while i > 0
        invariant
            i <= buf@.len(),
            out@ == buf@.subrange(i as int, buf@.len() as int).reverse(),
        decreases i,
    {
        i -= 1;
        out.push(buf[i]);
        assert(out@ =~= buf@.subrange(i as int, buf@.len() as int).reverse());
    }
    assert(buf@.subrange(0, buf@.len() as int) =~= buf@);
    out
}

pub open spec fn pow_base(b: nat, n: nat) -> nat
    decreases n,
{
    if n == 0 {
        1
    } else {
        b * pow_base(b, (n - 1) as nat)
    }
}

proof fn lemma_len_bound(v0: u64, v: u64, base: u64, n: nat)
    requires
        base == 10 || base == 16,
        v > 0,
        v as nat * pow_base(base as nat, n) <= v0,
    ensures
        n < 64,
        (v / base) as nat * pow_base(base as nat, n + 1) <= v0,
{
    lemma_pow_ge(base as nat, n);
    assert(pow_base(base as nat, n) <= v0) by (nonlinear_arith)
        requires
            v > 0,
            v as nat * pow_base(base as nat, n) <= v0,
    ;
    if n >= 64 {
        lemma_pow_mono(base as nat, 64, n);
        vstd::arithmetic::power2::lemma2_to64();
        assert(pow_base(2, 64) == 0x1_0000_0000_0000_0000) by {
            lemma_pow2_eq(64);
        }
        lemma_pow_base_le(base as nat, 64);
    }
    assert(pow_base(base as nat, n + 1) == base * pow_base(base as nat, n));
    assert((v / base) as nat * (base * pow_base(base as nat, n)) <= v as nat * pow_base(base as nat, n)) by (nonlinear_arith)
        requires
            base > 0,
    ;
}

proof fn lemma_pow_ge(b: nat, n: nat)
    requires
        b >= 1,
    ensures
        pow_base(b, n) >= 1,
    decreases n,
{
    if n > 0 {
        lemma_pow_ge(b, (n - 1) as nat);
        assert(b * pow_base(b, (n - 1) as nat) >= 1) by (nonlinear_arith)
            requires
                b >= 1,
                pow_base(b, (n - 1) as nat) >= 1,
        ;
    }
}

proof fn lemma_pow_mono(b: nat, m: nat, n: nat)
    requires
        b >= 1,
        m <= n,
    ensures
        pow_base(b, m) <= pow_base(b, n),
    decreases n,
{
    if m < n {
        lemma_pow_mono(b, m, (n - 1) as nat);
        lemma_pow_ge(b, (n - 1) as nat);
        assert(pow_base(b, (n - 1) as nat) <= b * pow_base(b, (n - 1) as nat)) by (nonlinear_arith)
            requires
                b >= 1,
        ;
    }
}

proof fn lemma_pow2_eq(n: nat)
    ensures
        pow_base(2, n) == vstd::arithmetic::power2::pow2(n),
    decreases n,
{
    if n == 0 {
        vstd::arithmetic::power2::lemma2_to64();
    } else {
        lemma_pow2_eq((n - 1) as nat);
        vstd::arithmetic::power2::lemma_pow2_unfold(n);
    }
}

proof fn lemma_pow_base_le(b: nat, n: nat)
    requires
        b >= 2,
    ensures
        pow_base(2, n) <= pow_base(b, n),
    decreases n,
{
    if n > 0 {
        lemma_pow_base_le(b, (n - 1) as nat);
        assert(2 * pow_base(2, (n - 1) as nat) <= b * pow_base(b, (n - 1) as nat)) by (nonlinear_arith)
            requires
                b >= 2,
                pow_base(2, (n - 1) as nat) <= pow_base(b, (n - 1) as nat),
        ;
    }
}

/// `v` in lowercase hexadecimal.
pub fn hex(v: u64) -> (r: Vec<u8>)
    ensures
        r@ == format_num(v as nat, 16),
{
    format_rev_then_out(v, 16)
}

/// `v` in decimal.
pub fn dec(v: u64) -> (r: Vec<u8>)
    ensures
        r@ == format_num(v as nat, 10),
{
    format_rev_then_out(v, 10)
}

proof fn lemma_parse_rev(v: nat, b: nat)
    requires
        2 <= b <= 16,
    ensures
        parse_num(digits_rev(v, b).reverse(), b) == v,
    decreases v,
{
    if v == 0 {
        assert(digits_rev(v, b).reverse() =~= seq![]);
    } else {
        let rest = digits_rev(v / b, b);
        let s = digits_rev(v, b).reverse();
        assert(digits_rev(v, b) == seq![digit_char(v % b)] + rest);
        assert(s =~= rest.reverse().push(digit_char(v % b)));
        assert(s.drop_last() =~= rest.reverse());
        assert(s.last() == digit_char(v % b));
        lemma_parse_rev(v / b, b);
        vstd::arithmetic::div_mod::lemma_mod_pos_bound(v as int, b as int);
        assert(char_value(digit_char(v % b)) == v % b);
        vstd::arithmetic::div_mod::lemma_fundamental_div_mod(v as int, b as int);
        assert(parse_num(s, b) == parse_num(s.drop_last(), b) * b + char_value(s.last()));
        assert((v / b) * b + v % b == v) by (nonlinear_arith)
            requires
                v == b * (v / b) + v % b,
        ;
    }
}

/// Reading back what `hex` or `dec` writes gives the number.
pub proof fn lemma_format_parse(v: nat, b: nat)
    requires
        b == 10 || b == 16,
    ensures
        parse_num(format_num(v, b), b) == v,
{
    if v == 0 {
        let z = seq![0x30u8];
        assert(z.drop_last() =~= Seq::<u8>::empty());
        assert(parse_num(Seq::<u8>::empty(), b) == 0);
        assert(parse_num(z, b) == parse_num(z.drop_last(), b) * b + char_value(z.last()));
    } else {
        lemma_parse_rev(v, b);
    }
}

} // verus!
