//! Rendering of integer sequences as readable text, the way debug
//! formatting renders a sequence: bracketed, comma-separated decimal
//! values.

use vstd::prelude::*;

verus! {

/// `[`
pub const BRACKET_OPEN: u8 = 91;

/// `]`
pub const BRACKET_CLOSE: u8 = 93;

/// `,`
pub const COMMA: u8 = 44;

/// ` `
pub const SPACE: u8 = 32;

/// `-`
pub const MINUS: u8 = 45;

/// `0`
pub const DIGIT_ZERO: u8 = 48;

/// The decimal digits of `n`, most significant first.
pub open spec fn spec_decimal_nat(n: nat) -> Seq<u8>
    decreases n,
{
    if n < 10 {
        seq![(DIGIT_ZERO + n) as u8]
    } else {
        spec_decimal_nat(n / 10).push((DIGIT_ZERO + n % 10) as u8)
    }
}

/// The decimal rendering of `n`, with a leading minus sign when it is
/// negative.
pub open spec fn spec_decimal(n: int) -> Seq<u8> {
    if n < 0 {
        seq![MINUS].add(spec_decimal_nat((-n) as nat))
    } else {
        spec_decimal_nat(n as nat)
    }
}

/// The renderings of every element after the first, each preceded by a
/// comma and a space.
pub open spec fn spec_rendered_tail(s: Seq<i32>) -> Seq<u8>
    decreases s.len(),
{
    if s.len() == 0 {
        Seq::empty()
    } else {
        seq![COMMA, SPACE] + spec_decimal(s.first() as int) + spec_rendered_tail(s.drop_first())
    }
}

/// The rendering of a whole sequence: its elements in decimal, comma
/// separated, between brackets.
pub open spec fn spec_rendered(s: Seq<i32>) -> Seq<u8> {
    if s.len() == 0 {
        seq![BRACKET_OPEN, BRACKET_CLOSE]
    } else {
        seq![BRACKET_OPEN] + spec_decimal(s.first() as int) + spec_rendered_tail(s.drop_first())
            + seq![BRACKET_CLOSE]
    }
}

/// Extending a sequence by one element appends one comma-separated
/// rendering to the rendered tail.
pub proof fn lemma_rendered_tail_push(s: Seq<i32>, x: i32)
    ensures
        spec_rendered_tail(s.push(x)) == spec_rendered_tail(s) + seq![COMMA, SPACE]
            + spec_decimal(x as int),
    decreases s.len(),
{
    reveal_with_fuel(spec_rendered_tail, 3);
    if s.len() == 0 {
        assert(s.push(x).drop_first() =~= Seq::<i32>::empty());
        assert(spec_rendered_tail(s.push(x)) =~= spec_rendered_tail(s) + seq![COMMA, SPACE]
            + spec_decimal(x as int));
    } else {
        assert(s.push(x).drop_first() =~= s.drop_first().push(x));
        lemma_rendered_tail_push(s.drop_first(), x);
        assert(spec_rendered_tail(s.push(x)) =~= spec_rendered_tail(s) + seq![COMMA, SPACE]
            + spec_decimal(x as int));
    }
}

/// Appends the decimal digits of `n` to `out`.
pub(crate) fn push_decimal_nat(out: &mut Vec<u8>, n: u32)
    ensures
        final(out)@ == old(out)@ + spec_decimal_nat(n as nat),
    decreases n,
{
    if n < 10 {
        out.push(DIGIT_ZERO + (n as u8));
    } else {
        push_decimal_nat(out, n / 10);
        out.push(DIGIT_ZERO + ((n % 10) as u8));
    }
    proof {
        assert(out@ =~= old(out)@ + spec_decimal_nat(n as nat));
    }
}

/// Appends the decimal rendering of `x` to `out`.
pub(crate) fn push_decimal(out: &mut Vec<u8>, x: i32)
    ensures
        final(out)@ == old(out)@ + spec_decimal(x as int),
{
    if x < 0 {
        out.push(MINUS);
        let wide: i64 = x as i64;
        let mag: u32 = (-wide) as u32;
        push_decimal_nat(out, mag);
        proof {
            assert(out@ =~= old(out)@ + spec_decimal(x as int));
        }
    } else {
        push_decimal_nat(out, x as u32);
    }
}

} // verus!
