//! The hint-code mathematics: the minimal code length for a page, the evenly
//! spaced numeric values assigned to page slots, their fixed-width base-n
//! encoding over the alphabet, and the uniqueness of the resulting codes.
use vstd::arithmetic::div_mod::{
    lemma_div_by_self, lemma_div_is_ordered, lemma_fundamental_div_mod,
    lemma_mod_division_less_than_divisor, lemma_small_mod,
};
use vstd::arithmetic::mul::{
    lemma_mul_inequality, lemma_mul_nonnegative, lemma_mul_strict_inequality,
    lemma_mul_upper_bound,
};
use vstd::arithmetic::power::{lemma_pow0, lemma_pow1, lemma_pow_adds, lemma_pow_positive, pow};
use vstd::arithmetic::power2::{lemma2_to64, lemma_pow2_strictly_increases, pow2};
use vstd::prelude::*;

verus! {

/// No symbol repeats in the alphabet.
pub open spec fn distinct_chars(s: Seq<char>) -> bool {
    forall|i: int, j: int| 0 <= i < j < s.len() ==> s[i] != s[j]
}

/// `l` is the code length for a page of `m` slots over `n` symbols: the
/// smallest length, at least 1, whose code space `n^l` covers the page.
pub open spec fn is_hint_len(m: int, n: int, l: nat) -> bool {
    &&& l >= 1
    &&& pow(n, l) >= m
    &&& (l == 1 || pow(n, (l - 1) as nat) < m)
}

/// The fixed-width base-`n` code of `value`, most significant digit first,
/// with the alphabet as the digit set.
pub open spec fn encode(value: int, n: int, l: nat, alphabet: Seq<char>) -> Seq<char>
    decreases l,
{
    if l == 0 {
        Seq::empty()
    } else {
        encode(value / n, n, (l - 1) as nat, alphabet) + seq![alphabet[value % n]]
    }
}

/// The numeric value assigned to page slot `i` on a page of `m` slots with
/// code length `l` over `n` symbols: slots are spaced evenly through the
/// whole code space.
pub open spec fn hint_value(i: int, m: int, n: int, l: nat) -> int {
    (i * (pow(n, l) / m)) % pow(n, l)
}

/// The hint code of page slot `i` on a page of `m` slots.
pub open spec fn hint_code_at(i: int, m: int, l: nat, alphabet: Seq<char>) -> Seq<char> {
    encode(hint_value(i, m, alphabet.len() as int, l), alphabet.len() as int, l, alphabet)
}

/// A code has exactly its width in characters.
pub proof fn lemma_encode_len(value: int, n: int, l: nat, alphabet: Seq<char>)
    ensures
        encode(value, n, l, alphabet).len() == l,
    decreases l,
{
    if l > 0 {
        lemma_encode_len(value / n, n, (l - 1) as nat, alphabet);
    }
}

/// Distinct values below `n^l` get distinct codes, over a distinct alphabet
/// of exactly `n` symbols.
pub proof fn lemma_encode_injective(v1: int, v2: int, n: int, l: nat, alphabet: Seq<char>)
    requires
        2 <= n,
        alphabet.len() == n,
        distinct_chars(alphabet),
        0 <= v1 < pow(n, l),
        0 <= v2 < pow(n, l),
        v1 != v2,
    ensures
        encode(v1, n, l, alphabet) != encode(v2, n, l, alphabet),
    decreases l,
{
    if l == 0 {
        lemma_pow0(n);
        assert(false);
    } else {
        let d1 = v1 % n;
        let d2 = v2 % n;
        let q1 = v1 / n;
        let q2 = v2 / n;
        lemma_fundamental_div_mod(v1, n);
        lemma_fundamental_div_mod(v2, n);
        lemma_mod_division_less_than_divisor(v1, n);
        lemma_mod_division_less_than_divisor(v2, n);
        let e1 = encode(v1, n, l, alphabet);
        let e2 = encode(v2, n, l, alphabet);
        let a1 = encode(q1, n, (l - 1) as nat, alphabet);
        let a2 = encode(q2, n, (l - 1) as nat, alphabet);
        lemma_encode_len(q1, n, (l - 1) as nat, alphabet);
        lemma_encode_len(q2, n, (l - 1) as nat, alphabet);
        if d1 != d2 {
            assert(e1.last() == alphabet[d1]);
            assert(e2.last() == alphabet[d2]);
            if d1 < d2 {
                assert(alphabet[d1] != alphabet[d2]);
            } else {
                assert(alphabet[d2] != alphabet[d1]);
            }
            assert(e1 != e2);
        } else {
            assert(q1 != q2);
            // quotients stay below the shrunken code space
            lemma_pow1(n);
            lemma_pow_adds(n, 1, (l - 1) as nat);
            assert(pow(n, l) == n * pow(n, (l - 1) as nat));
            lemma_pow_positive(n, (l - 1) as nat);
            assert(q1 < pow(n, (l - 1) as nat)) by {
                vstd::arithmetic::div_mod::lemma_multiply_divide_lt(
                    v1,
                    n,
                    pow(n, (l - 1) as nat),
                );
            }
            assert(q2 < pow(n, (l - 1) as nat)) by {
                vstd::arithmetic::div_mod::lemma_multiply_divide_lt(
                    v2,
                    n,
                    pow(n, (l - 1) as nat),
                );
            }
            assert(q1 >= 0) by {
                vstd::arithmetic::div_mod::lemma_div_pos_is_pos(v1, n);
            }
            assert(q2 >= 0) by {
                vstd::arithmetic::div_mod::lemma_div_pos_is_pos(v2, n);
            }
            lemma_encode_injective(q1, q2, n, (l - 1) as nat, alphabet);
            if e1 == e2 {
                assert(e1.subrange(0, l - 1) =~= a1);
                assert(e2.subrange(0, l - 1) =~= a2);
                assert(false);
            }
        }
    }
}

/// The code length is unique: two lengths both minimal for the same page
/// and alphabet are equal.
pub proof fn lemma_is_hint_len_unique(m: int, n: int, l1: nat, l2: nat)
    requires
        2 <= n,
        is_hint_len(m, n, l1),
        is_hint_len(m, n, l2),
    ensures
        l1 == l2,
{
    if l1 < l2 {
        assert(l2 >= 2);
        if l1 < l2 - 1 {
            vstd::arithmetic::power::lemma_pow_strictly_increases(
                n as nat,
                l1,
                (l2 - 1) as nat,
            );
        }
        assert(pow(n, (l2 - 1) as nat) >= pow(n, l1));
        assert(false);
    }
    if l2 < l1 {
        assert(l1 >= 2);
        if l2 < l1 - 1 {
            vstd::arithmetic::power::lemma_pow_strictly_increases(
                n as nat,
                l2,
                (l1 - 1) as nat,
            );
        }
        assert(pow(n, (l1 - 1) as nat) >= pow(n, l2));
        assert(false);
    }
}

/// The code length for a page of `m` slots over `n` symbols.
pub open spec fn spec_hint_len(m: int, n: int) -> nat {
    choose|l: nat| is_hint_len(m, n, l)
}

/// Any witness of `is_hint_len` is the code length.
pub proof fn lemma_hint_len_agrees(m: int, n: int, l: nat)
    requires
        2 <= n,
        is_hint_len(m, n, l),
    ensures
        spec_hint_len(m, n) == l,
{
    assert(exists|k: nat| is_hint_len(m, n, k));
    lemma_is_hint_len_unique(m, n, spec_hint_len(m, n), l);
}

/// The hint codes of a whole page of `m` slots, slot by slot.
pub open spec fn spec_page_hints(m: int, alphabet: Seq<char>) -> Seq<Seq<char>> {
    Seq::new(
        if m >= 0 {
            m as nat
        } else {
            0
        },
        |i: int| hint_code_at(i, m, spec_hint_len(m, alphabet.len() as int), alphabet),
    )
}

/// The spacing `n^l / m` is at least 1 and `m` spacings fit in the code
/// space.
pub proof fn lemma_spacing(m: int, n: int, l: nat)
    requires
        1 <= m,
        2 <= n,
        pow(n, l) >= m,
    ensures
        1 <= pow(n, l) / m,
        m * (pow(n, l) / m) <= pow(n, l),
{
    let total = pow(n, l);
    lemma_pow_positive(n, l);
    lemma_div_is_ordered(m, total, m);
    lemma_div_by_self(m);
    lemma_fundamental_div_mod(total, m);
    lemma_mod_division_less_than_divisor(total, m);
}

/// Slot values are the plain products `i * spacing`: they stay inside the
/// code space, so the modulus does not wrap them.
pub proof fn lemma_hint_value_plain(i: int, m: int, n: int, l: nat)
    requires
        1 <= m,
        2 <= n,
        pow(n, l) >= m,
        0 <= i < m,
    ensures
        hint_value(i, m, n, l) == i * (pow(n, l) / m),
        0 <= hint_value(i, m, n, l) < pow(n, l),
{
    let total = pow(n, l);
    let sp = total / m;
    lemma_spacing(m, n, l);
    lemma_mul_nonnegative(i, sp);
    lemma_mul_inequality(i, m - 1, sp);
    assert((m - 1) * sp == m * sp - sp) by (nonlinear_arith);
    assert(i * sp < total);
    lemma_small_mod((i * sp) as nat, total as nat);
}

/// Hint uniqueness: on a page of `m` slots over an alphabet of `n` distinct
/// symbols, any two slots receive different codes, and every code has the
/// same length `l`.
pub proof fn lemma_hint_codes_unique(m: int, l: nat, alphabet: Seq<char>, i: int, j: int)
    requires
        1 <= m,
        2 <= alphabet.len(),
        distinct_chars(alphabet),
        pow(alphabet.len() as int, l) >= m,
        0 <= i < j < m,
    ensures
        hint_code_at(i, m, l, alphabet) != hint_code_at(j, m, l, alphabet),
        hint_code_at(i, m, l, alphabet).len() == l,
        hint_code_at(j, m, l, alphabet).len() == l,
{
    let n = alphabet.len() as int;
    let total = pow(n, l);
    let sp = total / m;
    lemma_spacing(m, n, l);
    lemma_hint_value_plain(i, m, n, l);
    lemma_hint_value_plain(j, m, n, l);
    lemma_mul_strict_inequality(i, j, sp);
    lemma_encode_injective(hint_value(i, m, n, l), hint_value(j, m, n, l), n, l, alphabet);
    lemma_encode_len(hint_value(i, m, n, l), n, l, alphabet);
    lemma_encode_len(hint_value(j, m, n, l), n, l, alphabet);
}

/// The code length for a page of `m` slots over `n` symbols, together with
/// the size `n^l` of the code space.
pub fn hint_params(m: usize, n: usize) -> (r: (usize, u128))
    requires
        1 <= m,
        2 <= n,
    ensures
        is_hint_len(m as int, n as int, r.0 as nat),
        r.1 == pow(n as int, r.0 as nat),
{
    let mut l: usize = 1;
    let mut total: u128 = n as u128;
    proof {
        lemma_pow1(n as int);
        lemma2_to64();
    }
    while total < m as u128
        invariant
            1 <= l,
            2 <= n,
            1 <= m,
            total == pow(n as int, l as nat),
            l == 1 || pow(n as int, (l - 1) as nat) < m,
            total >= pow2(l as nat),
        decreases (if total < m as u128 {
            m as int - total as int
        } else {
            0int
        }),
    {
        proof {
            lemma2_to64();
            // the code space doubles at least each step, so the length stays
            // far below the width of u128
            assert(m as u128 <= u64::MAX as u128);
            if l >= 64 {
                if l > 64 {
                    lemma_pow2_strictly_increases(64, l as nat);
                }
                assert(pow2(l as nat) >= pow2(64));
                assert(false);
            }
            lemma_mul_upper_bound(total as int, u64::MAX as int, n as int, u64::MAX as int);
            assert(total as int * n as int <= u64::MAX as int * u64::MAX as int);
            assert(u64::MAX as int * u64::MAX as int <= u128::MAX as int) by (nonlinear_arith);
            lemma_pow1(n as int);
            lemma_pow_adds(n as int, l as nat, 1);
            assert(pow(n as int, (l + 1) as nat) == pow(n as int, l as nat) * n);
            lemma_pow_positive(n as int, l as nat);
            assert(pow2((l + 1) as nat) == 2 * pow2(l as nat)) by {
                vstd::arithmetic::power2::lemma_pow2_unfold((l + 1) as nat);
            }
            assert(total as int * n as int >= 2 * pow2(l as nat)) by (nonlinear_arith)
                requires
                    total >= pow2(l as nat),
                    n >= 2,
                    total >= 1,
            ;
            assert(total as int * n as int >= 2 * total as int) by (nonlinear_arith)
                requires
                    n >= 2,
                    total >= 1,
            ;
            assert(n * pow(n as int, l as nat) == pow(n as int, l as nat) * n as int)
                by (nonlinear_arith);
        }
        total = total * (n as u128);
        l = l + 1;
    }
    (l, total)
}

} // verus!
