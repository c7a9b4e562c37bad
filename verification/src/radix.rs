//! Positional encoding of unsigned integers with the digit alphabet
//! `0`-`9` then `a`-`z`, most-significant digit first, no padding.
//!
//! A short key is the creation timestamp in milliseconds written in this
//! notation with radix 36.

use vstd::prelude::*;
use vstd::arithmetic::div_mod::lemma_div_is_ordered;
use vstd::arithmetic::div_mod::lemma_div_is_strictly_smaller;
use vstd::arithmetic::div_mod::lemma_fundamental_div_mod;
use vstd::string::StringExecFns;

verus! {

/// The character that stands for the digit value `d`: `0`-`9` for values
/// below ten, then `a`-`z`.
pub open spec fn digit_char(d: nat) -> char
    recommends
        d < 36,
{
    if d < 10 {
        (48 + d) as char
    } else {
        (87 + d) as char
    }
}

/// The digit value a character stands for; the inverse of `digit_char`
/// on digit values below 36.
pub open spec fn char_digit(c: char) -> nat {
    if (c as nat) < 87 {
        ((c as nat) - 48) as nat
    } else {
        ((c as nat) - 87) as nat
    }
}

/// The digit values of `x` in base `radix`, most significant first.
pub open spec fn radix_digits(x: nat, radix: nat) -> Seq<nat>
    recommends
        2 <= radix <= 36,
    decreases x,
        when 2 <= radix via radix_digits_decreases
{
    if x < radix {
        seq![x]
    } else {
        radix_digits(x / radix, radix).push(x % radix)
    }
}

#[via_fn]
proof fn radix_digits_decreases(x: nat, radix: nat) {
    if x >= radix {
        lemma_div_is_strictly_smaller(x as int, radix as int);
    }
}

/// The textual form of `x` in base `radix`: its digits, each replaced by
/// the character that stands for it.
pub open spec fn encode(x: nat, radix: nat) -> Seq<char>
    recommends
        2 <= radix <= 36,
{
    radix_digits(x, radix).map_values(|d: nat| digit_char(d))
}

/// The number a digit string denotes in base `radix`.
pub open spec fn decode(s: Seq<char>, radix: nat) -> nat
    decreases s.len(),
{
    if s.len() == 0 {
        0
    } else {
        decode(s.drop_last(), radix) * radix + char_digit(s.last())
    }
}

/// The radix actually used by `format_radix`: the argument forced into
/// the inclusive range [2, 36].
pub open spec fn clamp_radix(radix: u32) -> nat {
    if radix < 2 {
        2
    } else if radix > 36 {
        36
    } else {
        radix as nat
    }
}

/// The digit values of a rendered digit buffer, as mathematical naturals.
pub open spec fn digit_seq(s: Seq<u32>) -> Seq<nat> {
    s.map_values(|d: u32| d as nat)
}

/// The one-character string for the digit value `d`.
fn digit_str(d: u32) -> (r: &'static str)
    requires
        d < 36,
    ensures
        r@ == seq![digit_char(d as nat)],
{
    let r = match d {
        0 => "0",
        1 => "1",
        2 => "2",
        3 => "3",
        4 => "4",
        5 => "5",
        6 => "6",
        7 => "7",
        8 => "8",
        9 => "9",
        10 => "a",
        11 => "b",
        12 => "c",
        13 => "d",
        14 => "e",
        15 => "f",
        16 => "g",
        17 => "h",
        18 => "i",
        19 => "j",
        20 => "k",
        21 => "l",
        22 => "m",
        23 => "n",
        24 => "o",
        25 => "p",
        26 => "q",
        27 => "r",
        28 => "s",
        29 => "t",
        30 => "u",
        31 => "v",
        32 => "w",
        33 => "x",
        34 => "y",
        _ => "z",
    };
    proof {
        reveal_strlit("0");
        reveal_strlit("1");
        reveal_strlit("2");
        reveal_strlit("3");
        reveal_strlit("4");
        reveal_strlit("5");
        reveal_strlit("6");
        reveal_strlit("7");
        reveal_strlit("8");
        reveal_strlit("9");
        reveal_strlit("a");
        reveal_strlit("b");
        reveal_strlit("c");
        reveal_strlit("d");
        reveal_strlit("e");
        reveal_strlit("f");
        reveal_strlit("g");
        reveal_strlit("h");
        reveal_strlit("i");
        reveal_strlit("j");
        reveal_strlit("k");
        reveal_strlit("l");
        reveal_strlit("m");
        reveal_strlit("n");
        reveal_strlit("o");
        reveal_strlit("p");
        reveal_strlit("q");
        reveal_strlit("r");
        reveal_strlit("s");
        reveal_strlit("t");
        reveal_strlit("u");
        reveal_strlit("v");
        reveal_strlit("w");
        reveal_strlit("x");
        reveal_strlit("y");
        reveal_strlit("z");
        assert(r@ =~= seq![digit_char(d as nat)]);
    }
    r
}

/// Writes `x` in base `radix`, most-significant digit first, with no
/// leading-zero padding; zero is written as the single character `0`.
/// The radix is forced into the inclusive range [2, 36].
pub fn format_radix(x: u128, radix: u32) -> (r: String)
    ensures
        r@ == encode(x as nat, clamp_radix(radix)),
{
    let ghost x0: nat = x as nat;
    let rad32: u32 = if radix < 2 {
        2
    } else if radix > 36 {
        36
    } else {
        radix
    };
    let rad: u128 = rad32 as u128;
    proof {
        assert(rad as nat == clamp_radix(radix));
    }
    let mut rem = x;
    let mut digits: Vec<u32> = Vec::new();
    while rem >= rad
        invariant
            2 <= rad <= 36,
            radix_digits(x0, rad as nat) =~= radix_digits(rem as nat, rad as nat)
                + digit_seq(digits@).reverse(),
            forall|i: int| 0 <= i < digits@.len() ==> digits@[i] < 36,
        decreases rem,
    {
        let m: u32 = (rem % rad) as u32;
        let next = rem / rad;
        proof {
            lemma_div_is_strictly_smaller(rem as int, rad as int);
            assert(radix_digits(rem as nat, rad as nat)
                =~= radix_digits(next as nat, rad as nat).push(rem as nat % rad as nat));
            assert(digit_seq(digits@.push(m)) =~= digit_seq(digits@).push(m as nat));
            assert(digit_seq(digits@).push(m as nat).reverse()
                =~= seq![m as nat] + digit_seq(digits@).reverse());
            assert(radix_digits(next as nat, rad as nat).push(rem as nat % rad as nat)
                + digit_seq(digits@).reverse()
                =~= radix_digits(next as nat, rad as nat)
                    + (seq![m as nat] + digit_seq(digits@).reverse()));
        }
        digits.push(m);
        rem = next;
    }
    proof {
        assert(radix_digits(rem as nat, rad as nat) =~= seq![rem as nat]);
        assert(digit_seq(digits@.push(rem as u32)).reverse()
            =~= seq![rem as nat] + digit_seq(digits@).reverse());
        assert(radix_digits(x0, rad as nat) =~= digit_seq(digits@.push(rem as u32)).reverse());
    }
    digits.push(rem as u32);
    let ghost target: Seq<char> = digit_seq(digits@).reverse().map_values(|d: nat| digit_char(d));
    proof {
        assert(target =~= encode(x0, rad as nat));
    }
    let mut s = String::new();
    let mut i: usize = digits.len();
    while i > 0
        invariant
            i <= digits@.len(),
            forall|j: int| 0 <= j < digits@.len() ==> digits@[j] < 36,
            target == digit_seq(digits@).reverse().map_values(|d: nat| digit_char(d)),
            s@ =~= target.take(digits@.len() - i),
        decreases i,
    {
        i = i - 1;
        let d = digits[i];
        let piece = digit_str(d);
        proof {
            let k = digits@.len() - 1 - i;
            assert(target[k] == digit_char(digits@[i as int] as nat));
            assert(s@ + piece@ =~= target.take(digits@.len() - i));
        }
        s.append(piece);
    }
    proof {
        assert(s@ =~= target.take(digits@.len() as int));
        assert(s@ =~= target);
        assert(s@ == encode(x as nat, clamp_radix(radix)));
    }
    s
}

/// Round trip: reading back the digit string written for `x` yields `x`
/// again, for every `x` and every radix in the supported range; in
/// particular zero is written as `0`, not as the empty string.
pub proof fn lemma_radix_round_trip(x: nat, radix: nat)
    requires
        2 <= radix <= 36,
    ensures
        decode(encode(x, radix), radix) == x,
        encode(x, radix).len() >= 1,
    decreases x,
{
    let e = encode(x, radix);
    if x < radix {
        assert(radix_digits(x, radix) =~= seq![x]);
        assert(e =~= seq![digit_char(x)]);
        assert(e.last() == digit_char(x));
        assert(e.len() == 1);
        assert(e.drop_last() =~= Seq::<char>::empty());
        assert(decode(e.drop_last(), radix) == 0);
        assert(decode(e, radix) == decode(e.drop_last(), radix) * radix + char_digit(e.last()));
        assert(decode(e, radix) == char_digit(digit_char(x)));
        lemma_char_digit_inverse(x);
    } else {
        lemma_div_is_strictly_smaller(x as int, radix as int);
        lemma_radix_round_trip(x / radix, radix);
        let p = encode(x / radix, radix);
        assert(e =~= p.push(digit_char(x % radix)));
        assert(e.last() == digit_char(x % radix));
        assert(e.drop_last() =~= p);
        assert(decode(e, radix) == decode(p, radix) * radix + char_digit(e.last()));
        lemma_char_digit_inverse(x % radix);
        assert(decode(e, radix) == (x / radix) * radix + (x % radix));
        assert((x / radix) * radix + (x % radix) == x) by {
            lemma_fundamental_div_mod(x as int, radix as int);
        }
    }
}

/// Zero is written as the single digit `0`, never as the empty string.
pub proof fn lemma_zero_encodes_as_zero(radix: nat)
    requires
        2 <= radix <= 36,
    ensures
        encode(0, radix) =~= seq!['0'],
{
    assert(radix_digits(0, radix) =~= seq![0nat]);
    assert(digit_char(0) == '0');
}

/// A digit character reads back as the digit value it was written for.
proof fn lemma_char_digit_inverse(d: nat)
    requires
        d < 36,
    ensures
        char_digit(digit_char(d)) == d,
{
}

/// `a` sorts strictly before `b` among strings of equal length: at the
/// first position where the two differ, `a` holds the smaller character.
pub open spec fn lex_before(a: Seq<char>, b: Seq<char>) -> bool
    recommends
        a.len() == b.len(),
{
    exists|i: int|
        0 <= i < a.len() && i < b.len() && a.take(i) == b.take(i) && a[i] < b[i]
}

/// A smaller digit value is written as a smaller character: the alphabet
/// `0`-`9` then `a`-`z` is ordered.
proof fn lemma_digit_char_monotone(d1: nat, d2: nat)
    requires
        d1 < d2 < 36,
    ensures
        digit_char(d1) < digit_char(d2),
{
}

/// Of two numbers whose digit strings come out equally long, the smaller
/// number's string sorts strictly first: on keys of equal digit count --
/// and only there, since the encoding has no fixed width -- chronological
/// order and lexicographic order agree.
pub proof fn lemma_equal_length_keys_sort_chronologically(x1: nat, x2: nat, radix: nat)
    requires
        2 <= radix <= 36,
        x1 < x2,
        encode(x1, radix).len() == encode(x2, radix).len(),
    ensures
        lex_before(encode(x1, radix), encode(x2, radix)),
    decreases x2,
{
    let e1 = encode(x1, radix);
    let e2 = encode(x2, radix);
    if x2 < radix {
        assert(radix_digits(x1, radix) =~= seq![x1]);
        assert(radix_digits(x2, radix) =~= seq![x2]);
        lemma_digit_char_monotone(x1, x2);
        assert(e1[0] == digit_char(x1));
        assert(e2[0] == digit_char(x2));
        assert(e1.take(0) =~= e2.take(0));
        assert(0 <= 0 < e1.len() && 0 < e2.len() && e1.take(0) == e2.take(0) && e1[0] < e2[0]);
    } else if x1 < radix {
        // Impossible under equal lengths: x1 is one digit, x2 at least two.
        let q2 = x2 / radix;
        assert(radix_digits(x2, radix) == radix_digits(q2, radix).push(x2 % radix));
        assert(radix_digits(q2, radix).len() >= 1) by {
            if q2 < radix {
            } else {
            }
        }
        assert(radix_digits(x1, radix) =~= seq![x1]);
        assert(false);
    } else {
        let q1 = x1 / radix;
        let q2 = x2 / radix;
        let m1 = x1 % radix;
        let m2 = x2 % radix;
        assert(radix_digits(x1, radix) == radix_digits(q1, radix).push(m1));
        assert(radix_digits(x2, radix) == radix_digits(q2, radix).push(m2));
        let p1 = encode(q1, radix);
        let p2 = encode(q2, radix);
        assert(e1 =~= p1.push(digit_char(m1)));
        assert(e2 =~= p2.push(digit_char(m2)));
        lemma_div_is_ordered(x1 as int, x2 as int, radix as int);
        if q1 == q2 {
            lemma_fundamental_div_mod(x1 as int, radix as int);
            lemma_fundamental_div_mod(x2 as int, radix as int);
            assert(m1 < m2);
            lemma_digit_char_monotone(m1, m2);
            let last = e1.len() - 1;
            assert(e1.take(last) =~= p1);
            assert(e2.take(last) =~= p2);
            assert(e1[last] == digit_char(m1));
            assert(e2[last] == digit_char(m2));
            assert(0 <= last < e1.len() && last < e2.len() && e1.take(last) == e2.take(last)
                && e1[last] < e2[last]);
        } else {
            lemma_div_is_strictly_smaller(x2 as int, radix as int);
            lemma_equal_length_keys_sort_chronologically(q1, q2, radix);
            let i = choose|i: int|
                0 <= i < p1.len() && i < p2.len() && p1.take(i) == p2.take(i) && p1[i] < p2[i];
            assert(e1.take(i) =~= p1.take(i));
            assert(e2.take(i) =~= p2.take(i));
            assert(e1[i] == p1[i]);
            assert(e2[i] == p2[i]);
            assert(0 <= i < e1.len() && i < e2.len() && e1.take(i) == e2.take(i) && e1[i] < e2[i]);
        }
    }
}

} // verus!
