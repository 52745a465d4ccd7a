//! Decimal rendering and parsing of operands: a canonical decimal form for
//! every 64-bit integer, the grammar of accepted integer literals, and the
//! proof that the two agree.

use vstd::prelude::*;

verus! {

/// True of the ASCII decimal digit bytes.
pub open spec fn is_digit(b: u8) -> bool {
    48 <= b && b <= 57
}

/// True when every byte of `s` is a decimal digit.
pub open spec fn all_digits(s: Seq<u8>) -> bool {
    forall|k: int| 0 <= k < s.len() ==> is_digit(#[trigger] s[k])
}

/// The value of a digit string, most significant digit first.
pub open spec fn digits_val(s: Seq<u8>) -> int
    decreases s.len(),
{
    if s.len() == 0 {
        0
    } else {
        digits_val(s.drop_last()) * 10 + (s.last() - 48)
    }
}

/// The digit part of an integer literal: what follows an optional sign.
pub open spec fn lit_digits(s: Seq<u8>) -> Seq<u8> {
    if s.len() > 0 && (s[0] == 43 || s[0] == 45) {
        s.drop_first()
    } else {
        s
    }
}

/// The integer literals the operand parser accepts: an optional `+` or `-`
/// sign followed by one or more decimal digits.
pub open spec fn is_int_literal(s: Seq<u8>) -> bool {
    lit_digits(s).len() > 0 && all_digits(lit_digits(s))
}

/// The value an integer literal denotes.
pub open spec fn int_literal_val(s: Seq<u8>) -> int {
    if s.len() > 0 && s[0] == 45 {
        -digits_val(lit_digits(s))
    } else {
        digits_val(lit_digits(s))
    }
}

/// The canonical decimal digit string of a natural number: no sign, no
/// leading zero except for zero itself.
pub open spec fn dec_rep(n: nat) -> Seq<u8>
    decreases n,
{
    if n < 10 {
        seq![(48 + n) as u8]
    } else {
        dec_rep(n / 10).push((48 + n % 10) as u8)
    }
}

/// The canonical decimal form of an integer: a `-` sign before the digit
/// string of the magnitude when negative.
pub open spec fn int_rep(v: int) -> Seq<u8> {
    if v < 0 {
        seq![45u8].add(dec_rep((-v) as nat))
    } else {
        dec_rep(v as nat)
    }
}

/// The canonical digit string is non-empty, all digits, and denotes the
/// number it was built from.
pub proof fn lemma_dec_rep(n: nat)
    ensures
        dec_rep(n).len() >= 1,
        all_digits(dec_rep(n)),
        digits_val(dec_rep(n)) == n,
    decreases n,
{
    if n < 10 {
        let s = seq![(48 + n) as u8];
        assert(((48 + n) as u8) as int == 48 + n);
        assert(s.drop_last() =~= Seq::<u8>::empty());
        assert(digits_val(s) == digits_val(Seq::<u8>::empty()) * 10 + (s.last() - 48));
    } else {
        lemma_dec_rep(n / 10);
        let a = dec_rep(n / 10);
        let d = (48 + n % 10) as u8;
        assert(a.push(d).drop_last() =~= a);
        assert(a.push(d).last() == d);
        assert(digits_val(dec_rep(n)) == digits_val(a) * 10 + (d - 48));
        assert(forall|k: int|
            0 <= k < a.push(d).len() ==> #[trigger] a.push(d)[k] == (if k < a.len() {
                a[k]
            } else {
                d
            }));
    }
}

/// A digit string is worth at least any of its prefixes.
pub proof fn lemma_digits_val_prefix(s: Seq<u8>, k: int)
    requires
        0 <= k <= s.len(),
        all_digits(s),
    ensures
        digits_val(s.take(k)) <= digits_val(s),
        digits_val(s) >= 0,
    decreases s.len() - k,
{
    if k == s.len() {
        assert(s.take(k) =~= s);
        lemma_digits_val_non_neg(s);
    } else {
        lemma_digits_val_prefix(s, k + 1);
        lemma_digits_val_non_neg(s.take(k));
        assert(s.take(k + 1).drop_last() =~= s.take(k));
        assert(s.take(k + 1).last() == s[k]);
        assert(digits_val(s.take(k + 1)) == digits_val(s.take(k)) * 10 + (s[k] - 48));
    }
}

pub proof fn lemma_digits_val_non_neg(s: Seq<u8>)
    requires
        all_digits(s),
    ensures
        digits_val(s) >= 0,
    decreases s.len(),
{
    if s.len() > 0 {
        assert(forall|k: int|
            0 <= k < s.drop_last().len() ==> #[trigger] s.drop_last()[k] == s[k]);
        lemma_digits_val_non_neg(s.drop_last());
    }
}

/// The decimal digit string of `n`, most significant digit first.
pub fn fmt_u64(n: u64) -> (r: Vec<u8>)
    ensures
        r@ == dec_rep(n as nat),
    decreases n,
{
    if n < 10 {
        let mut r: Vec<u8> = Vec::new();
        r.push(48 + (n as u8));
        proof {
            assert(r@ =~= seq![(48 + n as nat) as u8]);
        }
        r
    } else {
        let mut r = fmt_u64(n / 10);
        r.push(48 + ((n % 10) as u8));
        proof {
            assert(r@ =~= dec_rep((n / 10) as nat).push((48 + n as nat % 10) as u8));
            assert((n / 10) as nat == (n as nat) / 10);
        }
        r
    }
}

/// The decimal form of `v`, a `-` sign first when `v` is negative.
pub fn fmt_i64(v: i64) -> (r: Vec<u8>)
    ensures
        r@ == int_rep(v as int),
{
    if v >= 0 {
        fmt_u64(v as u64)
    } else {
        let mag: u64 = ((-(v + 1)) as u64) + 1;
        proof {
            assert(mag as int == -(v as int));
        }
        let mut r: Vec<u8> = Vec::new();
        r.push(45);
        let mut digits = fmt_u64(mag);
        r.append(&mut digits);
        proof {
            assert(r@ =~= seq![45u8].add(dec_rep(mag as nat)));
        }
        r
    }
}

/// Parses `t` as Rust parses a signed 64-bit decimal integer: an optional
/// sign and at least one digit, rejecting anything else and any value
/// outside the 64-bit range.
pub fn parse_i64(t: &Vec<u8>) -> (r: Option<i64>)
    ensures
        (r is Some) <==> (is_int_literal(t@) && i64::MIN <= int_literal_val(t@) <= i64::MAX),
        r matches Some(v) ==> v as int == int_literal_val(t@),
{
    if t.len() == 0 {
        return None;
    }
    let b0 = t[0];
    let neg = b0 == 45;
    let start: usize = if b0 == 43 || b0 == 45 {
        1
    } else {
        0
    };
    let ghost digs = lit_digits(t@);
    proof {
        assert(digs =~= t@.skip(start as int));
    }
    if start == t.len() {
        // a bare sign has no digits
        return None;
    }
    let limit: u64 = if neg {
        9223372036854775808
    } else {
        9223372036854775807
    };
    let mut acc: u64 = 0;
    let mut j: usize = start;
    while j < t.len()
        invariant
            start <= j <= t.len(),
            digs == lit_digits(t@),
            digs == t@.skip(start as int),
            digs.len() == t@.len() - start,
            start == 0 || start == 1,
            neg ==> (t@.len() > 0 && t@[0] == 45),
            !neg ==> !(t@.len() > 0 && t@[0] == 45),
            limit == if neg { 9223372036854775808u64 } else { 9223372036854775807u64 },
            all_digits(digs.take(j - start)),
            acc as int == digits_val(digs.take(j - start)),
            acc <= limit,
        decreases t.len() - j,
    {
        let b = t[j];
        proof {
            assert(digs[j - start] == t@[j as int]);
        }
        if !(48 <= b && b <= 57) {
            proof {
                assert(!is_digit(digs[j - start]));
                assert(!all_digits(digs));
                assert(!is_int_literal(t@));
            }
            return None;
        }
        let d = (b - 48) as u64;
        proof {
            let p = digs.take(j - start).push(digs[j - start]);
            assert(digs.take(j - start + 1) =~= p);
            assert(p.drop_last() =~= digs.take(j - start));
            assert(p.last() == digs[j - start]);
            assert(digits_val(p) == digits_val(digs.take(j - start)) * 10 + (b - 48));
        }
        if acc > limit / 10 || (acc == limit / 10 && d > limit % 10) {
            // too many digits: whatever follows, the value cannot fit
            proof {
                assert(limit == (limit / 10) * 10 + limit % 10);
                assert(acc * 10 + d > limit);
                if all_digits(digs) {
                    lemma_digits_val_prefix(digs, j - start + 1);
                    assert(digits_val(digs) > limit);
                    if neg {
                        assert(int_literal_val(t@) == -digits_val(digs));
                        assert(int_literal_val(t@) < i64::MIN);
                    } else {
                        assert(int_literal_val(t@) == digits_val(digs));
                        assert(int_literal_val(t@) > i64::MAX);
                    }
                } else {
                    assert(!is_int_literal(t@));
                }
            }
            return None;
        }
        proof {
            assert(limit == (limit / 10) * 10 + limit % 10);
            assert(acc * 10 + d <= limit);
        }
        acc = acc * 10 + d;
        j = j + 1;
    }
    proof {
        assert(digs.take(j - start) =~= digs);
        assert(is_int_literal(t@));
    }
    if neg {
        if acc == 9223372036854775808 {
            Some(i64::MIN)
        } else {
            Some(-(acc as i64))
        }
    } else {
        Some(acc as i64)
    }
}

/// Every 64-bit integer round-trips through its rendered decimal form:
/// the canonical form is an accepted literal and denotes the integer
/// exactly.
pub proof fn lemma_int_round_trip(v: i64)
    ensures
        is_int_literal(int_rep(v as int)),
        i64::MIN <= int_literal_val(int_rep(v as int)) <= i64::MAX,
        int_literal_val(int_rep(v as int)) == v as int,
{
    if v >= 0 {
        lemma_dec_rep(v as nat);
        let s = dec_rep(v as nat);
        assert(is_digit(s[0]));
        assert(lit_digits(s) == s);
    } else {
        let mag = (-(v as int)) as nat;
        lemma_dec_rep(mag);
        let s = seq![45u8].add(dec_rep(mag));
        assert(s[0] == 45);
        assert(s.drop_first() =~= dec_rep(mag));
        assert(int_literal_val(s) == -digits_val(dec_rep(mag)));
    }
}

} // verus!
