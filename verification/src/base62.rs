//! Base-62 encoding of counter values.
//!
//! The alphabet is the 62 ASCII alphanumeric characters in the order
//! lowercase, uppercase, digits. `base62_encode(0)` is the one-character
//! string holding the alphabet's first symbol; for larger inputs the
//! encoding is the usual positional representation, most significant
//! symbol first, with no padding.

use vstd::prelude::*;

verus! {

/// The `d`-th symbol of the 62-symbol alphabet: `a`..`z`, then `A`..`Z`,
/// then `0`..`9`.
pub open spec fn digit_char(d: int) -> char {
    if d < 26 {
        (('a' as int) + d) as char
    } else if d < 52 {
        (('A' as int) + (d - 26)) as char
    } else {
        (('0' as int) + (d - 52)) as char
    }
}

/// The base-62 representation of `n`, most significant symbol first.
/// `0` encodes as the single first symbol of the alphabet.
pub open spec fn encode_spec(n: nat) -> Seq<char>
    decreases n,
{
    if n < 62 {
        seq![digit_char(n as int)]
    } else {
        encode_spec(n / 62) + seq![digit_char((n % 62) as int)]
    }
}

/// Maps a value below 62 to its alphabet symbol.
fn digit_to_char(d: u64) -> (c: char)
    requires
        d < 62,
    ensures
        c == digit_char(d as int),
{
    if d < 26 {
        (97 + d as u8) as char
    } else if d < 52 {
        (65 + (d as u8 - 26)) as char
    } else {
        (48 + (d as u8 - 52)) as char
    }
}

/// Encodes `num` in base 62 over the fixed alphanumeric alphabet.
pub fn base62_encode(num: u64) -> (r: String)
    ensures
        r@ == encode_spec(num as nat),
{
    let mut digits: Vec<char> = Vec::new();
    let mut cur: u64 = num;

    if cur == 0 {
        let mut s = String::new();
        s.push(digit_to_char(0));
        assert(s@ =~= encode_spec(0));
        return s;
    }

    while cur != 0
        invariant
            cur != 0 ==> encode_spec(num as nat) == encode_spec(cur as nat) + digits@.reverse(),
            cur == 0 ==> encode_spec(num as nat) == digits@.reverse(),
        decreases cur,
    {
        let d = cur % 62;
        let c = digit_to_char(d);
        proof {
            if cur >= 62 {
                assert(encode_spec(cur as nat) == encode_spec((cur / 62) as nat) + seq![
                    digit_char((cur % 62) as int),
                ]);
                assert(encode_spec((cur / 62) as nat) + digits@.push(c).reverse()
                    =~= encode_spec(cur as nat) + digits@.reverse());
                assert(cur / 62 != 0) by (nonlinear_arith)
                    requires
                        cur >= 62,
                ;
            } else {
                assert(cur % 62 == cur as int);
                assert(encode_spec(cur as nat) =~= seq![digit_char(cur as int)]);
                assert(digits@.push(c).reverse() =~= encode_spec(cur as nat) + digits@.reverse());
            }
        }
        digits.push(c);
        cur = cur / 62;
    }

    let mut s = String::new();
    let mut i: usize = digits.len();
    while i > 0
        invariant
            i <= digits@.len(),
            s@ =~= digits@.reverse().take(digits@.len() - i),
        decreases i,
    {
        i = i - 1;
        s.push(digits[i]);
        proof {
            assert(digits@.reverse().take(digits@.len() - i)
                =~= digits@.reverse().take(digits@.len() - (i + 1)).push(digits@[i as int]));
        }
    }
    proof {
        assert(digits@.reverse().take(digits@.len() - 0) =~= digits@.reverse());
    }
    s
}

/// A symbol of the alphabet.
pub open spec fn is_b62_char(c: char) -> bool {
    (97 <= c as int <= 122) || (65 <= c as int <= 90) || (48 <= c as int <= 57)
}

/// The value of an alphabet symbol: the inverse of `digit_char`.
pub open spec fn digit_val(c: char) -> int {
    if 97 <= c as int <= 122 {
        c as int - 97
    } else if 65 <= c as int <= 90 {
        c as int - 65 + 26
    } else {
        c as int - 48 + 52
    }
}

/// The value of a digit string, most significant symbol first.
pub open spec fn decode_spec(s: Seq<char>) -> int
    decreases s.len(),
{
    if s.len() == 0 {
        0
    } else {
        decode_spec(s.drop_last()) * 62 + digit_val(s.last())
    }
}

/// A string the encoder could have produced: non-empty, alphabet symbols
/// only, and no padding with the zero symbol.
pub open spec fn canonical_encoding(s: Seq<char>) -> bool {
    &&& s.len() >= 1
    &&& forall|m: int| 0 <= m < s.len() ==> is_b62_char(#[trigger] s[m])
    &&& s.len() > 1 ==> s[0] != digit_char(0)
}

/// An encoding always has at least one symbol.
pub proof fn lemma_encode_len_pos(n: nat)
    ensures
        encode_spec(n).len() >= 1,
    decreases n,
{
    if n >= 62 {
        lemma_encode_len_pos(n / 62);
    }
}

/// Distinct digit values map to distinct alphabet symbols.
pub proof fn lemma_digit_char_injective(d1: int, d2: int)
    requires
        0 <= d1 < 62,
        0 <= d2 < 62,
        digit_char(d1) == digit_char(d2),
    ensures
        d1 == d2,
{
}

/// Law: the encoding never gets shorter as the encoded value grows.
pub proof fn lemma_encode_len_monotone(n1: nat, n2: nat)
    requires
        n1 <= n2,
    ensures
        encode_spec(n1).len() <= encode_spec(n2).len(),
    decreases n2,
{
    if n2 >= 62 {
        if n1 < 62 {
            lemma_encode_len_pos(n2 / 62);
        } else {
            assert(n1 / 62 <= n2 / 62) by (nonlinear_arith)
                requires
                    n1 <= n2,
            ;
            lemma_encode_len_monotone(n1 / 62, n2 / 62);
        }
    }
}

/// Law: multiplying the value by the base makes the encoding strictly
/// longer, so the length grows without bound in the value.
pub proof fn lemma_encode_len_strictly_grows(n: nat)
    requires
        n >= 1,
    ensures
        encode_spec(62 * n).len() == encode_spec(n).len() + 1,
{
    assert((62 * n) / 62 == n && (62 * n) % 62 == 0) by (nonlinear_arith)
        requires
            n >= 1,
    ;
    assert(62 * n >= 62) by (nonlinear_arith)
        requires
            n >= 1,
    ;
}

/// Law: the encoding is injective; two values with the same encoding
/// are the same value.
pub proof fn lemma_encode_injective(n1: nat, n2: nat)
    requires
        encode_spec(n1) == encode_spec(n2),
    ensures
        n1 == n2,
    decreases n1 + n2,
{
    if n1 < 62 && n2 < 62 {
        assert(encode_spec(n1)[0] == digit_char(n1 as int));
        assert(encode_spec(n2)[0] == digit_char(n2 as int));
        lemma_digit_char_injective(n1 as int, n2 as int);
    } else if n1 < 62 && n2 >= 62 {
        lemma_encode_len_pos(n2 / 62);
        assert(encode_spec(n1).len() == 1);
        assert(encode_spec(n2).len() == encode_spec(n2 / 62).len() + 1);
        assert(false);
    } else if n1 >= 62 && n2 < 62 {
        lemma_encode_len_pos(n1 / 62);
        assert(encode_spec(n2).len() == 1);
        assert(encode_spec(n1).len() == encode_spec(n1 / 62).len() + 1);
        assert(false);
    } else {
        let s1 = encode_spec(n1);
        let s2 = encode_spec(n2);
        assert(s1.last() == digit_char((n1 % 62) as int));
        assert(s2.last() == digit_char((n2 % 62) as int));
        lemma_digit_char_injective((n1 % 62) as int, (n2 % 62) as int);
        assert(encode_spec(n1 / 62) =~= s1.take(s1.len() - 1));
        assert(encode_spec(n2 / 62) =~= s2.take(s2.len() - 1));
        lemma_encode_injective(n1 / 62, n2 / 62);
        assert(n1 == 62 * (n1 / 62) + n1 % 62) by (nonlinear_arith);
        assert(n2 == 62 * (n2 / 62) + n2 % 62) by (nonlinear_arith);
    }
}

/// Decodes a base-62 string: the inverse of `base62_encode`. Answers
/// `Some` exactly for the strings the encoder produces from a 64-bit
/// value — non-empty, alphabet symbols only, no zero-symbol padding, and
/// a value that fits.
pub fn base62_decode(s: &str) -> (r: Option<u64>)
    ensures
        match r {
            Some(n) => s@ == encode_spec(n as nat),
            None => forall|n: u64| s@ != encode_spec(n as nat),
        },
{
    let len = s.unicode_len();
    if len == 0 {
        proof {
            assert forall|n: u64| s@ != encode_spec(n as nat) by {
                lemma_encode_len_pos(n as nat);
            }
        }
        return None;
    }
    if len > 1 && s.get_char(0) as u32 == 97 {
        proof {
            assert(s@[0] == digit_char(0));
            assert forall|n: u64| s@ != encode_spec(n as nat) by {
                if s@ == encode_spec(n as nat) {
                    if n < 62 {
                        assert(encode_spec(n as nat).len() == 1);
                    } else {
                        lemma_decode_encode(n as nat);
                    }
                }
            }
        }
        return None;
    }
    let mut v: u64 = 0;
    let mut k: usize = 0;
    while k < len
        invariant
            len == s@.len(),
            len >= 1,
            k <= len,
            forall|m: int| 0 <= m < k ==> is_b62_char(#[trigger] s@[m]),
            v == decode_spec(s@.take(k as int)),
        decreases len - k,
    {
        let c = s.get_char(k);
        let u = c as u32;
        let d: u64 = if 97 <= u && u <= 122 {
            (u - 97) as u64
        } else if 65 <= u && u <= 90 {
            (u - 65 + 26) as u64
        } else if 48 <= u && u <= 57 {
            (u - 48 + 52) as u64
        } else {
            proof {
                assert(!is_b62_char(s@[k as int]));
                assert forall|n: u64| s@ != encode_spec(n as nat) by {
                    if s@ == encode_spec(n as nat) {
                        lemma_decode_encode(n as nat);
                    }
                }
            }
            return None;
        };
        proof {
            assert(d == digit_val(s@[k as int]));
            assert(is_b62_char(s@[k as int]));
        }
        if v > (u64::MAX - d) / 62 {
            proof {
                assert(v * 62 + d > u64::MAX) by (nonlinear_arith)
                    requires
                        v > (u64::MAX - d) / 62,
                        0 <= d < 62,
                ;
                assert(s@.take(k + 1).drop_last() =~= s@.take(k as int));
                assert(s@.take(k + 1).last() == s@[k as int]);
                assert(decode_spec(s@.take(k + 1)) == v * 62 + d);
                assert forall|n: u64| s@ != encode_spec(n as nat) by {
                    if s@ == encode_spec(n as nat) {
                        lemma_decode_encode(n as nat);
                        lemma_decode_prefix_le(s@, k + 1);
                    }
                }
            }
            return None;
        }
        proof {
            assert(v * 62 + d <= u64::MAX) by (nonlinear_arith)
                requires
                    v <= (u64::MAX - d) / 62,
                    0 <= d < 62,
            ;
            assert(s@.take(k + 1).drop_last() =~= s@.take(k as int));
            assert(s@.take(k + 1).last() == s@[k as int]);
        }
        v = v * 62 + d;
        k = k + 1;
    }
    proof {
        assert(s@.take(len as int) =~= s@);
        assert(canonical_encoding(s@));
        lemma_encode_decode(s@);
    }
    Some(v)
}

/// A digit string's value is non-negative.
pub proof fn lemma_decode_nonneg(s: Seq<char>)
    requires
        forall|m: int| 0 <= m < s.len() ==> is_b62_char(#[trigger] s[m]),
    ensures
        decode_spec(s) >= 0,
    decreases s.len(),
{
    if s.len() > 0 {
        let p = s.drop_last();
        assert(forall|m: int| 0 <= m < p.len() ==> #[trigger] p[m] == s[m]);
        lemma_decode_nonneg(p);
        assert(decode_spec(p) * 62 + digit_val(s.last()) >= 0) by (nonlinear_arith)
            requires
                decode_spec(p) >= 0,
                digit_val(s.last()) >= 0,
        ;
    }
}

/// Reading more digits never shrinks the value.
pub proof fn lemma_decode_prefix_le(s: Seq<char>, j: int)
    requires
        0 <= j <= s.len(),
        forall|m: int| 0 <= m < s.len() ==> is_b62_char(#[trigger] s[m]),
    ensures
        decode_spec(s.take(j)) <= decode_spec(s),
    decreases s.len() - j,
{
    if j == s.len() {
        assert(s.take(j) =~= s);
    } else {
        let p = s.take(j);
        let q = s.take(j + 1);
        assert(q.drop_last() =~= p);
        assert(q.last() == s[j]);
        assert(forall|m: int| 0 <= m < p.len() ==> #[trigger] p[m] == s[m]);
        lemma_decode_nonneg(p);
        assert(decode_spec(p) * 62 + digit_val(s[j]) >= decode_spec(p)) by (nonlinear_arith)
            requires
                decode_spec(p) >= 0,
                digit_val(s[j]) >= 0,
        ;
        lemma_decode_prefix_le(s, j + 1);
    }
}

/// Law: decoding undoes encoding. Every encoding is canonical, its value
/// is the encoded value, and a positive value never starts with the zero
/// symbol.
pub proof fn lemma_decode_encode(n: nat)
    ensures
        canonical_encoding(encode_spec(n)),
        decode_spec(encode_spec(n)) == n,
        n >= 1 ==> encode_spec(n)[0] != digit_char(0),
    decreases n,
{
    if n < 62 {
        let s = encode_spec(n);
        assert(s.drop_last() =~= Seq::<char>::empty());
        assert(decode_spec(Seq::<char>::empty()) == 0);
        assert(s.last() == digit_char(n as int));
        assert(digit_val(digit_char(n as int)) == n);
        if n >= 1 && s[0] == digit_char(0) {
            lemma_digit_char_injective(n as int, 0);
        }
    } else {
        lemma_decode_encode(n / 62);
        let p = encode_spec(n / 62);
        let s = encode_spec(n);
        assert(s.drop_last() =~= p);
        assert(s.last() == digit_char((n % 62) as int));
        assert(digit_val(digit_char((n % 62) as int)) == n % 62);
        assert(n == 62 * (n / 62) + n % 62) by (nonlinear_arith);
        assert(decode_spec(s) == decode_spec(p) * 62 + (n % 62));
        assert forall|m: int| 0 <= m < s.len() implies is_b62_char(#[trigger] s[m]) by {
            if m < p.len() {
                assert(s[m] == p[m]);
            } else {
                assert(s[m] == digit_char((n % 62) as int));
            }
        }
        assert(s[0] == p[0]);
        lemma_encode_len_pos(n / 62);
        assert(s.len() > 1);
    }
}

/// Law: encoding undoes decoding on canonical digit strings.
pub proof fn lemma_encode_decode(s: Seq<char>)
    requires
        canonical_encoding(s),
        decode_spec(s) <= u64::MAX,
    ensures
        encode_spec(decode_spec(s) as nat) == s,
    decreases s.len(),
{
    lemma_decode_nonneg(s);
    if s.len() == 1 {
        assert(s.drop_last() =~= Seq::<char>::empty());
        assert(decode_spec(Seq::<char>::empty()) == 0);
        assert(s.last() == s[0]);
        assert(decode_spec(s) == digit_val(s[0]));
        assert(digit_char(digit_val(s[0])) == s[0]);
        assert(encode_spec(decode_spec(s) as nat) =~= s);
    } else {
        let p = s.drop_last();
        let d = digit_val(s.last());
        assert(forall|m: int| 0 <= m < p.len() ==> #[trigger] p[m] == s[m]);
        lemma_decode_nonneg(p);
        let q = decode_spec(p);
        // the prefix is itself canonical, and its value is at least one,
        // so the whole value reaches the recursive case of the encoder
        assert(canonical_encoding(p));
        if p.len() == 1 {
            assert(p.drop_last() =~= Seq::<char>::empty());
            assert(decode_spec(Seq::<char>::empty()) == 0);
            assert(p.last() == p[0]);
            assert(q == digit_val(p[0]));
            assert(p[0] == s[0]);
            if q == 0 {
                assert(digit_char(digit_val(s[0])) == s[0]);
                assert(s[0] == digit_char(0));
            }
        } else {
            assert(q <= q * 62 + d) by (nonlinear_arith)
                requires
                    q >= 0,
                    d >= 0,
            ;
            lemma_encode_decode(p);
            lemma_encode_len_pos(q as nat);
            if q < 62 {
                assert(encode_spec(q as nat).len() == 1);
                assert(false);
            }
        }
        assert(q >= 1);
        assert(q <= q * 62 + d) by (nonlinear_arith)
            requires
                q >= 0,
                d >= 0,
        ;
        lemma_encode_decode(p);
        let v = decode_spec(s);
        assert(v == q * 62 + d);
        assert(v >= 62 && v / 62 == q && v % 62 == d) by (nonlinear_arith)
            requires
                q >= 1,
                0 <= d < 62,
                v == q * 62 + d,
        ;
        assert(digit_char(digit_val(s.last())) == s.last());
        assert(encode_spec(v as nat) =~= encode_spec(q as nat) + seq![digit_char(d)]);
        assert(encode_spec(v as nat) =~= s);
    }
}

} // verus!
