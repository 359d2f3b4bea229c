//! Canonical decimal rendering and reading of `u32` attribute values, with
//! the facts the codec's round-trip argument rests on: the rendering is
//! injective, and reading succeeds exactly on canonically rendered values.

use vstd::prelude::*;

verus! {

/// The digit character for `d % 10`.
pub open spec fn digit_char(d: nat) -> char {
    (((d % 10) + 48) as u8) as char
}

/// The canonical decimal rendering of `n`: no sign, no leading zeros.
pub open spec fn dec_str(n: nat) -> Seq<char>
    decreases n,
{
    if n < 10 {
        seq![digit_char(n)]
    } else {
        dec_str(n / 10).push(digit_char(n % 10))
    }
}

/// Whether `s` is the canonical rendering of some `u32`.
pub open spec fn is_dec_u32(s: Seq<char>) -> bool {
    exists|k: u32| s == dec_str(k as nat)
}

pub open spec fn is_digit(c: char) -> bool {
    '0' <= c && c <= '9'
}

pub proof fn lemma_dec_str_shape(k: nat)
    ensures
        dec_str(k).len() >= 1,
        forall|i: int| 0 <= i < dec_str(k).len() ==> is_digit(#[trigger] dec_str(k)[i]),
        dec_str(k).len() > 1 ==> dec_str(k)[0] != '0',
        (dec_str(k).len() == 1) == (k < 10),
        k >= 1 ==> dec_str(k)[0] != '0',
    decreases k,
{
    if k < 10 {
        assert(is_digit(digit_char(k)));
        if k >= 1 {
            assert(digit_char(k) != '0');
        }
    } else {
        lemma_dec_str_shape(k / 10);
        assert(k / 10 >= 1);
        assert(dec_str(k)[0] == dec_str(k / 10)[0]);
    }
}

pub proof fn lemma_dec_str_injective(a: nat, b: nat)
    requires
        dec_str(a) == dec_str(b),
    ensures
        a == b,
    decreases a,
{
    lemma_dec_str_shape(a);
    lemma_dec_str_shape(b);
    if a < 10 && b < 10 {
        assert(dec_str(a)[0] == digit_char(a));
        assert(dec_str(b)[0] == digit_char(b));
        assert(a == b);
    } else if a >= 10 && b >= 10 {
        assert(dec_str(a).last() == digit_char(a % 10));
        assert(dec_str(b).last() == digit_char(b % 10));
        assert(a % 10 == b % 10);
        assert(dec_str(a).drop_last() =~= dec_str(a / 10));
        assert(dec_str(b).drop_last() =~= dec_str(b / 10));
        lemma_dec_str_injective(a / 10, b / 10);
        assert(a == 10 * (a / 10) + a % 10) by (nonlinear_arith);
        assert(b == 10 * (b / 10) + b % 10) by (nonlinear_arith);
    } else {
        assert(dec_str(a).len() == dec_str(b).len());
        assert(false);
    }
}

fn digit_char_x(d: u32) -> (c: char)
    requires
        d < 10,
    ensures
        c == digit_char(d as nat),
{
    ((d as u8) + 48) as char
}

/// Renders `n` in canonical decimal form.
pub fn u32_to_chars(n: u32) -> (r: Vec<char>)
    ensures
        r@ == dec_str(n as nat),
    decreases n,
{
    if n < 10 {
        let mut v: Vec<char> = Vec::new();
        v.push(digit_char_x(n));
        proof {
            assert(v@ =~= dec_str(n as nat));
        }
        v
    } else {
        let mut v = u32_to_chars(n / 10);
        v.push(digit_char_x(n % 10));
        v
    }
}

fn digit_val(c: char) -> (r: Option<u32>)
    ensures
        r is Some <==> is_digit(c),
        r is Some ==> r.unwrap() < 10 && digit_char(r.unwrap() as nat) == c,
{
    if '0' <= c && c <= '9' {
        let v = (c as u8) - 48;
        proof {
            assert(digit_char((v as u32) as nat) == c);
        }
        Some(v as u32)
    } else {
        None
    }
}

/// Reads a canonical decimal rendering back; `None` exactly when `s` is not
/// the canonical rendering of a `u32` (empty, a non-digit, a leading zero,
/// or a value out of range).
pub fn chars_to_u32(s: &[char], from: usize, to: usize) -> (r: Option<u32>)
    requires
        from <= to <= s@.len(),
    ensures
        r is Some <==> is_dec_u32(s@.subrange(from as int, to as int)),
        r is Some ==> s@.subrange(from as int, to as int) == dec_str(r.unwrap() as nat),
    decreases to - from,
{
    let ghost sub = s@.subrange(from as int, to as int);
    if from == to {
        proof {
            if is_dec_u32(sub) {
                let k = choose|k: u32| sub == dec_str(k as nat);
                lemma_dec_str_shape(k as nat);
            }
        }
        return None;
    }
    if to - from > 1 && s[from] == '0' {
        proof {
            if is_dec_u32(sub) {
                let k = choose|k: u32| sub == dec_str(k as nat);
                lemma_dec_str_shape(k as nat);
            }
        }
        return None;
    }
    let last = s[to - 1];
    match digit_val(last) {
        None => {
            proof {
                if is_dec_u32(sub) {
                    let k = choose|k: u32| sub == dec_str(k as nat);
                    lemma_dec_str_shape(k as nat);
                    assert(sub.last() == dec_str(k as nat)[sub.len() - 1]);
                }
            }
            None
        },
        Some(d) => {
            if to - from == 1 {
                proof {
                    assert(sub =~= dec_str(d as nat));
                }
                Some(d)
            } else {
                let ghost pre = s@.subrange(from as int, to - 1);
                proof {
                    assert(pre =~= sub.drop_last());
                    if is_dec_u32(sub) {
                        let k = choose|k: u32| sub == dec_str(k as nat);
                        lemma_dec_str_shape(k as nat);
                        assert(k >= 10);
                        assert(sub.drop_last() =~= dec_str((k / 10) as nat));
                        assert(is_dec_u32(pre));
                    }
                }
                match chars_to_u32(s, from, to - 1) {
                    Some(v) => {
                        proof {
                            assert(pre == dec_str(v as nat));
                            if is_dec_u32(sub) {
                                let k = choose|k: u32| sub == dec_str(k as nat);
                                lemma_dec_str_shape(k as nat);
                                assert(sub.drop_last() =~= dec_str((k / 10) as nat));
                                lemma_dec_str_injective(v as nat, (k / 10) as nat);
                                assert(sub.last() == digit_char((k % 10) as nat));
                                assert(d == k % 10);
                                assert(k == 10 * (k / 10) + k % 10) by (nonlinear_arith);
                                assert(10 * (v as nat) + (d as nat) == k as nat);
                            }
                        }
                        if v <= (u32::MAX - d) / 10 {
                            let r = v * 10 + d;
                            proof {
                                assert(10 * (v as nat) + (d as nat) <= u32::MAX as nat) by (nonlinear_arith)
                                    requires v as nat <= ((u32::MAX as nat - d as nat) / 10);
                                assert(v >= 1) by {
                                    lemma_dec_str_shape(v as nat);
                                    if v == 0 {
                                        assert(pre[0] == '0');
                                    }
                                };
                                assert(r as nat >= 10);
                                assert((r as nat) / 10 == v as nat && (r as nat) % 10 == d as nat)
                                    by (nonlinear_arith)
                                    requires r as nat == 10 * (v as nat) + (d as nat), (d as nat) < 10;
                                assert(dec_str(r as nat) =~= dec_str(v as nat).push(
                                    digit_char(d as nat),
                                ));
                                assert(sub =~= pre.push(sub.last()));
                                assert(sub == dec_str(r as nat));
                            }
                            Some(r)
                        } else {
                            proof {
                                if is_dec_u32(sub) {
                                    assert(10 * (v as nat) + (d as nat) <= u32::MAX as nat);
                                    assert(v as nat <= (u32::MAX as nat - d as nat) / 10)
                                        by (nonlinear_arith)
                                        requires
                                            10 * (v as nat) + (d as nat) <= u32::MAX as nat,
                                            (d as nat) < 10,
                                    ;
                                }
                            }
                            None
                        }
                    },
                    None => {
                        proof {
                            if is_dec_u32(sub) {
                                assert(is_dec_u32(pre));
                            }
                        }
                        None
                    },
                }
            }
        },
    }
}

} // verus!
