use vstd::prelude::*;

verus! {

/// Decimal digits of `n`, most significant first.
pub open spec fn spec_dec(n: nat) -> Seq<u8>
    decreases n,
{
    if n < 10 {
        seq![(48 + n) as u8]
    } else {
        spec_dec(n / 10).push((48 + n % 10) as u8)
    }
}

pub open spec fn is_digit(b: u8) -> bool {
    48 <= b <= 57
}

pub open spec fn all_digits(s: Seq<u8>) -> bool {
    forall|i: int| 0 <= i < s.len() ==> is_digit(#[trigger] s[i])
}

/// Numeric value of a digit string, most significant first.
pub open spec fn dec_val(s: Seq<u8>) -> int
    decreases s.len(),
{
    if s.len() == 0 {
        0
    } else {
        dec_val(s.subrange(0, s.len() - 1)) * 10 + (s[s.len() - 1] - 48)
    }
}

/// Largest length a frame may declare: lengths are parsed as 32-bit signed decimals.
pub open spec fn spec_len_max() -> int {
    0x7fffffff
}

/// What parsing a length word as a signed decimal yields: the value if the word
/// is an optional minus sign followed by digits and the magnitude fits a 32-bit
/// signed integer, nothing otherwise.
pub open spec fn spec_parse_dec(word: Seq<u8>) -> Option<int> {
    if word.len() == 0 {
        Option::None
    } else if word[0] == 45 {
        let d = word.subrange(1, word.len() as int);
        if d.len() > 0 && all_digits(d) && dec_val(d) <= spec_len_max() {
            Option::Some(-dec_val(d))
        } else {
            Option::None
        }
    } else {
        if all_digits(word) && dec_val(word) <= spec_len_max() {
            Option::Some(dec_val(word))
        } else {
            Option::None
        }
    }
}

pub proof fn lemma_spec_dec_digits(n: nat)
    ensures
        spec_dec(n).len() >= 1,
        all_digits(spec_dec(n)),
    decreases n,
{
    if n >= 10 {
        lemma_spec_dec_digits(n / 10);
    }
}

pub proof fn lemma_dec_val_spec_dec(n: nat)
    ensures
        dec_val(spec_dec(n)) == n,
    decreases n,
{
    if n < 10 {
        assert(spec_dec(n).subrange(0, 0) =~= Seq::<u8>::empty());
        assert(dec_val(Seq::<u8>::empty()) == 0);
    } else {
        lemma_dec_val_spec_dec(n / 10);
        let s = spec_dec(n / 10);
        let w = spec_dec(n);
        assert(w.subrange(0, w.len() - 1) =~= s);
    }
}

/// The value of a digit string only grows as digits are appended.
pub proof fn lemma_dec_val_prefix(s: Seq<u8>, k: int)
    requires
        all_digits(s),
        0 <= k <= s.len(),
    ensures
        dec_val(s.subrange(0, k)) <= dec_val(s),
        dec_val(s) >= 0,
    decreases s.len(),
{
    if s.len() == 0 {
        assert(s.subrange(0, k) =~= s);
    } else {
        let p = s.subrange(0, s.len() - 1);
        assert(all_digits(p));
        lemma_dec_val_prefix(p, if k <= p.len() { k } else { p.len() as int });
        if k == s.len() {
            assert(s.subrange(0, k) =~= s);
        } else {
            assert(s.subrange(0, k) =~= p.subrange(0, k));
        }
    }
}

/// What parsing an unsigned decimal word yields: the value if the word is all
/// digits and fits an unsigned 64-bit integer, nothing otherwise.
pub open spec fn spec_parse_u64(word: Seq<u8>) -> Option<u64> {
    if word.len() > 0 && all_digits(word) && dec_val(word) <= 0xffff_ffff_ffff_ffff {
        Option::Some(dec_val(word) as u64)
    } else {
        Option::None
    }
}

/// Parses a whole buffer as an unsigned decimal, exactly as `spec_parse_u64`
/// says.
#[verifier::loop_isolation(false)]
pub fn parse_u64(buf: &Vec<u8>) -> (r: Option<u64>)
    ensures
        r == spec_parse_u64(buf@),
{
    if buf.len() == 0 {
        return Option::None;
    }
    let mut acc: u64 = 0;
    let mut i: usize = 0;
    while i < buf.len()
        invariant
            i <= buf@.len(),
            all_digits(buf@.subrange(0, i as int)),
            acc == dec_val(buf@.subrange(0, i as int)),
        decreases buf@.len() - i,
    {
        let b = buf[i];
        if b < 48 || b > 57 {
            proof {
                assert(!is_digit(buf@[i as int]));
                assert(!all_digits(buf@));
            }
            return Option::None;
        }
        let d = (b - 48) as u64;
        proof {
            assert(buf@.subrange(0, i + 1).subrange(0, i as int) =~= buf@.subrange(0, i as int));
            assert(buf@.subrange(0, i + 1).last() == b);
        }
        if acc > (0xffff_ffff_ffff_ffffu64 - d) / 10 {
            proof {
                let p = buf@.subrange(0, i + 1);
                assert(dec_val(p) == acc * 10 + d);
                assert(acc * 10 + d > 0xffff_ffff_ffff_ffff) by (nonlinear_arith)
                    requires
                        acc > (0xffff_ffff_ffff_ffffu64 - d) / 10,
                        d <= 9,
                {
                }
                if all_digits(buf@) {
                    lemma_dec_val_prefix(buf@, i + 1);
                    assert(p =~= buf@.subrange(0, i + 1));
                }
            }
            return Option::None;
        }
        proof {
            assert(acc * 10 + d <= 0xffff_ffff_ffff_ffff) by (nonlinear_arith)
                requires
                    acc <= (0xffff_ffff_ffff_ffffu64 - d) / 10,
                    d <= 9,
            {
            }
        }
        acc = acc * 10 + d;
        i += 1;
    }
    proof {
        assert(buf@.subrange(0, buf@.len() as int) =~= buf@);
    }
    Option::Some(acc)
}

/// A successfully parsed length word is bounded by the 32-bit signed range.
pub proof fn lemma_parse_dec_bound(word: Seq<u8>)
    ensures
        (spec_parse_dec(word) matches Option::Some(v)
            ==> -spec_len_max() <= v <= spec_len_max()),
{
    if word.len() > 0 {
        if word[0] == 45 {
            let d = word.subrange(1, word.len() as int);
            if d.len() > 0 && all_digits(d) {
                lemma_dec_val_prefix(d, 0);
            }
        } else {
            if all_digits(word) {
                lemma_dec_val_prefix(word, 0);
            }
        }
    }
}

/// Appends the decimal rendering of `n` to `out`.
pub fn push_decimal(out: &mut Vec<u8>, n: u64)
    ensures
        final(out)@ == old(out)@ + spec_dec(n as nat),
    decreases n,
{
    if n < 10 {
        out.push(48 + n as u8);
        assert(final(out)@ =~= old(out)@ + spec_dec(n as nat));
    } else {
        push_decimal(out, n / 10);
        out.push(48 + (n % 10) as u8);
        assert(final(out)@ =~= old(out)@ + spec_dec(n as nat));
    }
}

/// Parses `buf[from..to]` as a signed decimal, exactly as `spec_parse_dec` says.
pub fn parse_decimal_range(buf: &Vec<u8>, from: usize, to: usize) -> (r: Option<i64>)
    requires
        from <= to <= buf.len(),
    ensures
        (match r {
            Option::Some(x) => spec_parse_dec(buf@.subrange(from as int, to as int))
                == Option::Some(x as int),
            Option::None => spec_parse_dec(buf@.subrange(from as int, to as int)) is None,
        }),
{
    let ghost word = buf@.subrange(from as int, to as int);
    if from == to {
        return Option::None;
    }
    let negative = buf[from] == 45;
    let start: usize = if negative { from + 1 } else { from };
    let ghost digits = buf@.subrange(start as int, to as int);
    proof {
        assert(word[0] == buf@[from as int]);
        if negative {
            assert(digits =~= word.subrange(1, word.len() as int));
        } else {
            assert(digits =~= word);
        }
    }
    if start == to {
        return Option::None;
    }
    let ghost expected = (if all_digits(digits) && dec_val(digits) <= spec_len_max() {
        Option::Some(if negative { -dec_val(digits) } else { dec_val(digits) })
    } else {
        Option::None
    });
    proof {
        assert(spec_parse_dec(word) == expected);
    }
    let mut acc: u64 = 0;
    let mut i: usize = start;
    while i < to
        invariant
            start <= i <= to <= buf.len(),
            word == buf@.subrange(from as int, to as int),
            digits == buf@.subrange(start as int, to as int),
            spec_parse_dec(word) == (if all_digits(digits) && dec_val(digits) <= spec_len_max() {
                Option::Some(if negative { -dec_val(digits) } else { dec_val(digits) })
            } else {
                Option::None
            }),
            all_digits(buf@.subrange(start as int, i as int)),
            acc == dec_val(buf@.subrange(start as int, i as int)),
            acc <= spec_len_max(),
        decreases to - i,
    {
        let b = buf[i];
        if b < 48 || b > 57 {
            proof {
                assert(digits[i - start] == buf@[i as int]);
                assert(!all_digits(digits));
                assert(spec_parse_dec(word) is None);
            }
            return Option::None;
        }
        let next = acc * 10 + (b - 48) as u64;
        proof {
            assert(buf@.subrange(start as int, i + 1).subrange(0, i - start)
                =~= buf@.subrange(start as int, i as int));
            assert(buf@.subrange(start as int, i + 1).last() == b);
        }
        if next > 0x7fffffff {
            proof {
                let p = buf@.subrange(start as int, i + 1);
                assert(p.len() == i + 1 - start);
                assert(p[p.len() - 1] == buf@[i as int]);
                assert(dec_val(p) == acc * 10 + (b - 48));
                if all_digits(digits) {
                    lemma_dec_val_prefix(digits, i + 1 - start);
                    assert(p =~= digits.subrange(0, i + 1 - start));
                    assert(dec_val(digits) >= dec_val(p));
                }
                assert(spec_parse_dec(word) is None);
            }
            return Option::None;
        }
        acc = next;
        i += 1;
    }
    proof {
        assert(buf@.subrange(start as int, to as int) =~= digits);
    }
    if negative {
        Option::Some(-(acc as i64))
    } else {
        Option::Some(acc as i64)
    }
}

} // verus!
