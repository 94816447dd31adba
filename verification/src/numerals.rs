use vstd::prelude::*;
use vstd::string::*;

verus! {

/// `c` stands for a digit of `radix`: one of `'0'` up to `'0' + radix - 1`.
pub open spec fn is_digit(c: char, radix: int) -> bool {
    '0' as int <= c as int && (c as int) < '0' as int + radix
}

/// The numeric value of a digit character.
pub open spec fn digit_val(c: char) -> int {
    c as int - '0' as int
}

/// Every character of `s` is a digit of `radix`.
pub open spec fn all_digits(s: Seq<char>, radix: int) -> bool {
    forall|i: int| 0 <= i < s.len() ==> is_digit(#[trigger] s[i], radix)
}

/// The value of a digit string in `radix`, most significant digit first.
pub open spec fn digits_value(s: Seq<char>, radix: int) -> int
    decreases s.len(),
{
    if s.len() == 0 {
        0
    } else {
        digits_value(s.drop_last(), radix) * radix + digit_val(s.last())
    }
}

/// The digit part of a numeral: everything after an optional leading `'+'`.
pub open spec fn digit_part(s: Seq<char>) -> Seq<char> {
    if s.len() > 0 && s[0] == '+' {
        s.subrange(1, s.len() as int)
    } else {
        s
    }
}

/// `s` is an unsigned numeral in `radix`: an optional `'+'` followed by one
/// or more digits, as the platform's string-to-unsigned conversions accept.
pub open spec fn is_numeral(s: Seq<char>, radix: int) -> bool {
    digit_part(s).len() > 0 && all_digits(digit_part(s), radix)
}

/// The value of a numeral in `radix`.
pub open spec fn numeral_value(s: Seq<char>, radix: int) -> int {
    digits_value(digit_part(s), radix)
}

/// Appending one digit multiplies the value by the radix and adds the digit.
proof fn lemma_digits_value_step(s: Seq<char>, i: int, radix: int)
    requires
        0 <= i < s.len(),
    ensures
        digits_value(s.subrange(0, i + 1), radix) == digits_value(s.subrange(0, i), radix) * radix
            + digit_val(s[i]),
{
    let pre = s.subrange(0, i + 1);
    assert(pre.drop_last() =~= s.subrange(0, i));
    assert(pre.last() == s[i]);
}

/// A longer digit string in a radix of at least 2 never has a smaller value,
/// provided the digits are in range.
proof fn lemma_digits_value_grows(v: int, d: int, radix: int)
    requires
        2 <= radix,
        0 <= v,
        0 <= d,
    ensures
        v * radix + d >= v,
{
    assert(v * radix >= v) by (nonlinear_arith)
        requires
            2 <= radix,
            0 <= v,
    ;
}

/// Parses `s` as an unsigned 32-bit number written in `radix`, exactly as
/// the platform's unsigned string-to-integer conversion does: an optional
/// leading `'+'`, then one or more digits, rejecting anything else and any
/// value above `u32::MAX`.
pub fn parse_u32_radix(s: &str, radix: u32) -> (r: Option<u32>)
    requires
        2 <= radix <= 10,
    ensures
        r is Some <==> is_numeral(s@, radix as int) && numeral_value(s@, radix as int)
            <= u32::MAX,
        r is Some ==> r->0 as int == numeral_value(s@, radix as int),
{
    let n = s.unicode_len();
    let start: usize = if n > 0 && s.get_char(0) == '+' {
        1
    } else {
        0
    };
    proof {
        assert(digit_part(s@) =~= s@.subrange(start as int, n as int));
    }
    if start == n {
        return None;
    }
    let mut i: usize = start;
    let mut acc: u64 = 0;
    let mut overflow = false;
    while i < n
        invariant
            2 <= radix <= 10,
            start <= i <= n,
            n == s@.len(),
            digit_part(s@) =~= s@.subrange(start as int, n as int),
            all_digits(s@.subrange(start as int, i as int), radix as int),
            !overflow ==> acc <= u32::MAX && acc as int == digits_value(
                s@.subrange(start as int, i as int),
                radix as int,
            ),
            overflow ==> digits_value(s@.subrange(start as int, i as int), radix as int)
                > u32::MAX,
        decreases n - i,
    {
        let c = s.get_char(i);
        let v = c as u32;
        if v < 48 || v >= 48 + radix {
            proof {
                assert(!is_digit(digit_part(s@)[i - start], radix as int));
            }
            return None;
        }
        let d = v - 48;
        proof {
            assert(s@.subrange(start as int, i + 1) =~= s@.subrange(start as int, i as int).push(
                s@[i as int],
            ));
            assert(forall|j: int|
                0 <= j < i + 1 - start ==> is_digit(
                    #[trigger] s@.subrange(start as int, i + 1)[j],
                    radix as int,
                ));
            lemma_digits_value_step(s@.subrange(start as int, n as int), i - start, radix as int);
            assert(s@.subrange(start as int, n as int).subrange(0, i + 1 - start) =~= s@.subrange(
                start as int,
                i + 1,
            ));
            assert(s@.subrange(start as int, n as int).subrange(0, i - start) =~= s@.subrange(
                start as int,
                i as int,
            ));
            assert(s@.subrange(start as int, n as int)[i - start] == s@[i as int]);
        }
        let ghost old_val = digits_value(s@.subrange(start as int, i as int), radix as int);
        let ghost new_val = digits_value(s@.subrange(start as int, i + 1), radix as int);
        proof {
            assert(new_val == old_val * radix + digit_val(s@[i as int]));
            assert(digit_val(s@[i as int]) == d);
        }
        if !overflow {
            proof {
                assert(acc as int * (radix as int) + (d as int) < 0x10_0000_0000_0000)
                    by (nonlinear_arith)
                    requires
                        acc <= u32::MAX,
                        radix <= 10,
                        d < 10,
                ;
            }
            let next: u64 = acc * (radix as u64) + (d as u64);
            if next > u32::MAX as u64 {
                overflow = true;
            } else {
                acc = next;
            }
        } else {
            proof {
                lemma_digits_value_grows(old_val, d as int, radix as int);
            }
        }
        i = i + 1;
    }
    proof {
        assert(s@.subrange(start as int, i as int) =~= digit_part(s@));
    }
    if overflow {
        None
    } else {
        Some(acc as u32)
    }
}

/// The character standing for digit `d`.
pub open spec fn char_of_digit(d: int) -> char {
    if d == 0 {
        '0'
    } else if d == 1 {
        '1'
    } else if d == 2 {
        '2'
    } else if d == 3 {
        '3'
    } else if d == 4 {
        '4'
    } else if d == 5 {
        '5'
    } else if d == 6 {
        '6'
    } else if d == 7 {
        '7'
    } else if d == 8 {
        '8'
    } else {
        '9'
    }
}

/// The digits of `n` written in `radix`, most significant first, with no
/// leading zero and no sign.
pub open spec fn radix_rep(n: nat, radix: nat) -> Seq<char>
    decreases n,
    via radix_rep_decreases
{
    if radix < 2 {
        Seq::empty()
    } else if n < radix {
        seq![char_of_digit(n as int)]
    } else {
        radix_rep(n / radix, radix) + seq![char_of_digit((n % radix) as int)]
    }
}

#[via_fn]
proof fn radix_rep_decreases(n: nat, radix: nat) {
    if 2 <= radix && radix <= n {
        assert(n / radix < n) by (nonlinear_arith)
            requires
                2 <= radix,
                radix <= n,
        ;
    }
}

/// A one-character string for digit `d`.
fn digit_str(d: u32) -> (s: &'static str)
    requires
        d < 10,
    ensures
        s@ =~= seq![char_of_digit(d as int)],
{
    if d == 0 {
        proof {
            reveal_strlit("0");
        }
        "0"
    } else if d == 1 {
        proof {
            reveal_strlit("1");
        }
        "1"
    } else if d == 2 {
        proof {
            reveal_strlit("2");
        }
        "2"
    } else if d == 3 {
        proof {
            reveal_strlit("3");
        }
        "3"
    } else if d == 4 {
        proof {
            reveal_strlit("4");
        }
        "4"
    } else if d == 5 {
        proof {
            reveal_strlit("5");
        }
        "5"
    } else if d == 6 {
        proof {
            reveal_strlit("6");
        }
        "6"
    } else if d == 7 {
        proof {
            reveal_strlit("7");
        }
        "7"
    } else if d == 8 {
        proof {
            reveal_strlit("8");
        }
        "8"
    } else {
        proof {
            reveal_strlit("9");
        }
        "9"
    }
}

/// Renders `n` in `radix`, most significant digit first.
pub fn u32_to_radix(n: u32, radix: u32) -> (s: String)
    requires
        2 <= radix <= 10,
    ensures
        s@ == radix_rep(n as nat, radix as nat),
    decreases n,
{
    if n < radix {
        let s = digit_str(n).to_owned();
        proof {
            assert(s@ =~= radix_rep(n as nat, radix as nat));
        }
        s
    } else {
        proof {
            assert(n / radix < n) by (nonlinear_arith)
                requires
                    2 <= radix,
                    radix <= n,
            ;
        }
        let mut s = u32_to_radix(n / radix, radix);
        s.append(digit_str(n % radix));
        proof {
            assert(s@ =~= radix_rep(n as nat, radix as nat));
        }
        s
    }
}

/// Reading the rendered digits of `n` back in the same radix gives `n`: the
/// rendering is a genuine numeral, carries no sign, and parses to `n`.
pub proof fn lemma_radix_rep_value(n: nat, radix: nat)
    requires
        2 <= radix <= 10,
    ensures
        radix_rep(n, radix).len() > 0,
        all_digits(radix_rep(n, radix), radix as int),
        digits_value(radix_rep(n, radix), radix as int) == n,
        radix_rep(n, radix)[0] != '+',
    decreases n,
{
    let rep = radix_rep(n, radix);
    if n < radix {
        assert(digit_val(char_of_digit(n as int)) == n);
        assert(is_digit(char_of_digit(n as int), radix as int));
        assert(rep.drop_last() =~= Seq::<char>::empty());
        assert(digits_value(Seq::<char>::empty(), radix as int) == 0);
        assert(rep.last() == char_of_digit(n as int));
        assert(digits_value(rep, radix as int) == digits_value(rep.drop_last(), radix as int)
            * radix + digit_val(rep.last()));
    } else {
        lemma_radix_rep_value(n / radix, radix);
        let pre = radix_rep(n / radix, radix);
        assert(rep.drop_last() =~= pre);
        assert(rep.last() == char_of_digit((n % radix) as int));
        assert(digit_val(char_of_digit((n % radix) as int)) == n % radix);
        assert(is_digit(char_of_digit((n % radix) as int), radix as int));
        assert(digits_value(pre, radix as int) * radix + (n % radix) == n) by (nonlinear_arith)
            requires
                digits_value(pre, radix as int) == n / radix,
                2 <= radix,
        ;
        assert(forall|i: int| 0 <= i < rep.len() ==> is_digit(#[trigger] rep[i], radix as int));
    }
}

} // verus!
