//! Numerals: numbers written with digits, in radix ten or sixteen.

use vstd::prelude::*;
use vstd::string::StringExecFns;

verus! {

/// What the digit `c` counts for: `c` is a decimal digit or one of the
/// letters `a` to `f`, in either case.
pub open spec fn digit_value(c: char) -> Option<nat> {
    if '0' <= c <= '9' {
        Some((c as nat - '0' as nat) as nat)
    } else if 'a' <= c <= 'f' {
        Some((c as nat - 'a' as nat + 10) as nat)
    } else if 'A' <= c <= 'F' {
        Some((c as nat - 'A' as nat + 10) as nat)
    } else {
        None
    }
}

/// `c` is a digit of `radix`.
pub open spec fn is_digit(c: char, radix: nat) -> bool {
    digit_value(c) matches Some(d) && d < radix
}

/// The digit that counts for `d`, a letter in lower case from ten on.
pub open spec fn digit_char(d: nat) -> char {
    if d < 10 {
        ('0' as nat + d) as char
    } else {
        ('a' as nat + d - 10) as char
    }
}

/// `s` is one digit of `radix` or more.
pub open spec fn is_numeral(s: Seq<char>, radix: nat) -> bool {
    s.len() > 0 && forall|i: int| 0 <= i < s.len() ==> is_digit(#[trigger] s[i], radix)
}

/// The number that the digits `s` write in `radix`, the first digit
/// counting most.
pub open spec fn numeral_value(s: Seq<char>, radix: nat) -> nat
    decreases s.len(),
{
    if s.len() == 0 {
        0
    } else {
        numeral_value(s.drop_last(), radix) * radix + match digit_value(s.last()) {
            Some(d) => d,
            None => 0,
        }
    }
}

/// The number that `s` writes in `radix`, where `s` is a numeral and the
/// number is at most `max`. Zeros in front are accepted.
pub open spec fn bounded_value(s: Seq<char>, radix: nat, max: nat) -> Option<nat> {
    if is_numeral(s, radix) && numeral_value(s, radix) <= max {
        Some(numeral_value(s, radix))
    } else {
        None
    }
}

/// The shortest numeral for `n` in `radix`: no zero in front, letters in
/// lower case.
pub open spec fn numeral(n: nat, radix: nat) -> Seq<char>
    decreases n,
    via numeral_decreases
{
    if radix < 2 || n < radix {
        seq![digit_char(n)]
    } else {
        numeral(n / radix, radix).push(digit_char(n % radix))
    }
}

#[via_fn]
proof fn numeral_decreases(n: nat, radix: nat) {
    if radix >= 2 && n >= radix {
        vstd::arithmetic::div_mod::lemma_div_decreases(n as int, radix as int);
    }
}

/// The shortest numeral is a numeral for its number, with no zero in front
/// of another digit.
pub proof fn lemma_numeral(n: nat, radix: nat)
    requires
        2 <= radix <= 16,
    ensures
        is_numeral(numeral(n, radix), radix),
        numeral_value(numeral(n, radix), radix) == n,
        numeral(n, radix).len() > 1 ==> numeral(n, radix)[0] != '0',
        numeral(n, radix).len() == 1 ==> n < radix,
    decreases n,
{
    let s = numeral(n, radix);
    if n < radix {
        assert(s.drop_last() =~= Seq::<char>::empty());
        assert(digit_value(digit_char(n)) == Some(n));
        assert(numeral_value(s.drop_last(), radix) == 0);
        assert(numeral_value(s, radix) == 0 * radix + n);
    } else {
        let q = n / radix;
        let r = n % radix;
        let t = numeral(q, radix);
        lemma_numeral(q, radix);
        assert(s.drop_last() =~= t);
        assert(s.last() == digit_char(r));
        assert(digit_value(digit_char(r)) == Some(r));
        assert(q * radix + r == n) by {
            vstd::arithmetic::div_mod::lemma_fundamental_div_mod(n as int, radix as int);
            assert(q * radix == radix * q) by (nonlinear_arith);
        }
        assert(q >= 1) by (nonlinear_arith)
            requires
                n >= radix,
                radix >= 2,
                q == n / radix,
        ;
        assert forall|i: int| 0 <= i < s.len() implies is_digit(#[trigger] s[i], radix) by {
            if i < t.len() {
                assert(s[i] == t[i]);
            }
        }
        assert(s[0] == t[0]);
        if t.len() == 1 {
            assert(t[0] == digit_char(q));
        }
    }
}

/// A character that is no digit of the radix does not occur in a numeral.
pub proof fn lemma_numeral_without(n: nat, radix: nat, x: char)
    requires
        2 <= radix <= 16,
        !is_digit(x, radix),
    ensures
        !numeral(n, radix).contains(x),
{
    lemma_numeral(n, radix);
    let s = numeral(n, radix);
    if s.contains(x) {
        let i = choose|i: int| 0 <= i < s.len() && s[i] == x;
        assert(is_digit(s[i], radix));
    }
}

/// What a numeral writes does not shrink as digits follow.
pub proof fn lemma_value_prefix(s: Seq<char>, radix: nat, k: int)
    requires
        0 <= k <= s.len(),
        radix >= 1,
    ensures
        numeral_value(s.take(k), radix) <= numeral_value(s, radix),
    decreases s.len() - k,
{
    if k < s.len() {
        lemma_value_prefix(s, radix, k + 1);
        let t = s.take(k + 1);
        assert(t.drop_last() =~= s.take(k));
        let a = numeral_value(s.take(k), radix);
        assert(a * radix >= a) by (nonlinear_arith)
            requires
                radix >= 1,
                a >= 0,
        ;
    } else {
        assert(s.take(k) =~= s);
    }
}

/// What the digit `c` counts for, where it is a digit of `radix`.
pub fn read_digit(c: char, radix: u32) -> (r: Option<u32>)
    requires
        radix <= 16,
    ensures
        r matches Some(d) ==> is_digit(c, radix as nat) && digit_value(c) == Some(d as nat),
        r is None ==> !is_digit(c, radix as nat),
{
    let d: u32 = if '0' <= c && c <= '9' {
        c as u32 - '0' as u32
    } else if 'a' <= c && c <= 'f' {
        c as u32 - 'a' as u32 + 10
    } else if 'A' <= c && c <= 'F' {
        c as u32 - 'A' as u32 + 10
    } else {
        return None;
    };
    if d < radix {
        Some(d)
    } else {
        None
    }
}

/// The number that `s` writes in `radix`, where `s` is a numeral for a
/// number of at most `max`.
pub fn read_number(s: &[char], radix: u32, max: u32) -> (r: Option<u32>)
    requires
        2 <= radix <= 16,
    ensures
        r matches Some(v) ==> bounded_value(s@, radix as nat, max as nat) == Some(v as nat),
        r is None ==> bounded_value(s@, radix as nat, max as nat) is None,
{
    if s.len() == 0 {
        return None;
    }
    let mut acc: u64 = 0;
    let mut i: usize = 0;
    while i < s.len()
        invariant
            0 <= i <= s@.len(),
            2 <= radix <= 16,
            acc <= max,
            acc == numeral_value(s@.take(i as int), radix as nat),
            forall|k: int| 0 <= k < i ==> is_digit(#[trigger] s@[k], radix as nat),
        decreases s@.len() - i,
    {
        match read_digit(s[i], radix) {
            None => {
                return None;
            },
            Some(d) => {
                assert(acc * radix <= 0xffff_ffff * 16) by (nonlinear_arith)
                    requires
                        acc <= 0xffff_ffff,
                        radix <= 16,
                ;
                let next: u64 = acc * (radix as u64) + (d as u64);
                proof {
                    let t = s@.take(i + 1);
                    assert(t.drop_last() =~= s@.take(i as int));
                    assert(t.last() == s@[i as int]);
                    assert(next == numeral_value(t, radix as nat));
                }
                if next > max as u64 {
                    proof {
                        lemma_value_prefix(s@, radix as nat, i + 1);
                    }
                    return None;
                }
                acc = next;
            },
        }
        i += 1;
    }
    proof {
        assert(s@.take(i as int) =~= s@);
    }
    Some(acc as u32)
}

/// The digit that counts for `d`, as a text of one character.
pub fn digit_text(d: u32) -> (t: &'static str)
    requires
        d < 16,
    ensures
        t@ == seq![digit_char(d as nat)],
{
    proof {
        reveal_strlit("0");
        reveal_strlit("1");
        reveal_strlit("2");
        reveal_strlit("3");
        reveal_strlit("4");
        reveal_strlit("5");
        reveal_strlit("6");
        reveal_strlit("7");
        reveal_strlit("8");
        reveal_strlit("9");
        reveal_strlit("a");
        reveal_strlit("b");
        reveal_strlit("c");
        reveal_strlit("d");
        reveal_strlit("e");
        reveal_strlit("f");
    }
    let t: &'static str = match d {
        0 => "0",
        1 => "1",
        2 => "2",
        3 => "3",
        4 => "4",
        5 => "5",
        6 => "6",
        7 => "7",
        8 => "8",
        9 => "9",
        10 => "a",
        11 => "b",
        12 => "c",
        13 => "d",
        14 => "e",
        _ => "f",
    };
    assert(t@ =~= seq![digit_char(d as nat)]);
    t
}

/// Writes the shortest numeral for `n` in `radix` at the end of `out`.
pub fn push_number(out: &mut String, n: u64, radix: u32)
    requires
        2 <= radix <= 16,
    ensures
        final(out)@ == old(out)@ + numeral(n as nat, radix as nat),
    decreases n,
{
    let r: u64 = radix as u64;
    if n >= r {
        proof {
            vstd::arithmetic::div_mod::lemma_div_decreases(n as int, radix as int);
        }
        push_number(out, n / r, radix);
    }
    out.append(digit_text((n % r) as u32));
    proof {
        let last = digit_char((n % r) as nat);
        if n >= r {
            let head = numeral((n / r) as nat, radix as nat);
            assert((n / r) as nat == (n as nat) / (radix as nat));
            assert((n % r) as nat == (n as nat) % (radix as nat));
            assert(numeral(n as nat, radix as nat) == head.push(last));
            assert(old(out)@ + head + seq![last] =~= old(out)@ + head.push(last));
        } else {
            vstd::arithmetic::div_mod::lemma_small_mod(n as nat, radix as nat);
            assert(numeral(n as nat, radix as nat) == seq![last]);
        }
    }
}

} // verus!
