//! IPv4 addresses in dotted decimal form: four octets, each written in
//! decimal without a zero in front, with dots between them.

use crate::numeral::{
    bounded_value, is_digit, lemma_numeral, lemma_numeral_without, numeral, push_number,
    read_number,
};
use crate::text::{
    join, lemma_join_contains, lemma_join_push, lemma_split_join, split, split_on,
};
use vstd::prelude::*;
use vstd::string::StringExecFns;

verus! {

/// The octet that `s` writes: one to three decimal digits, no zero in front
/// of another digit, and a number of at most 255.
pub open spec fn octet_value(s: Seq<char>) -> Option<u8> {
    if s.len() <= 3 && (s.len() > 1 ==> s[0] != '0') {
        match bounded_value(s, 10, 255) {
            Some(v) => Some(v as u8),
            None => None,
        }
    } else {
        None
    }
}

/// The four octets that `s` writes in dotted decimal form, if it is of
/// that form.
#[verifier::opaque]
pub open spec fn ipv4_value(s: Seq<char>) -> Option<Seq<u8>> {
    let parts = split(s, '.');
    if parts.len() == 4 && forall|k: int| 0 <= k < 4 ==> octet_value(#[trigger] parts[k]) is Some {
        Some(Seq::new(4, |k: int| octet_value(parts[k]).unwrap()))
    } else {
        None
    }
}

/// The decimal numerals of the octets, one piece for each.
pub open spec fn octet_texts(octets: Seq<u8>) -> Seq<Seq<char>> {
    Seq::new(octets.len(), |k: int| numeral(octets[k] as nat, 10))
}

/// The dotted decimal form of the octets.
pub open spec fn ipv4_text(octets: Seq<u8>) -> Seq<char> {
    join(octet_texts(octets), '.')
}

/// The numeral of an octet has at most three digits and reads back as the
/// octet.
pub proof fn lemma_octet_numeral(v: u8)
    ensures
        octet_value(numeral(v as nat, 10)) == Some(v),
        numeral(v as nat, 10).len() >= 1,
        !numeral(v as nat, 10).contains('.'),
        !numeral(v as nat, 10).contains(':'),
{
    let n = v as nat;
    lemma_numeral(n, 10);
    lemma_numeral_without(n, 10, '.');
    lemma_numeral_without(n, 10, ':');
    assert(numeral(n, 10).len() <= 3) by {
        reveal_with_fuel(numeral, 3);
    }
}

/// The dotted decimal form of four octets reads back as these octets.
pub proof fn lemma_ipv4_text_value(octets: Seq<u8>)
    requires
        octets.len() == 4,
    ensures
        ipv4_value(ipv4_text(octets)) == Some(octets),
        ipv4_text(octets).len() >= 1,
        !ipv4_text(octets).contains(':'),
{
    reveal(ipv4_value);
    let parts = octet_texts(octets);
    assert forall|k: int| 0 <= k < parts.len() implies !(#[trigger] parts[k]).contains('.')
        && !parts[k].contains(':') && octet_value(parts[k]) == Some(octets[k]) && parts[k].len()
        >= 1 by {
        lemma_octet_numeral(octets[k]);
    }
    lemma_split_join(parts, '.');
    lemma_join_contains(parts, '.', ':');
    let got = ipv4_value(ipv4_text(octets));
    assert(got is Some);
    assert(got.unwrap() =~= octets);
    assert(ipv4_text(octets).len() >= 1) by {
        assert(parts.drop_first().len() == 3);
        assert(parts[0].len() >= 1);
    }
}

/// The dotted decimal form holds decimal digits and dots only.
pub proof fn lemma_ipv4_text_without(octets: Seq<u8>, x: char)
    requires
        !is_digit(x, 10),
        x != '.',
    ensures
        !ipv4_text(octets).contains(x),
{
    let parts = octet_texts(octets);
    assert forall|k: int| 0 <= k < parts.len() implies !(#[trigger] parts[k]).contains(x) by {
        lemma_numeral_without(octets[k] as nat, 10, x);
    }
    lemma_join_contains(parts, '.', x);
}

/// The octet that `s` writes, if it writes one.
pub fn read_octet(s: &[char]) -> (r: Option<u8>)
    ensures
        r == octet_value(s@),
{
    if s.len() > 3 || (s.len() > 1 && s[0] == '0') {
        return None;
    }
    match read_number(s, 10, 255) {
        Some(v) => Some(v as u8),
        None => None,
    }
}

/// The four octets that `s` writes in dotted decimal form, if it is of
/// that form.
pub fn read_ipv4(s: &[char]) -> (r: Option<[u8; 4]>)
    ensures
        r matches Some(octets) ==> ipv4_value(s@) == Some(octets@),
        r is None ==> ipv4_value(s@) is None,
{
    proof {
        reveal(ipv4_value);
    }
    let parts = split_on(s, '.');
    if parts.len() != 4 {
        return None;
    }
    let ghost pieces = split(s@, '.');
    let mut octets: [u8; 4] = [0; 4];
    let mut k: usize = 0;
    while k < 4
        invariant
            k <= 4,
            pieces == split(s@, '.'),
            parts@.len() == 4,
            pieces.len() == 4,
            forall|j: int| 0 <= j < 4 ==> (#[trigger] parts@[j])@ == pieces[j],
            forall|j: int| 0 <= j < k ==> octet_value(#[trigger] pieces[j]) == Some(octets@[j]),
        decreases 4 - k,
    {
        match read_octet(parts[k]) {
            None => {
                proof {
                    reveal(ipv4_value);
                    assert(octet_value(pieces[k as int]) is None);
                }
                return None;
            },
            Some(v) => {
                octets[k] = v;
            },
        }
        k += 1;
    }
    proof {
        reveal(ipv4_value);
        assert(ipv4_value(s@).unwrap() =~= octets@);
    }
    Some(octets)
}

/// Writes the dotted decimal form of the octets at the end of `out`.
pub fn push_ipv4(out: &mut String, octets: &[u8; 4])
    ensures
        final(out)@ == old(out)@ + ipv4_text(octets@),
{
    let ghost texts = octet_texts(octets@);
    push_number(out, octets[0] as u64, 10);
    let mut k: usize = 1;
    proof {
        assert(join(texts.take(1), '.') == texts[0]);
    }
    while k < 4
        invariant
            1 <= k <= 4,
            texts == octet_texts(octets@),
            out@ == old(out)@ + join(texts.take(k as int), '.'),
        decreases 4 - k,
    {
        out.append(".");
        push_number(out, octets[k] as u64, 10);
        proof {
            reveal_strlit(".");
            let done = texts.take(k as int);
            lemma_join_push(done, texts[k as int], '.');
            assert(texts.take(k + 1) =~= done.push(texts[k as int]));
            assert("."@ =~= seq!['.']);
            assert(out@ =~= old(out)@ + (join(done, '.') + seq!['.'] + texts[k as int]));
        }
        k += 1;
    }
    proof {
        assert(texts.take(4) =~= texts);
    }
}

} // verus!
