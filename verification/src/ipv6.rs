//! IPv6 addresses in text: eight groups of sixteen bits, each written with
//! up to four hexadecimal digits, with colons between them. One `::` may
//! stand for one group of zeros or more, and the last two groups may be
//! written as an IPv4 address in dotted decimal form.

use crate::ipv4::{
    ipv4_text, ipv4_value, lemma_ipv4_text_value, lemma_ipv4_text_without, push_ipv4, read_ipv4,
};
use crate::numeral::{
    bounded_value, is_digit, is_numeral, lemma_numeral, lemma_numeral_without, numeral,
    numeral_value, push_number, read_number,
};
use crate::text::{
    find_pair, index_of_pair, join, lemma_concat_without, lemma_index_of_pair,
    lemma_join_contains, lemma_join_no_pair, lemma_join_push, lemma_split_first,
    lemma_split_join, lemma_split_whole, pair_at, split, split_on,
};
use vstd::prelude::*;
use vstd::string::StringExecFns;

verus! {

/// The group that `s` writes: one to four hexadecimal digits.
pub open spec fn group_value(s: Seq<char>) -> Option<u16> {
    if s.len() <= 4 {
        match bounded_value(s, 16, 0xffff) {
            Some(v) => Some(v as u16),
            None => None,
        }
    } else {
        None
    }
}

/// The groups that the pieces write, where each piece writes one.
pub open spec fn groups_value(parts: Seq<Seq<char>>) -> Option<Seq<u16>> {
    if forall|k: int| 0 <= k < parts.len() ==> group_value(#[trigger] parts[k]) is Some {
        Some(Seq::new(parts.len(), |k: int| group_value(parts[k]).unwrap()))
    } else {
        None
    }
}

/// The two groups that hold four octets.
pub open spec fn octet_groups(octets: Seq<u8>) -> Seq<u16> {
    seq![
        (octets[0] as nat * 256 + octets[1] as nat) as u16,
        (octets[2] as nat * 256 + octets[3] as nat) as u16,
    ]
}

/// The four octets that two groups hold.
pub open spec fn group_octets(high: u16, low: u16) -> Seq<u8> {
    seq![(high / 256) as u8, (high % 256) as u8, (low / 256) as u8, (low % 256) as u8]
}

/// The groups written on one side of `::`, or by a text without `::`.
/// An empty text writes no group. Otherwise the pieces between the colons
/// write one group each; where `v4_last` holds, the last piece may be an
/// IPv4 address instead, which writes two.
#[verifier::opaque]
pub open spec fn side_value(s: Seq<char>, v4_last: bool) -> Option<Seq<u16>> {
    if s.len() == 0 {
        Some(Seq::empty())
    } else {
        let parts = split(s, ':');
        if v4_last && ipv4_value(parts.last()) is Some {
            match groups_value(parts.drop_last()) {
                Some(groups) => Some(groups + octet_groups(ipv4_value(parts.last()).unwrap())),
                None => None,
            }
        } else {
            groups_value(parts)
        }
    }
}

/// `n` groups of zero.
pub open spec fn zeros(n: nat) -> Seq<u16> {
    Seq::new(n, |k: int| 0u16)
}

/// The eight groups that `s` writes, if it is an IPv6 address. With `::`
/// in it, the groups before and after are at most seven, none of those
/// before is written as an IPv4 address, and zeros fill the gap. Without,
/// all eight are written.
#[verifier::opaque]
pub open spec fn ipv6_value(s: Seq<char>) -> Option<Seq<u16>> {
    let i = index_of_pair(s, ':');
    if 0 <= i < s.len() {
        match (side_value(s.take(i), false), side_value(s.skip(i + 2), true)) {
            (Some(head), Some(tail)) => if head.len() + tail.len() <= 7 {
                Some(head + zeros((8 - head.len() - tail.len()) as nat) + tail)
            } else {
                None
            },
            _ => None,
        }
    } else {
        match side_value(s, true) {
            Some(groups) => if groups.len() == 8 {
                Some(groups)
            } else {
                None
            },
            None => None,
        }
    }
}

/// How many groups of zero follow one another from position `i` on.
pub open spec fn zero_run(groups: Seq<u16>, i: int) -> nat
    decreases groups.len() - i,
{
    if 0 <= i < groups.len() && groups[i] == 0 {
        1 + zero_run(groups, i + 1)
    } else {
        0
    }
}

/// Among the positions below `n`, the one from which the longest run of
/// zeros starts; of several such, the first.
pub open spec fn longest_zero_run(groups: Seq<u16>, n: int) -> int
    decreases n,
{
    if n <= 0 {
        0
    } else {
        let best = longest_zero_run(groups, n - 1);
        if zero_run(groups, n - 1) > zero_run(groups, best) {
            n - 1
        } else {
            best
        }
    }
}

/// The shortest hexadecimal numerals of the groups, one piece for each.
pub open spec fn group_texts(groups: Seq<u16>) -> Seq<Seq<char>> {
    Seq::new(groups.len(), |k: int| numeral(groups[k] as nat, 16))
}

/// The groups in hexadecimal with colons between them.
pub open spec fn groups_text(groups: Seq<u16>) -> Seq<char> {
    join(group_texts(groups), ':')
}

/// The address holds an IPv4 address behind five groups of zero and one
/// of ones.
pub open spec fn is_v4_mapped(groups: Seq<u16>) -> bool {
    &&& groups.len() == 8
    &&& groups[0] == 0
    &&& groups[1] == 0
    &&& groups[2] == 0
    &&& groups[3] == 0
    &&& groups[4] == 0
    &&& groups[5] == 0xffff
}

/// The text of an IPv6 address. An address that holds an IPv4 address is
/// written as `::ffff:` and that address in dotted decimal form. In any
/// other, `::` stands for the longest run of two or more groups of zero,
/// and the other groups are written in hexadecimal.
#[verifier::opaque]
pub open spec fn ipv6_text(groups: Seq<u16>) -> Seq<char> {
    if is_v4_mapped(groups) {
        seq![':', ':', 'f', 'f', 'f', 'f', ':'] + ipv4_text(group_octets(groups[6], groups[7]))
    } else {
        let start = longest_zero_run(groups, groups.len() as int);
        let len = zero_run(groups, start);
        if len >= 2 {
            groups_text(groups.take(start)) + seq![':', ':'] + groups_text(
                groups.skip(start + len),
            )
        } else {
            groups_text(groups)
        }
    }
}

/// A run of zeros ends inside the address and holds zeros only.
pub proof fn lemma_zero_run(groups: Seq<u16>, i: int)
    requires
        0 <= i <= groups.len(),
    ensures
        i + zero_run(groups, i) <= groups.len(),
        forall|k: int| i <= k < i + zero_run(groups, i) ==> groups[k] == 0,
    decreases groups.len() - i,
{
    if i < groups.len() && groups[i] == 0 {
        lemma_zero_run(groups, i + 1);
    }
}

/// The longest run of zeros starts at a position that was looked at.
pub proof fn lemma_longest_zero_run(groups: Seq<u16>, n: int)
    requires
        0 <= n,
    ensures
        0 <= longest_zero_run(groups, n) <= n,
    decreases n,
{
    if n > 0 {
        lemma_longest_zero_run(groups, n - 1);
    }
}

/// No run of zeros is longer than the one that starts at the position
/// that `longest_zero_run` gives, and none before it is as long.
pub proof fn lemma_longest_zero_run_is_longest(groups: Seq<u16>, n: int)
    requires
        0 <= n,
    ensures
        forall|j: int|
            0 <= j < n ==> #[trigger] zero_run(groups, j) <= zero_run(
                groups,
                longest_zero_run(groups, n),
            ),
        forall|j: int|
            0 <= j < longest_zero_run(groups, n) ==> #[trigger] zero_run(groups, j) < zero_run(
                groups,
                longest_zero_run(groups, n),
            ),
    decreases n,
{
    if n > 0 {
        lemma_longest_zero_run_is_longest(groups, n - 1);
        lemma_longest_zero_run(groups, n - 1);
    }
}

/// The numeral of a group has at most four digits, reads back as the
/// group, and is no IPv4 address.
pub proof fn lemma_group_numeral(v: u16)
    ensures
        group_value(numeral(v as nat, 16)) == Some(v),
        numeral(v as nat, 16).len() >= 1,
        !numeral(v as nat, 16).contains(':'),
        ipv4_value(numeral(v as nat, 16)) is None,
{
    let n = v as nat;
    let s = numeral(n, 16);
    lemma_numeral(n, 16);
    lemma_numeral_without(n, 16, ':');
    lemma_numeral_without(n, 16, '.');
    assert(s.len() <= 4) by {
        reveal_with_fuel(numeral, 4);
    }
    reveal(ipv4_value);
    lemma_split_whole(s, '.');
}

/// Groups written in hexadecimal with colons between them read back as
/// these groups, on either side of `::`. The text has no `::` in it and
/// no colon at either end.
pub proof fn lemma_groups_text_value(groups: Seq<u16>, v4_last: bool)
    ensures
        side_value(groups_text(groups), v4_last) == Some(groups),
        groups.len() == 0 <==> groups_text(groups).len() == 0,
        forall|k: int| !#[trigger] pair_at(groups_text(groups), ':', k),
        groups.len() > 0 ==> groups_text(groups)[0] != ':' && groups_text(groups).last() != ':',
{
    reveal(side_value);
    let parts = group_texts(groups);
    assert forall|k: int| 0 <= k < parts.len() implies (#[trigger] parts[k]).len() > 0
        && !parts[k].contains(':') && group_value(parts[k]) == Some(groups[k]) && ipv4_value(
        parts[k],
    ) is None by {
        lemma_group_numeral(groups[k]);
    }
    lemma_join_no_pair(parts, ':');
    if groups.len() > 0 {
        lemma_split_join(parts, ':');
        assert(ipv4_value(parts.last()) is None);
        assert(groups_value(parts) is Some);
        assert(groups_value(parts).unwrap() =~= groups);
    } else {
        assert(groups =~= Seq::<u16>::empty());
    }
}

/// Four times the digit `f` write the group of ones.
proof fn lemma_ones_value()
    ensures
        group_value(seq!['f', 'f', 'f', 'f']) == Some(0xffffu16),
        !seq!['f', 'f', 'f', 'f'].contains(':'),
{
    let ones = seq!['f', 'f', 'f', 'f'];
    reveal_with_fuel(numeral_value, 5);
    assert(ones.drop_last() =~= seq!['f', 'f', 'f']);
    assert(ones.drop_last().drop_last() =~= seq!['f', 'f']);
    assert(ones.drop_last().drop_last().drop_last() =~= seq!['f']);
    assert(ones.drop_last().drop_last().drop_last().drop_last() =~= Seq::<char>::empty());
    assert(is_numeral(ones, 16));
    assert(numeral_value(ones, 16) == 0xffff);
}

/// What follows `::` in the text of an address that holds an IPv4 address
/// writes the group of ones and the two groups of that address.
proof fn lemma_mapped_tail_value(high: u16, low: u16)
    ensures
        side_value(
            seq!['f', 'f', 'f', 'f', ':'] + ipv4_text(group_octets(high, low)),
            true,
        ) == Some(seq![0xffffu16, high, low]),
{
    reveal(side_value);
    let octets = group_octets(high, low);
    let v4 = ipv4_text(octets);
    let ones = seq!['f', 'f', 'f', 'f'];
    let tail = seq!['f', 'f', 'f', 'f', ':'] + v4;
    lemma_ipv4_text_value(octets);
    lemma_ones_value();
    assert(tail =~= ones + seq![':'] + v4);
    lemma_split_first(ones, v4, ':');
    lemma_split_whole(v4, ':');
    let parts = split(tail, ':');
    assert(parts =~= seq![ones, v4]);
    assert(parts.last() == v4);
    assert(parts.drop_last() =~= seq![ones]);
    assert(groups_value(seq![ones]) is Some);
    assert(groups_value(seq![ones]).unwrap() =~= seq![0xffffu16]);
    assert(octet_groups(octets) =~= seq![high, low]);
    assert(seq![0xffffu16] + seq![high, low] =~= seq![0xffffu16, high, low]);
}

/// The text of an address that holds an IPv4 address reads back as the
/// address.
proof fn lemma_mapped_text_value(groups: Seq<u16>)
    requires
        is_v4_mapped(groups),
    ensures
        ipv6_value(ipv6_text(groups)) == Some(groups),
{
    reveal(ipv6_text);
    reveal(ipv6_value);
    let s = ipv6_text(groups);
    let v4 = ipv4_text(group_octets(groups[6], groups[7]));
    lemma_mapped_tail_value(groups[6], groups[7]);
    assert(s[0] == ':' && s[1] == ':');
    assert(index_of_pair(s, ':') == 0);
    assert(s.take(0) =~= Seq::<char>::empty());
    assert(s.skip(2) =~= seq!['f', 'f', 'f', 'f', ':'] + v4);
    let written = seq![0xffffu16, groups[6], groups[7]];
    assert(side_value(s.take(0), false) == Some(Seq::<u16>::empty())) by {
        reveal(side_value);
    }
    assert(side_value(s.skip(2), true) == Some(written));
    assert(Seq::<u16>::empty() + zeros(5) + written =~= groups);
}

/// A text with `::` between the groups before a run of zeros and those
/// after it reads back as the address.
proof fn lemma_short_text_value(groups: Seq<u16>, start: int, len: nat)
    requires
        groups.len() == 8,
        0 <= start,
        start + len <= 8,
        len >= 1,
        forall|k: int| start <= k < start + len ==> groups[k] == 0,
    ensures
        ipv6_value(
            groups_text(groups.take(start)) + seq![':', ':'] + groups_text(
                groups.skip(start + len),
            ),
        ) == Some(groups),
{
    reveal(ipv6_value);
    let head = groups.take(start);
    let tail = groups.skip(start + len);
    let h = groups_text(head);
    let t = groups_text(tail);
    let s = h + seq![':', ':'] + t;
    lemma_groups_text_value(head, false);
    lemma_groups_text_value(tail, true);
    let i = h.len() as int;
    assert forall|k: int| 0 <= k < i implies !#[trigger] pair_at(s, ':', k) by {
        if k + 1 < i {
            assert(s[k] == h[k]);
            assert(s[k + 1] == h[k + 1]);
            assert(!pair_at(h, ':', k));
        } else {
            assert(s[k] == h.last());
        }
    }
    assert(pair_at(s, ':', i));
    lemma_index_of_pair(s, ':', i);
    assert(s.take(i) =~= h);
    assert(s.skip(i + 2) =~= t);
    assert(head + zeros(len) + tail =~= groups);
}

/// All eight groups written in hexadecimal read back as the address.
proof fn lemma_plain_text_value(groups: Seq<u16>)
    requires
        groups.len() == 8,
    ensures
        ipv6_value(groups_text(groups)) == Some(groups),
{
    reveal(ipv6_value);
    let s = groups_text(groups);
    lemma_groups_text_value(groups, true);
    lemma_index_of_pair(s, ':', s.len() as int);
}

/// The text of an IPv6 address reads back as the address.
pub proof fn lemma_ipv6_text_value(groups: Seq<u16>)
    requires
        groups.len() == 8,
    ensures
        ipv6_value(ipv6_text(groups)) == Some(groups),
{
    reveal(ipv6_text);
    if is_v4_mapped(groups) {
        lemma_mapped_text_value(groups);
    } else {
        let start = longest_zero_run(groups, 8);
        let len = zero_run(groups, start);
        lemma_longest_zero_run(groups, 8);
        lemma_zero_run(groups, start);
        if len >= 2 {
            lemma_short_text_value(groups, start, len);
        } else {
            lemma_plain_text_value(groups);
        }
    }
}

/// The text of an IPv6 address holds hexadecimal digits, colons and dots
/// only.
pub proof fn lemma_ipv6_text_without(groups: Seq<u16>, x: char)
    requires
        !is_digit(x, 16),
        x != ':',
        x != '.',
    ensures
        !ipv6_text(groups).contains(x),
{
    reveal(ipv6_text);
    if is_v4_mapped(groups) {
        let lead = seq![':', ':', 'f', 'f', 'f', 'f', ':'];
        assert(is_digit('f', 16));
        assert(!lead.contains(x));
        lemma_ipv4_text_without(group_octets(groups[6], groups[7]), x);
        lemma_concat_without(lead, ipv4_text(group_octets(groups[6], groups[7])), x);
    } else {
        let start = longest_zero_run(groups, groups.len() as int);
        let len = zero_run(groups, start);
        let head = groups.take(start);
        let tail = groups.skip(start + len);
        lemma_groups_text_without(head, x);
        lemma_groups_text_without(tail, x);
        lemma_groups_text_without(groups, x);
        let colons = seq![':', ':'];
        assert(!colons.contains(x));
        lemma_concat_without(groups_text(head), colons, x);
        lemma_concat_without(groups_text(head) + colons, groups_text(tail), x);
    }
}

/// Groups in hexadecimal with colons between them hold hexadecimal digits
/// and colons only.
pub proof fn lemma_groups_text_without(groups: Seq<u16>, x: char)
    requires
        !is_digit(x, 16),
        x != ':',
    ensures
        !groups_text(groups).contains(x),
{
    let parts = group_texts(groups);
    assert forall|k: int| 0 <= k < parts.len() implies !(#[trigger] parts[k]).contains(x) by {
        lemma_numeral_without(groups[k] as nat, 16, x);
    }
    lemma_join_contains(parts, ':', x);
}

/// The group that `s` writes, if it writes one.
pub fn read_group(s: &[char]) -> (r: Option<u16>)
    ensures
        r == group_value(s@),
{
    if s.len() > 4 {
        return None;
    }
    match read_number(s, 16, 0xffff) {
        Some(v) => Some(v as u16),
        None => None,
    }
}

/// The groups written on one side of `::`, or by a text without `::`.
pub fn read_side(s: &[char], v4_last: bool) -> (r: Option<Vec<u16>>)
    ensures
        r matches Some(groups) ==> side_value(s@, v4_last) == Some(groups@),
        r is None ==> side_value(s@, v4_last) is None,
{
    proof {
        reveal(side_value);
    }
    let mut groups: Vec<u16> = Vec::new();
    if s.len() == 0 {
        return Some(groups);
    }
    let parts = split_on(s, ':');
    let ghost pieces = split(s@, ':');
    assert(pieces.len() >= 1);
    let n: usize = parts.len();
    let v4: Option<[u8; 4]> = if v4_last {
        read_ipv4(parts[n - 1])
    } else {
        None
    };
    let count: usize = if v4.is_some() {
        n - 1
    } else {
        n
    };
    let ghost written = pieces.take(count as int);
    let ghost extra = match v4 {
        Some(octets) => octet_groups(octets@),
        None => Seq::empty(),
    };
    proof {
        assert(pieces.last() == pieces[n - 1]);
        assert(pieces.drop_last() =~= pieces.take(n - 1));
        assert(pieces.take(n as int) =~= pieces);
        if groups_value(written) is Some {
            assert(groups_value(written).unwrap() + Seq::<u16>::empty() =~= groups_value(
                written,
            ).unwrap());
        }
    }
    let mut k: usize = 0;
    while k < count
        invariant
            k <= count <= n,
            n == parts@.len(),
            pieces.len() == n,
            written == pieces.take(count as int),
            side_value(s@, v4_last) == (match groups_value(written) {
                Some(hex) => Some(hex + extra),
                None => None,
            }),
            forall|j: int| 0 <= j < n ==> (#[trigger] parts@[j])@ == pieces[j],
            groups@.len() == k,
            forall|j: int| 0 <= j < k ==> group_value(#[trigger] written[j]) == Some(groups@[j]),
        decreases count - k,
    {
        match read_group(parts[k]) {
            None => {
                assert(group_value(written[k as int]) is None);
                return None;
            },
            Some(v) => {
                groups.push(v);
            },
        }
        k += 1;
    }
    proof {
        assert(groups_value(written) is Some);
        assert(groups_value(written).unwrap() =~= groups@);
    }
    match v4 {
        Some(octets) => {
            let ghost hex = groups@;
            groups.push(octets[0] as u16 * 256 + octets[1] as u16);
            groups.push(octets[2] as u16 * 256 + octets[3] as u16);
            proof {
                assert(groups@ =~= hex + octet_groups(octets@));
            }
        },
        None => {
            proof {
                assert(groups@ + extra =~= groups@);
            }
        },
    }
    Some(groups)
}

/// The eight groups that `s` writes, if it is an IPv6 address.
pub fn read_ipv6(s: &[char]) -> (r: Option<[u16; 8]>)
    ensures
        r matches Some(groups) ==> ipv6_value(s@) == Some(groups@),
        r is None ==> ipv6_value(s@) is None,
{
    proof {
        reveal(ipv6_value);
    }
    let n: usize = s.len();
    let i: usize = find_pair(s, ':');
    let mut groups: [u16; 8] = [0; 8];
    if i < n {
        let before = vstd::slice::slice_subrange(s, 0, i);
        let after = vstd::slice::slice_subrange(s, i + 2, n);
        proof {
            assert(before@ =~= s@.take(i as int));
            assert(after@ =~= s@.skip(i + 2));
        }
        let head = match read_side(before, false) {
            Some(head) => head,
            None => {
                return None;
            },
        };
        let tail = match read_side(after, true) {
            Some(tail) => tail,
            None => {
                return None;
            },
        };
        if head.len() > 7 || tail.len() > 7 - head.len() {
            return None;
        }
        let gap: usize = 8 - head.len() - tail.len();
        let mut k: usize = 0;
        while k < head.len()
            invariant
                k <= head@.len() <= 7,
                forall|j: int| 0 <= j < k ==> groups@[j] == head@[j],
                forall|j: int| k <= j < 8 ==> groups@[j] == 0,
            decreases head@.len() - k,
        {
            groups[k] = head[k];
            k += 1;
        }
        let from: usize = head.len() + gap;
        let mut k: usize = 0;
        while k < tail.len()
            invariant
                k <= tail@.len(),
                from + tail@.len() == 8,
                head@.len() <= from,
                forall|j: int| 0 <= j < head@.len() ==> groups@[j] == head@[j],
                forall|j: int| head@.len() <= j < from ==> groups@[j] == 0,
                forall|j: int| 0 <= j < k ==> groups@[from + j] == tail@[j],
            decreases tail@.len() - k,
        {
            groups[from + k] = tail[k];
            k += 1;
        }
        proof {
            assert(groups@ =~= head@ + zeros(gap as nat) + tail@);
        }
        Some(groups)
    } else {
        let all = match read_side(s, true) {
            Some(all) => all,
            None => {
                return None;
            },
        };
        if all.len() != 8 {
            return None;
        }
        let mut k: usize = 0;
        while k < 8
            invariant
                k <= 8,
                all@.len() == 8,
                forall|j: int| 0 <= j < k ==> groups@[j] == all@[j],
            decreases 8 - k,
        {
            groups[k] = all[k];
            k += 1;
        }
        proof {
            assert(groups@ =~= all@);
        }
        Some(groups)
    }
}

/// How many groups of zero follow one another from position `i` on.
pub fn zero_run_at(groups: &[u16; 8], i: usize) -> (len: usize)
    requires
        i <= 8,
    ensures
        len == zero_run(groups@, i as int),
        i + len <= 8,
{
    let mut j: usize = i;
    while j < 8 && groups[j] == 0
        invariant
            i <= j <= 8,
            zero_run(groups@, i as int) == (j - i) + zero_run(groups@, j as int),
        decreases 8 - j,
    {
        j += 1;
    }
    j - i
}

/// Where the longest run of zeros starts, and how long it is.
pub fn find_zero_run(groups: &[u16; 8]) -> (run: (usize, usize))
    ensures
        run.0 == longest_zero_run(groups@, 8),
        run.1 == zero_run(groups@, run.0 as int),
        run.0 + run.1 <= 8,
{
    let mut best: usize = 0;
    let mut best_len: usize = zero_run_at(groups, 0);
    let mut n: usize = 0;
    while n < 8
        invariant
            n <= 8,
            best <= 8,
            best == longest_zero_run(groups@, n as int),
            best_len == zero_run(groups@, best as int),
            best + best_len <= 8,
        decreases 8 - n,
    {
        let len: usize = zero_run_at(groups, n);
        if len > best_len {
            best = n;
            best_len = len;
        }
        n += 1;
    }
    (best, best_len)
}

/// Writes the groups from position `from` up to `to` at the end of `out`,
/// in hexadecimal with colons between them.
pub fn push_groups(out: &mut String, groups: &[u16; 8], from: usize, to: usize)
    requires
        from <= to <= 8,
    ensures
        final(out)@ == old(out)@ + groups_text(groups@.subrange(from as int, to as int)),
{
    let ghost texts = group_texts(groups@.subrange(from as int, to as int));
    let mut k: usize = from;
    while k < to
        invariant
            from <= k <= to <= 8,
            texts == group_texts(groups@.subrange(from as int, to as int)),
            out@ == old(out)@ + join(texts.take(k - from), ':'),
        decreases to - k,
    {
        if k > from {
            out.append(":");
        }
        push_number(out, groups[k] as u64, 16);
        proof {
            reveal_strlit(":");
            let done = texts.take(k - from);
            let next = texts[k - from];
            assert(texts.take(k - from + 1) =~= done.push(next));
            if k > from {
                lemma_join_push(done, next, ':');
                assert(out@ =~= old(out)@ + (join(done, ':') + seq![':'] + next));
            } else {
                assert(join(done.push(next), ':') == next);
                assert(out@ =~= old(out)@ + next);
            }
        }
        k += 1;
    }
    proof {
        assert(texts.take(to - from) =~= texts);
    }
}

/// Writes the text of the address at the end of `out`.
pub fn push_ipv6(out: &mut String, groups: &[u16; 8])
    ensures
        final(out)@ == old(out)@ + ipv6_text(groups@),
{
    proof {
        reveal(ipv6_text);
    }
    if groups[0] == 0 && groups[1] == 0 && groups[2] == 0 && groups[3] == 0 && groups[4] == 0
        && groups[5] == 0xffff {
        let octets: [u8; 4] = [
            (groups[6] / 256) as u8,
            (groups[6] % 256) as u8,
            (groups[7] / 256) as u8,
            (groups[7] % 256) as u8,
        ];
        out.append("::ffff:");
        push_ipv4(out, &octets);
        proof {
            reveal_strlit("::ffff:");
            assert("::ffff:"@ =~= seq![':', ':', 'f', 'f', 'f', 'f', ':']);
            assert(octets@ =~= group_octets(groups@[6], groups@[7]));
        }
    } else {
        let (start, len) = find_zero_run(groups);
        if len >= 2 {
            push_groups(out, groups, 0, start);
            out.append("::");
            push_groups(out, groups, start + len, 8);
            proof {
                reveal_strlit("::");
                assert("::"@ =~= seq![':', ':']);
                assert(groups@.subrange(0, start as int) =~= groups@.take(start as int));
                assert(groups@.subrange(start + len, 8) =~= groups@.skip(start + len));
            }
        } else {
            push_groups(out, groups, 0, 8);
            proof {
                assert(groups@.subrange(0, 8) =~= groups@);
            }
        }
    }
}

} // verus!
