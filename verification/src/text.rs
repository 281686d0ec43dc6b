//! Text as a sequence of characters: searching, splitting on a separator
//! and joining with one.

use vstd::prelude::*;

verus! {

/// The position of the first `c` in `s`, or the length of `s` where `s` holds no `c`.
pub open spec fn index_of(s: Seq<char>, c: char) -> int
    decreases s.len(),
{
    if s.len() == 0 || s[0] == c {
        0
    } else {
        1 + index_of(s.drop_first(), c)
    }
}

/// The position of the first two adjacent `c` in `s`, or the length of `s`
/// where no two `c` are adjacent.
pub open spec fn index_of_pair(s: Seq<char>, c: char) -> int
    decreases s.len(),
{
    if s.len() < 2 {
        s.len() as int
    } else if s[0] == c && s[1] == c {
        0
    } else {
        1 + index_of_pair(s.drop_first(), c)
    }
}

/// The pieces of `s` between the occurrences of `c`. There is always at
/// least one piece, and a piece may be empty.
pub open spec fn split(s: Seq<char>, c: char) -> Seq<Seq<char>>
    decreases s.len(),
{
    let i = index_of(s, c);
    if 0 <= i < s.len() {
        seq![s.take(i)] + split(s.skip(i + 1), c)
    } else {
        seq![s]
    }
}

/// The pieces written one after another with `c` between neighbours.
pub open spec fn join(parts: Seq<Seq<char>>, c: char) -> Seq<char>
    decreases parts.len(),
{
    if parts.len() == 0 {
        Seq::empty()
    } else if parts.len() == 1 {
        parts[0]
    } else {
        parts[0] + seq![c] + join(parts.drop_first(), c)
    }
}

/// `index_of` is the one position before which no `c` stands and at which
/// `c` stands or the text ends.
pub proof fn lemma_index_of(s: Seq<char>, c: char, i: int)
    requires
        0 <= i <= s.len(),
        forall|k: int| 0 <= k < i ==> s[k] != c,
        i < s.len() ==> s[i] == c,
    ensures
        index_of(s, c) == i,
    decreases s.len(),
{
    if s.len() == 0 || s[0] == c {
    } else {
        let t = s.drop_first();
        assert forall|k: int| 0 <= k < i - 1 implies t[k] != c by {
            assert(t[k] == s[k + 1]);
        }
        lemma_index_of(t, c, i - 1);
    }
}

/// No `c` stands before `index_of`, which is a position of `s` or its
/// length, and `c` stands there if it is a position.
pub proof fn lemma_index_of_bounds(s: Seq<char>, c: char)
    ensures
        0 <= index_of(s, c) <= s.len(),
        forall|k: int| 0 <= k < index_of(s, c) ==> s[k] != c,
        index_of(s, c) < s.len() ==> s[index_of(s, c)] == c,
    decreases s.len(),
{
    if s.len() == 0 || s[0] == c {
    } else {
        let t = s.drop_first();
        lemma_index_of_bounds(t, c);
        assert forall|k: int| 0 <= k < index_of(s, c) implies s[k] != c by {
            if k > 0 {
                assert(t[k - 1] == s[k]);
            }
        }
        if index_of(s, c) < s.len() {
            assert(t[index_of(t, c)] == s[index_of(s, c)]);
        }
    }
}

/// Two adjacent `c` start at position `k` of `s`.
pub open spec fn pair_at(s: Seq<char>, c: char, k: int) -> bool {
    0 <= k && k + 1 < s.len() && s[k] == c && s[k + 1] == c
}

/// `index_of_pair` is the one position before which no pair of `c` starts
/// and at which a pair starts or no room for one is left.
pub proof fn lemma_index_of_pair(s: Seq<char>, c: char, i: int)
    requires
        0 <= i <= s.len(),
        forall|k: int| 0 <= k < i ==> !#[trigger] pair_at(s, c, k),
        i < s.len() ==> pair_at(s, c, i),
    ensures
        index_of_pair(s, c) == i,
    decreases s.len(),
{
    if s.len() < 2 {
        if i < s.len() {
            assert(pair_at(s, c, i));
        }
    } else if s[0] == c && s[1] == c {
        assert(pair_at(s, c, 0));
    } else {
        let t = s.drop_first();
        if i == 0 {
            assert(pair_at(s, c, 0));
        }
        if i < s.len() {
            assert(pair_at(s, c, i));
            assert(t[i - 1] == s[i]);
            assert(t[i] == s[i + 1]);
            assert(pair_at(t, c, i - 1));
        }
        assert forall|k: int| 0 <= k < i - 1 implies !#[trigger] pair_at(t, c, k) by {
            assert(!pair_at(s, c, k + 1));
            if k + 1 < t.len() {
                assert(t[k] == s[k + 1]);
                assert(t[k + 1] == s[k + 2]);
            }
        }
        lemma_index_of_pair(t, c, i - 1);
    }
}

/// A text without `c` is its own single piece.
pub proof fn lemma_split_whole(s: Seq<char>, c: char)
    requires
        !s.contains(c),
    ensures
        split(s, c) == seq![s],
{
    assert forall|k: int| 0 <= k < s.len() implies s[k] != c by {
        if s[k] == c {
            assert(s.contains(c));
        }
    }
    lemma_index_of(s, c, s.len() as int);
}

/// A text that starts with a piece free of `c`, followed by `c`, splits
/// into that piece and the pieces of what follows.
pub proof fn lemma_split_first(head: Seq<char>, rest: Seq<char>, c: char)
    requires
        !head.contains(c),
    ensures
        split(head + seq![c] + rest, c) == seq![head] + split(rest, c),
{
    let s = head + seq![c] + rest;
    let i = head.len() as int;
    assert forall|k: int| 0 <= k < i implies s[k] != c by {
        assert(s[k] == head[k]);
        if head[k] == c {
            assert(head.contains(c));
        }
    }
    assert(s[i] == c);
    lemma_index_of(s, c, i);
    assert(s.take(i) =~= head);
    assert(s.skip(i + 1) =~= rest);
}

/// Splitting undoes joining, for one piece or more, none of which holds `c`.
pub proof fn lemma_split_join(parts: Seq<Seq<char>>, c: char)
    requires
        parts.len() >= 1,
        forall|k: int| 0 <= k < parts.len() ==> !(#[trigger] parts[k]).contains(c),
    ensures
        split(join(parts, c), c) == parts,
    decreases parts.len(),
{
    if parts.len() == 1 {
        lemma_split_whole(parts[0], c);
        assert(seq![parts[0]] =~= parts);
    } else {
        let rest = parts.drop_first();
        assert forall|k: int| 0 <= k < rest.len() implies !(#[trigger] rest[k]).contains(c) by {
            assert(rest[k] == parts[k + 1]);
        }
        lemma_split_join(rest, c);
        lemma_split_first(parts[0], join(rest, c), c);
        assert(seq![parts[0]] + rest =~= parts);
    }
}

/// Joining one more piece at the end writes `c` and the piece after the rest.
pub proof fn lemma_join_push(parts: Seq<Seq<char>>, last: Seq<char>, c: char)
    requires
        parts.len() >= 1,
    ensures
        join(parts.push(last), c) == join(parts, c) + seq![c] + last,
    decreases parts.len(),
{
    let all = parts.push(last);
    if parts.len() == 1 {
        assert(all.drop_first() =~= seq![last]);
        assert(join(all.drop_first(), c) == last);
    } else {
        let rest = parts.drop_first();
        lemma_join_push(rest, last, c);
        assert(all.drop_first() =~= rest.push(last));
        assert(all[0] == parts[0]);
        assert(parts[0] + seq![c] + (join(rest, c) + seq![c] + last) =~= (parts[0] + seq![c]
            + join(rest, c)) + seq![c] + last);
    }
}

/// No character of a joined text is outside the pieces, but for `c` itself.
pub proof fn lemma_join_contains(parts: Seq<Seq<char>>, c: char, x: char)
    requires
        x != c,
        forall|k: int| 0 <= k < parts.len() ==> !(#[trigger] parts[k]).contains(x),
    ensures
        !join(parts, c).contains(x),
    decreases parts.len(),
{
    let j = join(parts, c);
    if parts.len() == 0 {
    } else if parts.len() == 1 {
    } else {
        let rest = parts.drop_first();
        assert forall|k: int| 0 <= k < rest.len() implies !(#[trigger] rest[k]).contains(x) by {
            assert(rest[k] == parts[k + 1]);
        }
        lemma_join_contains(rest, c, x);
        let r = join(rest, c);
        if j.contains(x) {
            let i = choose|i: int| 0 <= i < j.len() && j[i] == x;
            if i < parts[0].len() {
                assert(parts[0][i] == x);
                assert(parts[0].contains(x));
            } else if i == parts[0].len() {
            } else {
                assert(r[i - parts[0].len() - 1] == x);
                assert(r.contains(x));
            }
        }
    }
}

/// What neither of two texts holds, the two written one after the other do
/// not hold.
pub proof fn lemma_concat_without(a: Seq<char>, b: Seq<char>, x: char)
    requires
        !a.contains(x),
        !b.contains(x),
    ensures
        !(a + b).contains(x),
{
    let s = a + b;
    if s.contains(x) {
        let i = choose|i: int| 0 <= i < s.len() && s[i] == x;
        if i < a.len() {
            assert(a[i] == x);
            assert(a.contains(x));
        } else {
            assert(b[i - a.len()] == x);
            assert(b.contains(x));
        }
    }
}

/// A joined text of pieces that are not empty and hold no `c` has no two
/// adjacent `c`, and neither starts nor ends with `c`.
pub proof fn lemma_join_no_pair(parts: Seq<Seq<char>>, c: char)
    requires
        forall|k: int|
            0 <= k < parts.len() ==> (#[trigger] parts[k]).len() > 0 && !parts[k].contains(c),
    ensures
        forall|k: int| !#[trigger] pair_at(join(parts, c), c, k),
        parts.len() > 0 ==> join(parts, c).len() > 0 && join(parts, c)[0] != c && join(
            parts,
            c,
        ).last() != c,
        parts.len() == 0 ==> join(parts, c).len() == 0,
    decreases parts.len(),
{
    let j = join(parts, c);
    if parts.len() == 0 {
    } else if parts.len() == 1 {
        let p = parts[0];
        assert(p.len() > 0 && !p.contains(c));
        assert forall|k: int| 0 <= k < p.len() implies p[k] != c by {
            if p[k] == c {
                assert(p.contains(c));
            }
        }
    } else {
        let p = parts[0];
        let rest = parts.drop_first();
        assert(p.len() > 0 && !p.contains(c));
        assert forall|k: int| 0 <= k < rest.len() implies (#[trigger] rest[k]).len() > 0
            && !rest[k].contains(c) by {
            assert(rest[k] == parts[k + 1]);
        }
        lemma_join_no_pair(rest, c);
        let r = join(rest, c);
        assert forall|k: int| 0 <= k < p.len() implies p[k] != c by {
            if p[k] == c {
                assert(p.contains(c));
            }
        }
        assert forall|k: int| !#[trigger] pair_at(j, c, k) by {
            if pair_at(j, c, k) {
                if k < p.len() {
                    assert(j[k] == p[k]);
                } else if k == p.len() {
                    assert(j[k + 1] == r[0]);
                } else {
                    assert(j[k] == r[k - p.len() - 1]);
                    assert(j[k + 1] == r[k - p.len()]);
                    assert(pair_at(r, c, k - p.len() - 1));
                }
            }
        }
        assert(j[0] == p[0]);
        assert(j.last() == r.last());
    }
}

/// The characters of `s`, in order.
pub fn chars_of(s: &str) -> (chars: Vec<char>)
    ensures
        chars@ == s@,
{
    let mut chars: Vec<char> = Vec::new();
    for c in it: s.chars()
        invariant
            it.seq() == s@,
            chars@ == it.seq().take(it.index() as int),
    {
        chars.push(c);
    }
    chars
}

/// Where the first `c` stands in `s` from `start` on, or the length of `s`.
pub fn find_from(s: &[char], start: usize, c: char) -> (i: usize)
    requires
        start <= s@.len(),
    ensures
        start <= i <= s@.len(),
        i - start == index_of(s@.skip(start as int), c),
        i < s@.len() ==> s@[i as int] == c,
{
    let mut i: usize = start;
    while i < s.len() && s[i] != c
        invariant
            start <= i <= s@.len(),
            forall|k: int| start <= k < i ==> s@[k] != c,
        decreases s@.len() - i,
    {
        i += 1;
    }
    proof {
        let t = s@.skip(start as int);
        assert forall|k: int| 0 <= k < i - start implies t[k] != c by {
            assert(t[k] == s@[start + k]);
        }
        lemma_index_of(t, c, i - start);
    }
    i
}

/// Where the first two adjacent `c` stand in `s`, or the length of `s`.
pub fn find_pair(s: &[char], c: char) -> (i: usize)
    ensures
        i == index_of_pair(s@, c),
        i <= s@.len(),
        i < s@.len() ==> pair_at(s@, c, i as int),
{
    let n: usize = s.len();
    if n < 2 {
        proof {
            lemma_index_of_pair(s@, c, n as int);
        }
        return n;
    }
    let mut i: usize = 0;
    while i < n - 1 && !(s[i] == c && s[i + 1] == c)
        invariant
            n == s@.len(),
            n >= 2,
            i <= n - 1,
            forall|k: int| 0 <= k < i ==> !#[trigger] pair_at(s@, c, k),
        decreases n - i,
    {
        assert(!pair_at(s@, c, i as int));
        i += 1;
    }
    if i < n - 1 {
        proof {
            lemma_index_of_pair(s@, c, i as int);
        }
        i
    } else {
        proof {
            lemma_index_of_pair(s@, c, n as int);
        }
        n
    }
}

/// The pieces of `s` between the occurrences of `c`, in order.
pub fn split_on<'a>(s: &'a [char], c: char) -> (parts: Vec<&'a [char]>)
    ensures
        parts@.len() == split(s@, c).len(),
        forall|k: int| 0 <= k < parts@.len() ==> (#[trigger] parts@[k])@ == split(s@, c)[k],
{
    let mut parts: Vec<&'a [char]> = Vec::new();
    let mut start: usize = 0;
    let ghost mut done: Seq<Seq<char>> = Seq::empty();
    proof {
        assert(s@.skip(0) =~= s@);
        assert(done + split(s@, c) =~= split(s@, c));
    }
    loop
        invariant
            start <= s@.len(),
            parts@.len() == done.len(),
            forall|k: int| 0 <= k < parts@.len() ==> (#[trigger] parts@[k])@ == done[k],
            split(s@, c) == done + split(s@.skip(start as int), c),
        decreases s@.len() - start,
    {
        let end: usize = find_from(s, start, c);
        let piece: &'a [char] = vstd::slice::slice_subrange(s, start, end);
        let ghost rest = s@.skip(start as int);
        proof {
            assert(piece@ =~= rest.take(end - start));
        }
        parts.push(piece);
        if end >= s.len() {
            proof {
                assert(rest.take(end - start) =~= rest);
                assert(split(rest, c) == seq![rest]);
                assert(done + seq![rest] =~= done.push(rest));
                done = done.push(rest);
            }
            return parts;
        }
        proof {
            assert(rest.skip(end - start + 1) =~= s@.skip(end + 1));
            assert(done + (seq![piece@] + split(s@.skip(end + 1), c)) =~= done.push(piece@)
                + split(s@.skip(end + 1), c));
            done = done.push(piece@);
        }
        start = end + 1;
    }
}

} // verus!
