//! The version of the package as Python tools write versions.

use crate::text::chars_of;
use vstd::prelude::*;
use vstd::string::{StrSliceExecFns, StringExecFns};

verus! {

/// `s` with `to` in place of each `from`. The text is read from the left,
/// and reading goes on behind a `from` that was found, so that no two of
/// those replaced overlap. With an empty `from` the text stays as it is.
pub open spec fn replaced(s: Seq<char>, from: Seq<char>, to: Seq<char>) -> Seq<char>
    decreases s.len(),
{
    if from.len() == 0 || s.len() < from.len() {
        s
    } else if s.take(from.len() as int) == from {
        to + replaced(s.skip(from.len() as int), from, to)
    } else {
        seq![s[0]] + replaced(s.skip(1), from, to)
    }
}

/// The version `v` of a package with the marks of an early release in
/// short: `a` for `-alpha` and `b` for `-beta`.
pub open spec fn python_version(v: Seq<char>) -> Seq<char> {
    replaced(
        replaced(v, seq!['-', 'a', 'l', 'p', 'h', 'a'], seq!['a']),
        seq!['-', 'b', 'e', 't', 'a'],
        seq!['b'],
    )
}

/// Whether `pattern` stands in `text` at position `i`.
fn matches_at(text: &[char], pattern: &[char], i: usize) -> (r: bool)
    requires
        i + pattern@.len() <= text@.len(),
    ensures
        r == (text@.subrange(i as int, i + pattern@.len()) == pattern@),
{
    let n: usize = text.len();
    let m: usize = pattern.len();
    let mut k: usize = 0;
    while k < m
        invariant
            k <= m,
            m == pattern@.len(),
            n == text@.len(),
            i + m <= n,
            forall|j: int| 0 <= j < k ==> text@[i + j] == pattern@[j],
        decreases m - k,
    {
        if text[i + k] != pattern[k] {
            assert(text@.subrange(i as int, i + m)[k as int] != pattern@[k as int]);
            return false;
        }
        k += 1;
    }
    assert(text@.subrange(i as int, i + m) =~= pattern@);
    true
}

/// `s` with `to` in place of each `from`.
pub fn replace_all(s: &str, from: &str, to: &str) -> (r: String)
    ensures
        r@ == replaced(s@, from@, to@),
{
    let text = chars_of(s);
    let pattern = chars_of(from);
    let n: usize = text.len();
    let m: usize = pattern.len();
    let mut out = String::new();
    if m == 0 || n < m {
        out.append(s);
        assert(out@ =~= s@);
        return out;
    }
    let last: usize = n - m;
    let mut start: usize = 0;
    let mut i: usize = 0;
    proof {
        assert(s@.skip(0) =~= s@);
        assert(out@ + s@.subrange(0, 0) + replaced(s@, from@, to@) =~= replaced(s@, from@, to@));
    }
    while i <= last
        invariant
            text@ == s@,
            pattern@ == from@,
            n == s@.len(),
            m == from@.len(),
            0 < m <= n,
            last == n - m,
            start <= i <= n,
            out@ + s@.subrange(start as int, i as int) + replaced(s@.skip(i as int), from@, to@)
                == replaced(s@, from@, to@),
        decreases n - i,
    {
        let ghost rest = s@.skip(i as int);
        proof {
            assert(rest.take(m as int) =~= s@.subrange(i as int, i + m));
        }
        if matches_at(text.as_slice(), pattern.as_slice(), i) {
            let ghost before = out@;
            out.append(s.substring_char(start, i));
            out.append(to);
            proof {
                assert(rest.skip(m as int) =~= s@.skip(i + m));
                assert(before + s@.subrange(start as int, i as int) + (to@ + replaced(
                    s@.skip(i + m),
                    from@,
                    to@,
                )) =~= out@ + s@.subrange(i + m, i + m) + replaced(s@.skip(i + m), from@, to@));
            }
            i += m;
            start = i;
        } else {
            proof {
                assert(rest.skip(1) =~= s@.skip(i + 1));
                assert(out@ + s@.subrange(start as int, i as int) + (seq![rest[0]] + replaced(
                    s@.skip(i + 1),
                    from@,
                    to@,
                )) =~= out@ + s@.subrange(start as int, i + 1) + replaced(
                    s@.skip(i + 1),
                    from@,
                    to@,
                ));
            }
            i += 1;
        }
    }
    let ghost before = out@;
    out.append(s.substring_char(start, n));
    proof {
        assert(replaced(s@.skip(i as int), from@, to@) == s@.skip(i as int));
        assert(before + s@.subrange(start as int, i as int) + s@.skip(i as int) =~= out@);
    }
    out
}

/// The version of a package as Python tools write it, made from the version
/// `package_version` that the package was built with.
pub fn python_version_of(package_version: &str) -> (v: String)
    ensures
        v@ == python_version(package_version@),
{
    proof {
        reveal_strlit("-alpha");
        reveal_strlit("a");
        reveal_strlit("-beta");
        reveal_strlit("b");
        assert("-alpha"@ =~= seq!['-', 'a', 'l', 'p', 'h', 'a']);
        assert("a"@ =~= seq!['a']);
        assert("-beta"@ =~= seq!['-', 'b', 'e', 't', 'a']);
        assert("b"@ =~= seq!['b']);
    }
    let alpha = replace_all(package_version, "-alpha", "a");
    replace_all(alpha.as_str(), "-beta", "b")
}

/// The version of the broker package as Python tools write it.
pub fn get_pyrumqttd_version(package_version: &str) -> (v: String)
    ensures
        v@ == python_version(package_version@),
{
    python_version_of(package_version)
}

} // verus!
