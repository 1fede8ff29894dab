//! Reading lines, digits and substrings out of text.

use vstd::prelude::*;

verus! {

/// Index of the first `c` in `s` at or after `from`, or `s.len()` if none.
pub open spec fn first_index(s: Seq<char>, c: char, from: int) -> int
    decreases s.len() - from,
{
    if from >= s.len() {
        s.len() as int
    } else if s[from] == c {
        from
    } else {
        first_index(s, c, from + 1)
    }
}

/// The first line of `s`, without its line ending: `\n`, or `\r\n`.
pub open spec fn first_line(s: Seq<char>) -> Seq<char> {
    let k = first_index(s, '\n', 0);
    if 0 < k < s.len() && s[k - 1] == '\r' {
        s.subrange(0, k - 1)
    } else {
        s.subrange(0, k)
    }
}

/// Whether `t` occurs in `s` as a run of consecutive characters.
pub open spec fn contains(s: Seq<char>, t: Seq<char>) -> bool {
    exists|i: int| 0 <= i <= s.len() - t.len() && #[trigger] s.subrange(i, i + t.len()) == t
}

/// The value of `c` as a digit: `0`-`9`, then `a`-`f` or `A`-`F` for ten to
/// fifteen; 16 for any other character.
pub open spec fn digit_of(c: char) -> nat {
    if '0' <= c <= '9' {
        (c as u32 - '0' as u32) as nat
    } else if 'a' <= c <= 'f' {
        (c as u32 - 'a' as u32 + 10) as nat
    } else if 'A' <= c <= 'F' {
        (c as u32 - 'A' as u32 + 10) as nat
    } else {
        16
    }
}

/// Whether `s` is a non-empty run of digits of `radix`.
pub open spec fn is_digits(s: Seq<char>, radix: nat) -> bool {
    s.len() > 0 && forall|i: int| 0 <= i < s.len() ==> #[trigger] digit_of(s[i]) < radix
}

/// The number that the digits `s` write in `radix`, most significant first.
pub open spec fn digits_value(s: Seq<char>, radix: nat) -> nat
    decreases s.len(),
{
    if s.len() == 0 {
        0
    } else {
        digits_value(s.drop_last(), radix) * radix + digit_of(s.last())
    }
}

/// The number that `s` writes in `radix`, when `s` is made of digits only and
/// that number is at most `max`.
pub open spec fn parsed(s: Seq<char>, radix: nat, max: nat) -> Option<u64> {
    if is_digits(s, radix) && digits_value(s, radix) <= max {
        Some(digits_value(s, radix) as u64)
    } else {
        None
    }
}

/// Index of the first `c` in `s` at or after `from`, or the length of `s`.
pub fn find_char(s: &str, c: char, from: usize) -> (r: usize)
    requires
        from <= s@.len(),
    ensures
        r == first_index(s@, c, from as int),
        from <= r <= s@.len(),
{
    let len = s.unicode_len();
    let mut i = from;
    while i < len
        invariant
            len == s@.len(),
            from <= i <= len,
            first_index(s@, c, from as int) == first_index(s@, c, i as int),
        decreases len - i,
    {
        if s.get_char(i) == c {
            return i;
        }
        i = i + 1;
    }
    i
}

/// The first line of `s`, without its line ending.
pub fn line_of(s: &str) -> (r: &str)
    ensures
        r@ == first_line(s@),
{
    let k = find_char(s, '\n', 0);
    if 0 < k && k < s.unicode_len() && s.get_char(k - 1) == '\r' {
        s.substring_char(0, k - 1)
    } else {
        s.substring_char(0, k)
    }
}

/// Whether `t` occurs in `s`.
pub fn str_contains(s: &str, t: &str) -> (r: bool)
    ensures
        r == contains(s@, t@),
{
    let n = s.unicode_len();
    let m = t.unicode_len();
    if m > n {
        proof {
            assert forall|i: int| 0 <= i <= s@.len() - t@.len() implies #[trigger] s@.subrange(
                i,
                i + t@.len(),
            ) != t@ by {}
        }
        return false;
    }
    let mut i: usize = 0;
    while i <= n - m
        invariant
            n == s@.len(),
            m == t@.len(),
            m <= n,
            i <= n - m + 1,
            forall|j: int| 0 <= j < i ==> #[trigger] s@.subrange(j, j + m) != t@,
        decreases n - m + 1 - i,
    {
        let mut k: usize = 0;
        let mut same = true;
        while k < m
            invariant
                n == s@.len(),
                m == t@.len(),
                i + m <= n,
                k <= m,
                same == forall|q: int| 0 <= q < k ==> s@[i + q] == t@[q],
            decreases m - k,
        {
            if s.get_char(i + k) != t.get_char(k) {
                same = false;
            }
            k = k + 1;
        }
        if same {
            assert(s@.subrange(i as int, i + m) =~= t@);
            return true;
        }
        proof {
            if s@.subrange(i as int, i + m) == t@ {
                assert forall|q: int| 0 <= q < m implies s@[i + q] == t@[q] by {
                    assert(s@.subrange(i as int, i + m)[q] == s@[i + q]);
                }
            }
        }
        i = i + 1;
    }
    false
}

/// Whether `s` and `t` hold the same characters.
pub fn str_equal(s: &str, t: &str) -> (r: bool)
    ensures
        r == (s@ == t@),
{
    let n = s.unicode_len();
    if n != t.unicode_len() {
        return false;
    }
    let mut k: usize = 0;
    while k < n
        invariant
            n == s@.len(),
            n == t@.len(),
            k <= n,
            forall|q: int| 0 <= q < k ==> s@[q] == t@[q],
        decreases n - k,
    {
        if s.get_char(k) != t.get_char(k) {
            return false;
        }
        k = k + 1;
    }
    assert(s@ =~= t@);
    true
}

fn digit_value(c: char) -> (d: u64)
    ensures
        d == digit_of(c),
{
    if '0' <= c && c <= '9' {
        (c as u32 - '0' as u32) as u64
    } else if 'a' <= c && c <= 'f' {
        (c as u32 - 'a' as u32 + 10) as u64
    } else if 'A' <= c && c <= 'F' {
        (c as u32 - 'A' as u32 + 10) as u64
    } else {
        16
    }
}

proof fn lemma_prefix_value_le(s: Seq<char>, radix: nat, j: int)
    requires
        radix >= 1,
        0 <= j <= s.len(),
        forall|i: int| 0 <= i < s.len() ==> #[trigger] digit_of(s[i]) < radix,
    ensures
        digits_value(s.subrange(0, j), radix) <= digits_value(s, radix),
    decreases s.len() - j,
{
    if j < s.len() {
        let a = digits_value(s.subrange(0, j), radix);
        let t = s.subrange(0, j + 1);
        assert(t.drop_last() =~= s.subrange(0, j));
        let b = digits_value(t, radix);
        assert(b == a * radix + digit_of(t.last()));
        assert(a * radix + digit_of(t.last()) >= a) by (nonlinear_arith)
            requires
                radix >= 1,
        ;
        lemma_prefix_value_le(s, radix, j + 1);
    } else {
        assert(s.subrange(0, j) =~= s);
    }
}

/// The number that `s` writes in `radix`, if `s` is made of digits of `radix`
/// only, holds at least one, and writes a number no larger than `max`.
pub fn parse_digits(s: &str, radix: u64, max: u64) -> (r: Option<u64>)
    requires
        2 <= radix <= 16,
    ensures
        r == parsed(s@, radix as nat, max as nat),
{
    let n = s.unicode_len();
    if n == 0 {
        return None;
    }
    let mut acc: u64 = 0;
    let mut i: usize = 0;
    while i < n
        invariant
            n == s@.len(),
            2 <= radix <= 16,
            i <= n,
            acc == digits_value(s@.subrange(0, i as int), radix as nat),
            acc <= max,
            forall|q: int| 0 <= q < i ==> #[trigger] digit_of(s@[q]) < radix,
        decreases n - i,
    {
        let c = s.get_char(i);
        let d = digit_value(c);
        if d >= radix {
            return None;
        }
        proof {
            assert(s@.subrange(0, i + 1).drop_last() =~= s@.subrange(0, i as int));
        }
        let over = if d > max {
            true
        } else {
            acc > (max - d) / radix
        };
        if over {
            proof {
                let v = acc * radix + d;
                if d <= max {
                    let q = (max - d) as int / radix as int;
                    assert(v > max) by (nonlinear_arith)
                        requires
                            acc > q,
                            q == (max - d) as int / radix as int,
                            d <= max,
                            radix >= 2,
                            v == acc * radix + d,
                    ;
                }
                if is_digits(s@, radix as nat) {
                    lemma_prefix_value_le(s@, radix as nat, i + 1);
                }
            }
            return None;
        }
        proof {
            let q = (max - d) as int / radix as int;
            assert(acc * radix + d <= max) by (nonlinear_arith)
                requires
                    d <= max,
                    acc <= q,
                    q == (max - d) as int / radix as int,
                    radix >= 2,
            ;
        }
        acc = acc * radix + d;
        i = i + 1;
    }
    proof {
        assert(s@.subrange(0, n as int) =~= s@);
    }
    Some(acc)
}

} // verus!
