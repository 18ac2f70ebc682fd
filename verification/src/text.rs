//! Small string-building helpers: decimal rendering of counters used by the
//! human-readable registry diagnostics.

use vstd::prelude::*;
use vstd::string::StrSliceExecFns;

verus! {

/// The character for a single decimal digit.
pub open spec fn dec_digit(d: nat) -> char {
    if d == 0 {
        '0'
    } else if d == 1 {
        '1'
    } else if d == 2 {
        '2'
    } else if d == 3 {
        '3'
    } else if d == 4 {
        '4'
    } else if d == 5 {
        '5'
    } else if d == 6 {
        '6'
    } else if d == 7 {
        '7'
    } else if d == 8 {
        '8'
    } else {
        '9'
    }
}

/// Decimal representation of `n`, most significant digit first, no leading
/// zeros (a single `'0'` for zero).
pub open spec fn dec_str(n: nat) -> Seq<char>
    decreases n,
{
    if n < 10 {
        seq![dec_digit(n)]
    } else {
        dec_str(n / 10).push(dec_digit(n % 10))
    }
}

fn digit_char(d: usize) -> (c: char)
    requires
        d < 10,
    ensures
        c == dec_digit(d as nat),
{
    if d == 0 {
        '0'
    } else if d == 1 {
        '1'
    } else if d == 2 {
        '2'
    } else if d == 3 {
        '3'
    } else if d == 4 {
        '4'
    } else if d == 5 {
        '5'
    } else if d == 6 {
        '6'
    } else if d == 7 {
        '7'
    } else if d == 8 {
        '8'
    } else {
        '9'
    }
}

/// Relies on `String::push` from std: appends one character at the end.
#[verifier::external_body]
pub(crate) fn string_push_char(s: &mut String, c: char)
    ensures
        final(s)@ == old(s)@.push(c),
{
    s.push(c);
}

/// Appends the decimal rendering of `n` to `s`.
pub fn push_decimal(s: &mut String, n: usize)
    ensures
        final(s)@ == old(s)@ + dec_str(n as nat),
    decreases n,
{
    if n < 10 {
        string_push_char(s, digit_char(n));
        assert(old(s)@ + dec_str(n as nat) =~= old(s)@.push(dec_digit(n as nat)));
    } else {
        assert(n / 10 < n && n % 10 < 10) by (nonlinear_arith)
            requires
                n >= 10,
        ;
        push_decimal(s, n / 10);
        string_push_char(s, digit_char(n % 10));
        assert(old(s)@ + dec_str(n as nat) =~= (old(s)@ + dec_str(n as nat / 10)).push(
            dec_digit(n as nat % 10),
        ));
    }
}

/// The decimal rendering of `n` as a fresh string.
pub fn usize_to_string(n: usize) -> (s: String)
    ensures
        s@ == dec_str(n as nat),
{
    let mut s = String::new();
    push_decimal(&mut s, n);
    assert(Seq::<char>::empty() + dec_str(n as nat) =~= dec_str(n as nat));
    s
}

/// The largest index at which `c` occurs in `s`, or `-1` if it does not.
pub open spec fn spec_last_index_of(s: Seq<char>, c: char) -> int
    decreases s.len(),
{
    if s.len() == 0 {
        -1
    } else if s.last() == c {
        s.len() - 1
    } else {
        spec_last_index_of(s.drop_last(), c)
    }
}

/// What `spec_last_index_of` returns: the last occurrence, or `-1`.
pub proof fn lemma_last_index_of(s: Seq<char>, c: char)
    ensures
        -1 <= spec_last_index_of(s, c) < s.len(),
        spec_last_index_of(s, c) >= 0 ==> s[spec_last_index_of(s, c)] == c,
        forall|k: int| spec_last_index_of(s, c) < k < s.len() ==> s[k] != c,
    decreases s.len(),
{
    if s.len() > 0 && s.last() != c {
        lemma_last_index_of(s.drop_last(), c);
        assert(forall|k: int| 0 <= k < s.len() - 1 ==> s.drop_last()[k] == s[k]);
    }
}

/// Finds the last occurrence of `c` in `s`, scanning characters.
pub fn last_index_of_char(s: &str, c: char) -> (r: Option<usize>)
    ensures
        match r {
            Some(i) => i as int == spec_last_index_of(s@, c),
            None => spec_last_index_of(s@, c) == -1,
        },
{
    proof {
        lemma_last_index_of(s@, c);
    }
    let n = s.unicode_len();
    let mut i = n;
    while i > 0
        invariant
            i <= n,
            n == s@.len(),
            spec_last_index_of(s@, c) >= 0 ==> s@[spec_last_index_of(s@, c)] == c,
            forall|k: int| spec_last_index_of(s@, c) < k < s@.len() ==> s@[k] != c,
            -1 <= spec_last_index_of(s@, c) < s@.len(),
            forall|k: int| i <= k < n ==> s@[k] != c,
        decreases i,
    {
        i = i - 1;
        if s.get_char(i) == c {
            proof {
                let r = spec_last_index_of(s@, c);
                if r < i as int {
                    assert(s@[i as int] != c);
                }
                if r > i as int {
                    assert(s@[r] != c);
                }
            }
            return Some(i);
        }
    }
    proof {
        let r = spec_last_index_of(s@, c);
        if r >= 0 {
            assert(s@[r] != c);
        }
    }
    None
}

/// The smallest index at which `c` occurs in `s`, or `-1` if it does not.
pub open spec fn spec_first_index_of_char(s: Seq<char>, c: char) -> int
    decreases s.len(),
{
    if s.len() == 0 {
        -1
    } else if s.first() == c {
        0
    } else if spec_first_index_of_char(s.drop_first(), c) == -1 {
        -1
    } else {
        1 + spec_first_index_of_char(s.drop_first(), c)
    }
}

/// What `spec_first_index_of_char` returns: the first occurrence, or `-1`.
pub proof fn lemma_first_index_of_char(s: Seq<char>, c: char)
    ensures
        -1 <= spec_first_index_of_char(s, c) < s.len(),
        spec_first_index_of_char(s, c) >= 0 ==> s[spec_first_index_of_char(s, c)] == c,
        forall|k: int| 0 <= k < spec_first_index_of_char(s, c) ==> s[k] != c,
        spec_first_index_of_char(s, c) == -1 ==> forall|k: int| 0 <= k < s.len() ==> s[k] != c,
    decreases s.len(),
{
    if s.len() > 0 && s.first() != c {
        lemma_first_index_of_char(s.drop_first(), c);
        assert(forall|k: int| 0 <= k < s.len() - 1 ==> s.drop_first()[k] == s[k + 1]);
        assert forall|k: int| 0 <= k < spec_first_index_of_char(s, c) implies s[k] != c by {
            if k > 0 {
                assert(s.drop_first()[k - 1] == s[k]);
                assert(s.drop_first()[k - 1] != c);
            }
        }
        if spec_first_index_of_char(s.drop_first(), c) == -1 {
            assert forall|k: int| 0 <= k < s.len() implies s[k] != c by {
                if k > 0 {
                    assert(s.drop_first()[k - 1] == s[k]);
                }
            }
        }
    }
}

/// Finds the first occurrence of `c` in `s`, scanning characters.
pub fn first_index_of_char(s: &str, c: char) -> (r: Option<usize>)
    ensures
        match r {
            Some(i) => i as int == spec_first_index_of_char(s@, c),
            None => spec_first_index_of_char(s@, c) == -1,
        },
{
    proof {
        lemma_first_index_of_char(s@, c);
    }
    let n = s.unicode_len();
    for i in 0..n
        invariant
            n == s@.len(),
            -1 <= spec_first_index_of_char(s@, c) < s@.len(),
            spec_first_index_of_char(s@, c) >= 0 ==> s@[spec_first_index_of_char(s@, c)] == c,
            forall|k: int| 0 <= k < spec_first_index_of_char(s@, c) ==> s@[k] != c,
            spec_first_index_of_char(s@, c) == -1 ==> forall|k: int| 0 <= k < s@.len() ==> s@[k]
                != c,
            forall|k: int| 0 <= k < i ==> s@[k] != c,
    {
        if s.get_char(i) == c {
            proof {
                let r = spec_first_index_of_char(s@, c);
                if r == -1 {
                    assert(s@[i as int] != c);
                }
                if 0 <= r < i as int {
                    assert(s@[r] == c);
                    assert(s@[r] != c);
                }
                if r > i as int {
                    assert(s@[i as int] != c);
                }
            }
            return Some(i);
        }
    }
    proof {
        let r = spec_first_index_of_char(s@, c);
        if r >= 0 {
            assert(s@[r] != c);
        }
    }
    None
}

/// `s` with every `'/'` replaced by `'.'`.
pub open spec fn spec_dotted(s: Seq<char>) -> Seq<char> {
    s.map_values(
        |c: char|
            if c == '/' {
                '.'
            } else {
                c
            },
    )
}

/// Replaces every `'/'` with `'.'`, as dotted module paths use.
pub fn dotted_of(s: &str) -> (r: String)
    ensures
        r@ == spec_dotted(s@),
{
    let n = s.unicode_len();
    let mut out = String::new();
    for i in 0..n
        invariant
            n == s@.len(),
            out@.len() == i,
            forall|k: int| 0 <= k < i ==> out@[k] == spec_dotted(s@)[k],
    {
        let ch = s.get_char(i);
        if ch == '/' {
            string_push_char(&mut out, '.');
        } else {
            string_push_char(&mut out, ch);
        }
    }
    proof {
        assert(out@ =~= spec_dotted(s@));
    }
    out
}

} // verus!
