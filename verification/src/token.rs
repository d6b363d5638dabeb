//! The token grammar of the dice language: what a single
//! whitespace-delimited token means — a dice clause such as `3d6` or
//! `+d20`, the comment sentinel `!`, or a signed integer modifier.

use vstd::prelude::*;

use crate::numbers::{
    all_digits, digit_of, digit_val, digits_val, is_digit, lemma_digits_val_extend,
    lemma_digits_val_prefix_le, lemma_digits_val_small,
};
use crate::request::Mode;

verus! {

/// The two accepted clause delimiters between count and face number.
pub open spec fn is_delim(c: char) -> bool {
    c == 'd' || c == 'w'
}

/// Index of the first delimiter at or after `i`, or `s.len()` if none.
pub open spec fn first_delim_from(s: Seq<char>, i: int) -> int
    decreases s.len() - i,
{
    if i < 0 || i >= s.len() {
        s.len() as int
    } else if is_delim(s[i]) {
        i
    } else {
        first_delim_from(s, i + 1)
    }
}

/// Index of the first delimiter of `s`, or `s.len()` if none.
pub open spec fn delim_pos(s: Seq<char>) -> int {
    first_delim_from(s, 0)
}

pub proof fn lemma_first_delim(s: Seq<char>, d: int)
    requires
        0 <= d <= s.len(),
        forall|j: int| 0 <= j < d ==> !is_delim(#[trigger] s[j]),
        d < s.len() ==> is_delim(s[d]),
    ensures
        delim_pos(s) == d,
{
    lemma_first_delim_from(s, 0, d);
}

proof fn lemma_first_delim_from(s: Seq<char>, i: int, d: int)
    requires
        0 <= i <= d <= s.len(),
        forall|j: int| i <= j < d ==> !is_delim(#[trigger] s[j]),
        d < s.len() ==> is_delim(s[d]),
    ensures
        first_delim_from(s, i) == d,
    decreases s.len() - i,
{
    if i < d {
        lemma_first_delim_from(s, i + 1, d);
    }
}

/// The count prefix of a clause token (everything before the delimiter).
pub open spec fn clause_prefix(s: Seq<char>) -> Seq<char> {
    s.subrange(0, delim_pos(s))
}

/// The face-number part of a clause token (everything after the
/// delimiter).
pub open spec fn clause_suffix(s: Seq<char>) -> Seq<char> {
    s.subrange(delim_pos(s) + 1, s.len() as int)
}

/// An admissible count prefix: one advantage/disadvantage sigil, or at
/// most two digits (possibly none).
pub open spec fn prefix_ok(p: Seq<char>) -> bool {
    ||| p == seq!['+']
    ||| p == seq!['-']
    ||| (p.len() <= 2 && all_digits(p))
}

/// Whether a token matches the dice-clause grammar: an admissible count
/// prefix, a delimiter, and one to three digits of face number.
pub open spec fn is_clause(s: Seq<char>) -> bool {
    &&& delim_pos(s) < s.len()
    &&& prefix_ok(clause_prefix(s))
    &&& 1 <= clause_suffix(s).len() <= 3
    &&& all_digits(clause_suffix(s))
}

/// The aggregation mode a clause token selects.
pub open spec fn clause_mode(s: Seq<char>) -> Mode {
    if clause_prefix(s) == seq!['+'] {
        Mode::Advantage
    } else if clause_prefix(s) == seq!['-'] {
        Mode::Disadvantage
    } else {
        Mode::Sum
    }
}

/// The number of dice a clause token asks for: two for a sigil, one for
/// an empty prefix, else the prefix read as a number.
pub open spec fn clause_count(s: Seq<char>) -> int {
    if clause_prefix(s) == seq!['+'] || clause_prefix(s) == seq!['-'] {
        2
    } else if clause_prefix(s).len() == 0 {
        1
    } else {
        digits_val(clause_prefix(s))
    }
}

/// The die size a clause token asks for.
pub open spec fn clause_faces(s: Seq<char>) -> int {
    digits_val(clause_suffix(s))
}

/// The count of a clause lies in the admissible range.
pub open spec fn clause_count_ok(s: Seq<char>) -> bool {
    1 <= clause_count(s) <= 50
}

/// The face number of a clause lies in the admissible range.
pub open spec fn clause_faces_ok(s: Seq<char>) -> bool {
    2 <= clause_faces(s) <= 100
}

/// Whether a token is the comment sentinel `!`.
pub open spec fn is_bang(s: Seq<char>) -> bool {
    s == seq!['!']
}

/// The digit part of a signed-integer token: everything after an
/// optional leading sign.
pub open spec fn int_body(s: Seq<char>) -> Seq<char> {
    if s.len() > 0 && (s[0] == '+' || s[0] == '-') {
        s.subrange(1, s.len() as int)
    } else {
        s
    }
}

/// Whether a signed-integer token denotes a negative number.
pub open spec fn int_is_neg(s: Seq<char>) -> bool {
    s.len() > 0 && s[0] == '-'
}

/// The signed value a well-shaped integer token denotes.
pub open spec fn int_val(s: Seq<char>) -> int {
    if int_is_neg(s) {
        -digits_val(int_body(s))
    } else {
        digits_val(int_body(s))
    }
}

/// Whether a token parses as a 32-bit signed integer: an optional sign,
/// at least one digit, nothing else, and a value within the `i32` range.
pub open spec fn is_int_token(s: Seq<char>) -> bool {
    &&& int_body(s).len() >= 1
    &&& all_digits(int_body(s))
    &&& i32::MIN <= int_val(s) <= i32::MAX
}

/// Whether `t` is the comment sentinel `!`.
pub fn bang_token(t: &str) -> (b: bool)
    ensures
        b == is_bang(t@),
{
    let n = t.unicode_len();
    proof {
        assert(seq!['!'].len() == 1);
    }
    if n != 1 {
        return false;
    }
    let c = t.get_char(0);
    proof {
        assert(t@ =~= seq![t@[0]]);
    }
    c == '!'
}

/// Reads a token as a dice clause, yielding its mode, raw count and raw
/// face number, without range checking; `None` when the token does not
/// match the clause grammar.
pub fn scan_clause(t: &str) -> (r: Option<(Mode, u8, u16)>)
    ensures
        match r {
            Some(p) => {
                &&& is_clause(t@)
                &&& p.0 == clause_mode(t@)
                &&& p.1 as int == clause_count(t@)
                &&& p.2 as int == clause_faces(t@)
            },
            None => !is_clause(t@),
        },
{
    let n = t.unicode_len();
    // Locate the delimiter between count prefix and face number.
    let mut d: usize = 0;
    loop
        invariant
            n == t@.len(),
            d <= n,
            forall|j: int| 0 <= j < d ==> !is_delim(#[trigger] t@[j]),
        ensures
            n == t@.len(),
            d <= n,
            forall|j: int| 0 <= j < d ==> !is_delim(#[trigger] t@[j]),
            d < n ==> is_delim(t@[d as int]),
        decreases n - d,
    {
        if d == n {
            break;
        }
        let c = t.get_char(d);
        if c == 'd' || c == 'w' {
            break;
        }
        d = d + 1;
    }
    if d == n {
        proof {
            lemma_first_delim(t@, n as int);
        }
        return None;
    }
    proof {
        lemma_first_delim(t@, d as int);
    }
    let ghost suf = clause_suffix(t@);
    proof {
        assert(suf =~= t@.subrange(d + 1, n as int));
    }
    // Read the face number: one to three digits.
    let flen = n - d - 1;
    if flen < 1 || flen > 3 {
        return None;
    }
    let mut faces: u16 = 0;
    let mut j: usize = 0;
    #[verifier::loop_isolation(false)]
    while j < flen
        invariant
            n == t@.len(),
            d < n,
            suf == t@.subrange(d + 1, n as int),
            1 <= flen <= 3,
            flen == n - d - 1,
            j <= flen,
            all_digits(suf.subrange(0, j as int)),
            faces as int == digits_val(suf.subrange(0, j as int)),
            faces <= 999,
        decreases flen - j,
    {
        let c = t.get_char(d + 1 + j);
        proof {
            assert(suf[j as int] == t@[d + 1 + j]);
        }
        match digit_of(c) {
            None => {
                proof {
                    assert(!is_digit(suf[j as int]));
                    assert(!all_digits(clause_suffix(t@)));
                }
                return None;
            },
            Some(dg) => {
                proof {
                    lemma_digits_val_extend(suf, j as int);
                    lemma_digits_val_small(suf.subrange(0, j as int));
                }
                faces = faces * 10 + dg as u16;
                proof {
                    assert(all_digits(suf.subrange(0, j + 1))) by {
                        assert(forall|k: int|
                            0 <= k < j + 1 ==> #[trigger] suf.subrange(0, j + 1)[k] == suf[k]);
                    }
                    lemma_digits_val_small(suf.subrange(0, j + 1));
                }
                j = j + 1;
            },
        }
    }
    proof {
        assert(suf.subrange(0, flen as int) =~= suf);
    }
    // Read the count prefix: a sigil, or up to two digits.
    let ghost pre = clause_prefix(t@);
    proof {
        assert(pre =~= t@.subrange(0, d as int));
    }
    if d == 1 {
        let c0 = t.get_char(0);
        proof {
            assert(pre =~= seq![t@[0]]);
        }
        if c0 == '+' {
            proof {
                assert(pre == seq!['+']);
            }
            return Some((Mode::Advantage, 2, faces));
        }
        if c0 == '-' {
            proof {
                assert(pre == seq!['-']);
                assert(pre != seq!['+']) by {
                    assert(pre[0] == '-');
                    assert(seq!['+'][0] == '+');
                }
            }
            return Some((Mode::Disadvantage, 2, faces));
        }
    }
    proof {
        assert(d == 1 ==> t@[0] != '+' && t@[0] != '-');
    }
    if d > 2 {
        proof {
            assert(pre.len() > 2);
            assert(pre != seq!['+'] && pre != seq!['-']) by {
                assert(seq!['+'].len() == 1 && seq!['-'].len() == 1);
            }
        }
        return None;
    }
    let mut count: u8 = 0;
    let mut k: usize = 0;
    #[verifier::loop_isolation(false)]
    while k < d
        invariant
            n == t@.len(),
            d < n,
            d <= 2,
            pre == t@.subrange(0, d as int),
            k <= d,
            all_digits(pre.subrange(0, k as int)),
            count as int == digits_val(pre.subrange(0, k as int)),
            count <= 99,
        decreases d - k,
    {
        let c = t.get_char(k);
        proof {
            assert(pre[k as int] == t@[k as int]);
        }
        match digit_of(c) {
            None => {
                proof {
                    assert(!is_digit(pre[k as int]));
                    assert(!all_digits(pre));
                    assert(pre != seq!['+'] && pre != seq!['-']) by {
                        if pre == seq!['+'] {
                            assert(pre.len() == 1);
                            assert(pre[0] == t@[0]);
                            assert(t@[0] == '+');
                        }
                        if pre == seq!['-'] {
                            assert(pre.len() == 1);
                            assert(pre[0] == t@[0]);
                            assert(t@[0] == '-');
                        }
                    }
                }
                return None;
            },
            Some(dg) => {
                proof {
                    lemma_digits_val_extend(pre, k as int);
                    lemma_digits_val_small(pre.subrange(0, k as int));
                }
                count = count * 10 + dg as u8;
                proof {
                    assert(all_digits(pre.subrange(0, k + 1))) by {
                        assert(forall|m: int|
                            0 <= m < k + 1 ==> #[trigger] pre.subrange(0, k + 1)[m] == pre[m]);
                    }
                    lemma_digits_val_small(pre.subrange(0, k + 1));
                }
                k = k + 1;
            },
        }
    }
    proof {
        assert(pre.subrange(0, d as int) =~= pre);
        assert(pre != seq!['+'] && pre != seq!['-']) by {
            if pre.len() == 1 {
                assert(is_digit(pre[0]));
            }
        }
    }
    if d == 0 {
        Some((Mode::Sum, 1, faces))
    } else {
        Some((Mode::Sum, count, faces))
    }
}

/// Reads a token as a signed 32-bit integer modifier; `None` when the
/// token is not such an integer.
pub fn scan_int(t: &str) -> (r: Option<i32>)
    ensures
        match r {
            Some(v) => is_int_token(t@) && v as int == int_val(t@),
            None => !is_int_token(t@),
        },
{
    let n = t.unicode_len();
    if n == 0 {
        return None;
    }
    let c0 = t.get_char(0);
    let neg = c0 == '-';
    let start: usize = if c0 == '-' || c0 == '+' {
        1
    } else {
        0
    };
    let ghost body = int_body(t@);
    proof {
        assert(body =~= t@.subrange(start as int, n as int));
    }
    if n == start {
        return None;
    }
    let mut acc: u64 = 0;
    let mut j: usize = start;
    #[verifier::loop_isolation(false)]
    while j < n
        invariant
            n == t@.len(),
            start <= j <= n,
            start < n,
            start <= 1,
            body == t@.subrange(start as int, n as int),
            neg == int_is_neg(t@),
            all_digits(body.subrange(0, j - start)),
            acc as int == digits_val(body.subrange(0, j - start)),
            acc <= 0x8000_0000,
        decreases n - j,
    {
        let c = t.get_char(j);
        proof {
            assert(body[j - start] == t@[j as int]);
        }
        match digit_of(c) {
            None => {
                proof {
                    assert(!is_digit(body[j - start]));
                    assert(!all_digits(int_body(t@)));
                }
                return None;
            },
            Some(dg) => {
                proof {
                    lemma_digits_val_extend(body, j - start);
                    lemma_digits_val_small(body.subrange(0, j - start));
                }
                acc = acc * 10 + dg as u64;
                proof {
                    assert(all_digits(body.subrange(0, j + 1 - start))) by {
                        assert(forall|m: int|
                            0 <= m < j + 1 - start ==> #[trigger] body.subrange(
                                0,
                                j + 1 - start,
                            )[m] == body[m]);
                    }
                }
                if acc > 0x8000_0000 {
                    proof {
                        if all_digits(body) {
                            lemma_digits_val_prefix_le(body, j + 1 - start);
                            assert(digits_val(body) >= acc);
                            assert(int_val(t@) > 0x8000_0000 || int_val(t@) < -0x8000_0000);
                        }
                        assert(!is_int_token(t@));
                    }
                    return None;
                }
                j = j + 1;
            },
        }
    }
    proof {
        assert(body.subrange(0, n - start) =~= body);
    }
    if neg {
        if acc == 0x8000_0000 {
            Some(i32::MIN)
        } else {
            Some(-(acc as i32))
        }
    } else {
        if acc == 0x8000_0000 {
            proof {
                assert(int_val(t@) == 0x8000_0000);
            }
            None
        } else {
            Some(acc as i32)
        }
    }
}

} // verus!
