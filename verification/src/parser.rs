//! The notation parser: turns a sequence of whitespace-delimited tokens
//! into a [`DiceRequest`], or reports why it cannot.
//!
//! A token matching the clause grammar becomes a dice group; the first
//! `!` token starts the comment; every other token before the `!` that
//! reads as a signed integer is added to the modifier, and the rest are
//! ignored.

use vstd::prelude::*;

use crate::numbers::{
    all_digits, digits_of, digits_val, is_digit, lemma_digits_of_val, push_decimal,
};
use crate::request::{DiceGroup, DiceRequest, Mode, ParseError};
use crate::token::{
    bang_token, clause_count, clause_count_ok, clause_faces, clause_faces_ok, clause_mode,
    clause_prefix, clause_suffix, int_body, int_val, is_bang, is_clause, is_delim,
    is_int_token, lemma_first_delim, scan_clause, scan_int,
};

verus! {

/// The views of a token list: each token as its character sequence.
pub open spec fn views(tokens: Seq<String>) -> Seq<Seq<char>> {
    Seq::new(tokens.len(), |i: int| tokens[i]@)
}

/// Index of the first comment sentinel at or after `i`, or `ts.len()`.
pub open spec fn bang_from(ts: Seq<Seq<char>>, i: int) -> int
    decreases ts.len() - i,
{
    if i < 0 || i >= ts.len() {
        ts.len() as int
    } else if is_bang(ts[i]) {
        i
    } else {
        bang_from(ts, i + 1)
    }
}

/// Index of the first comment sentinel, or `ts.len()` when there is
/// none: tokens before it are parsed, tokens after it are the comment.
pub open spec fn bang_limit(ts: Seq<Seq<char>>) -> int {
    bang_from(ts, 0)
}

pub proof fn lemma_bang_limit(ts: Seq<Seq<char>>, b: int)
    requires
        0 <= b <= ts.len(),
        forall|j: int| 0 <= j < b ==> !is_bang(#[trigger] ts[j]),
        b < ts.len() ==> is_bang(ts[b]),
    ensures
        bang_limit(ts) == b,
{
    lemma_bang_from(ts, 0, b);
}

/// The first sentinel cannot lie among tokens known not to be one.
pub proof fn lemma_bang_limit_ge(ts: Seq<Seq<char>>, k: int)
    requires
        0 <= k <= ts.len(),
        forall|j: int| 0 <= j < k ==> !is_bang(#[trigger] ts[j]),
    ensures
        bang_limit(ts) >= k,
{
    lemma_bang_from_ge(ts, 0, k);
}

proof fn lemma_bang_from_ge(ts: Seq<Seq<char>>, i: int, k: int)
    requires
        0 <= i <= k <= ts.len(),
        forall|j: int| i <= j < k ==> !is_bang(#[trigger] ts[j]),
    ensures
        bang_from(ts, i) >= k,
    decreases ts.len() - i,
{
    if i < k {
        lemma_bang_from_ge(ts, i + 1, k);
    } else {
        lemma_bang_from_bounds(ts, i);
    }
}

/// `bang_from(ts, i)` always lies between `i` and `ts.len()`.
pub proof fn lemma_bang_from_bounds(ts: Seq<Seq<char>>, i: int)
    requires
        0 <= i <= ts.len(),
    ensures
        i <= bang_from(ts, i) <= ts.len(),
    decreases ts.len() - i,
{
    if i < ts.len() && !is_bang(ts[i]) {
        lemma_bang_from_bounds(ts, i + 1);
    }
}

proof fn lemma_bang_from(ts: Seq<Seq<char>>, i: int, b: int)
    requires
        0 <= i <= b <= ts.len(),
        forall|j: int| i <= j < b ==> !is_bang(#[trigger] ts[j]),
        b < ts.len() ==> is_bang(ts[b]),
    ensures
        bang_from(ts, i) == b,
    decreases ts.len() - i,
{
    if i < b {
        lemma_bang_from(ts, i + 1, b);
    }
}

/// The clause tokens among the first `end` tokens, in order.
pub open spec fn clause_views(ts: Seq<Seq<char>>, end: int) -> Seq<Seq<char>>
    decreases end,
{
    if end <= 0 || end > ts.len() {
        Seq::empty()
    } else if is_clause(ts[end - 1]) {
        clause_views(ts, end - 1).push(ts[end - 1])
    } else {
        clause_views(ts, end - 1)
    }
}

/// A clause whose count and face number both lie in range.
pub open spec fn clause_ok(s: Seq<char>) -> bool {
    clause_count_ok(s) && clause_faces_ok(s)
}

/// The error a clause with an out-of-range number draws: the count is
/// checked before the face number.
pub open spec fn bad_err(s: Seq<char>) -> ParseError {
    if !clause_count_ok(s) {
        ParseError::CountOutOfRange
    } else {
        ParseError::FaceCountOutOfRange
    }
}

/// Index of the first out-of-range clause in `[i, end)`, or `end`.
pub open spec fn first_bad_from(ts: Seq<Seq<char>>, i: int, end: int) -> int
    decreases end - i,
{
    if i < 0 || i >= end || end > ts.len() {
        end
    } else if is_clause(ts[i]) && !clause_ok(ts[i]) {
        i
    } else {
        first_bad_from(ts, i + 1, end)
    }
}

pub proof fn lemma_first_bad(ts: Seq<Seq<char>>, i: int, b: int, end: int)
    requires
        0 <= i <= b <= end <= ts.len(),
        forall|j: int| i <= j < b ==> !(is_clause(#[trigger] ts[j]) && !clause_ok(ts[j])),
        b < end ==> is_clause(ts[b]) && !clause_ok(ts[b]),
    ensures
        first_bad_from(ts, i, end) == b,
    decreases b - i,
{
    if i < b {
        lemma_first_bad(ts, i + 1, b, end);
    }
}

/// Saturation of an unbounded integer at the `i64` bounds.
pub open spec fn sat_i64(x: int) -> int {
    if x > i64::MAX {
        i64::MAX as int
    } else if x < i64::MIN {
        i64::MIN as int
    } else {
        x
    }
}

/// The modifier gathered from the first `end` tokens: every token that
/// reads as a signed integer is added, saturating at the `i64` bounds.
pub open spec fn mod_sum(ts: Seq<Seq<char>>, end: int) -> int
    decreases end,
{
    if end <= 0 || end > ts.len() {
        0
    } else if is_int_token(ts[end - 1]) {
        sat_i64(mod_sum(ts, end - 1) + int_val(ts[end - 1]))
    } else {
        mod_sum(ts, end - 1)
    }
}

/// The tokens `ts[lo..hi]` joined with single spaces.
pub open spec fn join_range(ts: Seq<Seq<char>>, lo: int, hi: int) -> Seq<char>
    decreases hi,
{
    if hi <= lo || lo < 0 || hi > ts.len() {
        Seq::empty()
    } else if hi == lo + 1 {
        ts[lo]
    } else {
        join_range(ts, lo, hi - 1) + seq![' '] + ts[hi - 1]
    }
}

/// The comment of a token list: everything after the first sentinel,
/// joined with single spaces; empty when there is no sentinel.
pub open spec fn comment_of(ts: Seq<Seq<char>>) -> Seq<char> {
    join_range(ts, bang_limit(ts) + 1, ts.len() as int)
}

/// An unevaluated group carrying exactly what a clause token says.
pub open spec fn group_matches(g: DiceGroup, s: Seq<char>) -> bool {
    &&& g.mode == clause_mode(s)
    &&& g.count as int == clause_count(s)
    &&& g.faces as int == clause_faces(s)
    &&& g.results@.len() == 0
}

/// Adds `v` to `acc`, saturating at the `i64` bounds.
fn saturating_add_i64(acc: i64, v: i32) -> (r: i64)
    ensures
        r as int == sat_i64(acc + v),
{
    let wide: i128 = acc as i128 + v as i128;
    if wide > i64::MAX as i128 {
        i64::MAX
    } else if wide < i64::MIN as i128 {
        i64::MIN
    } else {
        wide as i64
    }
}

/// A clause token is never the comment sentinel.
proof fn lemma_clause_not_bang(s: Seq<char>)
    requires
        is_clause(s),
    ensures
        !is_bang(s),
{
    if is_bang(s) {
        assert(s == seq!['!']);
        assert(s[0] == '!');
        reveal_with_fuel(crate::token::first_delim_from, 3);
        assert(crate::token::delim_pos(s) == 1);
    }
}

/// Parses a token sequence into a dice request.
///
/// Every token matching the clause grammar before the first `!` becomes
/// one group, in order; the parse fails on the first clause whose count
/// or face number is out of range, and fails with
/// [`ParseError::NoDiceFound`] when no token is a clause. Integer
/// tokens before the `!` accumulate into the modifier; tokens after the
/// `!` form the comment.
pub fn parse(tokens: &Vec<String>) -> (r: Result<DiceRequest, ParseError>)
    ensures
        ({
            let ts = views(tokens@);
            let end = bang_limit(ts);
            match r {
                Ok(req) => {
                    &&& first_bad_from(ts, 0, end) == end
                    &&& clause_views(ts, end).len() >= 1
                    &&& req.groups@.len() == clause_views(ts, end).len()
                    &&& (forall|k: int|
                        0 <= k < req.groups@.len() ==> group_matches(
                            #[trigger] req.groups@[k],
                            clause_views(ts, end)[k],
                        ))
                    &&& req.modifier as int == mod_sum(ts, end)
                    &&& req.comment@ == comment_of(ts)
                    &&& req.wf()
                },
                Err(e) => {
                    &&& (first_bad_from(ts, 0, end) < end || clause_views(ts, end).len() == 0)
                    &&& (if first_bad_from(ts, 0, end) < end {
                        e == bad_err(ts[first_bad_from(ts, 0, end)])
                    } else {
                        clause_views(ts, end).len() == 0 && e == ParseError::NoDiceFound
                    })
                },
            }
        }),
{
    let ghost ts = views(tokens@);
    let n = tokens.len();
    proof {
        assert(ts.len() == n);
    }
    let mut groups: Vec<DiceGroup> = Vec::new();
    let mut i: usize = 0;
    let mut found_bang = false;

    // First pass: collect the dice clauses, stop at the sentinel.
    #[verifier::loop_isolation(false)]
    while i < n && !found_bang
        invariant
            i <= n,
            forall|j: int| 0 <= j < i ==> !is_bang(#[trigger] ts[j]),
            found_bang ==> i < n && is_bang(ts[i as int]),
            forall|j: int| 0 <= j < i ==> !(is_clause(#[trigger] ts[j]) && !clause_ok(ts[j])),
            groups@.len() == clause_views(ts, i as int).len(),
            forall|k: int|
                0 <= k < groups@.len() ==> group_matches(
                    #[trigger] groups@[k],
                    clause_views(ts, i as int)[k],
                ),
            forall|k: int| 0 <= k < groups@.len() ==> (#[trigger] groups@[k]).wf_unrolled(),
        decreases n - i + (if found_bang { 0int } else { 1int }),
    {
        let tok = &tokens[i];
        proof {
            assert(ts[i as int] == tok@);
        }
        if bang_token(tok.as_str()) {
            found_bang = true;
        } else {
            match scan_clause(tok.as_str()) {
                Some((mode, count, faces)) => {
                    proof {
                        lemma_clause_not_bang(ts[i as int]);
                    }
                    if count < 1 || count > 50 {
                        proof {
                            lemma_bang_limit_ge(ts, i + 1);
                            lemma_bang_from_bounds(ts, 0);
                            lemma_first_bad(ts, 0, i as int, bang_limit(ts));
                        }
                        return Err(ParseError::CountOutOfRange);
                    }
                    if faces < 2 || faces > 100 {
                        proof {
                            lemma_bang_limit_ge(ts, i + 1);
                            lemma_bang_from_bounds(ts, 0);
                            lemma_first_bad(ts, 0, i as int, bang_limit(ts));
                        }
                        return Err(ParseError::FaceCountOutOfRange);
                    }
                    let group = DiceGroup { mode, count, faces, results: Vec::new() };
                    groups.push(group);
                },
                None => {},
            }
            i = i + 1;
        }
    }
    let ghost end = bang_limit(ts);
    proof {
        lemma_bang_limit(ts, i as int);
        assert(end == i);
        lemma_first_bad(ts, 0, i as int, end);
    }

    if groups.len() == 0 {
        return Err(ParseError::NoDiceFound);
    }

    // Second pass: gather integer modifiers from the tokens before the
    // sentinel.
    let mut modifier: i64 = 0;
    let mut j: usize = 0;
    #[verifier::loop_isolation(false)]
    while j < i
        invariant
            j <= i,
            modifier as int == mod_sum(ts, j as int),
        decreases i - j,
    {
        let tok = &tokens[j];
        proof {
            assert(ts[j as int] == tok@);
        }
        match scan_int(tok.as_str()) {
            Some(v) => {
                modifier = saturating_add_i64(modifier, v);
            },
            None => {},
        }
        j = j + 1;
    }

    // Third pass: join the tokens after the sentinel into the comment.
    let mut comment = String::new();
    if found_bang {
        let mut j2: usize = i + 1;
        #[verifier::loop_isolation(false)]
        while j2 < n
            invariant
                i + 1 <= j2 <= n,
                comment@ == join_range(ts, i + 1, j2 as int),
            decreases n - j2,
        {
            let tok = &tokens[j2];
            proof {
                assert(ts[j2 as int] == tok@);
                reveal_strlit(" ");
                assert(" "@ =~= seq![' ']);
            }
            if j2 > i + 1 {
                comment.append(" ");
            }
            comment.append(tok.as_str());
            proof {
                assert(comment@ =~= join_range(ts, i + 1, j2 + 1));
            }
            j2 = j2 + 1;
        }
    }
    proof {
        assert(comment@ == comment_of(ts));
    }

    let req = DiceRequest { groups, modifier, comment };
    Ok(req)
}

/// The canonical clause token of a group: `3d6` for a sum group,
/// `+d20` for advantage, `-d20` for disadvantage.
pub open spec fn group_token(g: DiceGroup) -> Seq<char> {
    if g.mode == Mode::Advantage {
        seq!['+', 'd'] + digits_of(g.faces as nat)
    } else if g.mode == Mode::Disadvantage {
        seq!['-', 'd'] + digits_of(g.faces as nat)
    } else {
        digits_of(g.count as nat) + seq!['d'] + digits_of(g.faces as nat)
    }
}

/// Writes every group of a request back as its canonical clause token.
pub fn clause_tokens(req: &DiceRequest) -> (r: Vec<String>)
    ensures
        r@.len() == req.groups@.len(),
        forall|k: int| 0 <= k < r@.len() ==> (#[trigger] r@[k])@ == group_token(req.groups@[k]),
{
    let n = req.groups.len();
    let mut out: Vec<String> = Vec::new();
    let mut i: usize = 0;
    #[verifier::loop_isolation(false)]
    while i < n
        invariant
            i <= n,
            out@.len() == i,
            forall|k: int| 0 <= k < i ==> (#[trigger] out@[k])@ == group_token(req.groups@[k]),
        decreases n - i,
    {
        let g = &req.groups[i];
        let mut s = String::new();
        proof {
            reveal_strlit("+d");
            reveal_strlit("-d");
            reveal_strlit("d");
            assert("+d"@ =~= seq!['+', 'd']);
            assert("-d"@ =~= seq!['-', 'd']);
            assert("d"@ =~= seq!['d']);
        }
        match g.mode {
            Mode::Advantage => {
                s.append("+d");
                push_decimal(&mut s, g.faces as u64);
            },
            Mode::Disadvantage => {
                s.append("-d");
                push_decimal(&mut s, g.faces as u64);
            },
            Mode::Sum => {
                push_decimal(&mut s, g.count as u64);
                s.append("d");
                push_decimal(&mut s, g.faces as u64);
            },
        }
        proof {
            assert(s@ =~= group_token(req.groups@[i as int]));
        }
        out.push(s);
        i = i + 1;
    }
    out
}

/// A digit is never a clause delimiter.
proof fn lemma_digit_not_delim(c: char)
    requires
        is_digit(c),
    ensures
        !is_delim(c),
{
    assert('d' as u32 == 100);
    assert('w' as u32 == 119);
}

/// The canonical token of a well-formed unevaluated group is a clause
/// in range, and reads back as exactly that group.
pub proof fn lemma_group_token_parses(g: DiceGroup)
    requires
        g.ranges_ok(),
    ensures
        is_clause(group_token(g)),
        clause_ok(group_token(g)),
        clause_mode(group_token(g)) == g.mode,
        clause_count(group_token(g)) == g.count,
        clause_faces(group_token(g)) == g.faces,
{
    let t = group_token(g);
    let fd = digits_of(g.faces as nat);
    lemma_digits_of_val(g.faces as nat);
    assert(forall|j: int| 0 <= j < fd.len() ==> !is_delim(#[trigger] fd[j])) by {
        assert forall|j: int| 0 <= j < fd.len() implies !is_delim(#[trigger] fd[j]) by {
            lemma_digit_not_delim(fd[j]);
        }
    }
    if g.mode == Mode::Advantage || g.mode == Mode::Disadvantage {
        assert(t.len() == 2 + fd.len());
        assert(!is_delim(t[0]));
        assert(is_delim(t[1]));
        lemma_first_delim(t, 1);
        assert(clause_prefix(t) =~= seq![t[0]]);
        assert(clause_suffix(t) =~= fd);
        if g.mode == Mode::Advantage {
            assert(clause_prefix(t) == seq!['+']);
        } else {
            assert(clause_prefix(t) == seq!['-']);
            assert(clause_prefix(t) != seq!['+']) by {
                assert(clause_prefix(t)[0] == '-');
                assert(seq!['+'][0] == '+');
            }
        }
    } else {
        let cd = digits_of(g.count as nat);
        lemma_digits_of_val(g.count as nat);
        let p = cd.len() as int;
        assert(t.len() == p + 1 + fd.len());
        assert(forall|j: int| 0 <= j < p ==> t[j] == cd[j]);
        assert(forall|j: int| 0 <= j < p ==> !is_delim(#[trigger] t[j])) by {
            assert forall|j: int| 0 <= j < p implies !is_delim(#[trigger] t[j]) by {
                assert(t[j] == cd[j]);
                lemma_digit_not_delim(cd[j]);
            }
        }
        assert(t[p] == 'd');
        lemma_first_delim(t, p);
        assert(clause_prefix(t) =~= cd);
        assert(clause_suffix(t) =~= fd);
        assert(clause_prefix(t) != seq!['+'] && clause_prefix(t) != seq!['-']) by {
            if clause_prefix(t) == seq!['+'] {
                assert(cd[0] == '+');
                assert(is_digit(cd[0]));
            }
            if clause_prefix(t) == seq!['-'] {
                assert(cd[0] == '-');
                assert(is_digit(cd[0]));
            }
        }
        assert(clause_count(t) == digits_val(cd) == g.count);
    }
}

/// The canonical token of a group never reads as an integer modifier.
pub proof fn lemma_group_token_not_int(g: DiceGroup)
    requires
        g.ranges_ok(),
    ensures
        !is_int_token(group_token(g)),
{
    let t = group_token(g);
    lemma_group_token_parses(g);
    let fd = digits_of(g.faces as nat);
    lemma_digits_of_val(g.faces as nat);
    if g.mode == Mode::Advantage || g.mode == Mode::Disadvantage {
        assert(t[0] == '+' || t[0] == '-');
        assert(int_body(t) =~= t.subrange(1, t.len() as int));
        assert(int_body(t)[0] == 'd');
        assert(!is_digit('d'));
        assert(!all_digits(int_body(t)));
    } else {
        let cd = digits_of(g.count as nat);
        lemma_digits_of_val(g.count as nat);
        let p = cd.len() as int;
        assert(t[0] == cd[0]);
        assert(is_digit(cd[0]));
        assert(t[0] != '+' && t[0] != '-') by {
            assert('+' as u32 == 43);
            assert('-' as u32 == 45);
        }
        assert(int_body(t) == t);
        assert(t[p] == 'd');
        assert(!is_digit('d'));
        assert(!all_digits(int_body(t)));
    }
}

/// Token lists made only of clauses keep every token.
proof fn lemma_clause_views_all(ts: Seq<Seq<char>>, end: int)
    requires
        0 <= end <= ts.len(),
        forall|j: int| 0 <= j < end ==> is_clause(#[trigger] ts[j]),
    ensures
        clause_views(ts, end) =~= ts.subrange(0, end),
    decreases end,
{
    if end > 0 {
        lemma_clause_views_all(ts, end - 1);
        assert(clause_views(ts, end) =~= clause_views(ts, end - 1).push(ts[end - 1]));
        assert(ts.subrange(0, end) =~= ts.subrange(0, end - 1).push(ts[end - 1]));
    }
}

/// Token lists with no integer token gather no modifier.
proof fn lemma_mod_sum_zero(ts: Seq<Seq<char>>, end: int)
    requires
        0 <= end <= ts.len(),
        forall|j: int| 0 <= j < end ==> !is_int_token(#[trigger] ts[j]),
    ensures
        mod_sum(ts, end) == 0,
    decreases end,
{
    if end > 0 {
        lemma_mod_sum_zero(ts, end - 1);
    }
}

/// Reconstitution round-trip: the canonical clause tokens of a
/// well-formed request parse back to the very same groups, with a zero
/// modifier and an empty comment. Together with the contract of
/// [`parse`], this says that `parse(clause_tokens(req))` succeeds and
/// returns a request equivalent to `req` up to modifier and comment.
pub proof fn lemma_round_trip(req: DiceRequest, ts: Seq<Seq<char>>)
    requires
        req.wf(),
        ts.len() == req.groups@.len(),
        forall|k: int| 0 <= k < ts.len() ==> ts[k] == group_token(#[trigger] req.groups@[k]),
    ensures
        bang_limit(ts) == ts.len(),
        first_bad_from(ts, 0, ts.len() as int) == ts.len(),
        clause_views(ts, ts.len() as int) =~= ts,
        clause_views(ts, ts.len() as int).len() == req.groups@.len() >= 1,
        forall|k: int|
            0 <= k < ts.len() ==> group_matches(#[trigger] req.groups@[k], ts[k]),
        mod_sum(ts, ts.len() as int) == 0,
        comment_of(ts) == Seq::<char>::empty(),
{
    let end = ts.len() as int;
    assert forall|k: int| 0 <= k < end implies is_clause(#[trigger] ts[k]) && clause_ok(ts[k])
        && !is_int_token(ts[k]) && !is_bang(ts[k]) && group_matches(req.groups@[k], ts[k]) by {
        let g = req.groups@[k];
        assert(g.wf_unrolled());
        lemma_group_token_parses(g);
        lemma_group_token_not_int(g);
        lemma_clause_not_bang(ts[k]);
    }
    lemma_bang_limit(ts, end);
    lemma_first_bad(ts, 0, end, end);
    lemma_clause_views_all(ts, end);
    assert(ts.subrange(0, end) =~= ts);
    lemma_mod_sum_zero(ts, end);
}

} // verus!
