//! The roll evaluator: draws the dice of every group of a request from
//! an injected random source and aggregates them into a total.

use vstd::prelude::*;

use crate::request::{DiceGroup, DiceRequest, Mode, RollOutcome};
use crate::rng::RandomSource;

verus! {

/// Sum of a result sequence.
pub open spec fn seq_sum(s: Seq<u16>) -> int
    decreases s.len(),
{
    if s.len() == 0 {
        0
    } else {
        seq_sum(s.drop_last()) + s.last()
    }
}

/// Largest element of a non-empty result sequence.
pub open spec fn seq_max(s: Seq<u16>) -> int
    recommends
        s.len() >= 1,
    decreases s.len(),
{
    if s.len() == 0 {
        0
    } else if s.len() == 1 {
        s[0] as int
    } else if s.last() as int > seq_max(s.drop_last()) {
        s.last() as int
    } else {
        seq_max(s.drop_last())
    }
}

/// Smallest element of a non-empty result sequence.
pub open spec fn seq_min(s: Seq<u16>) -> int
    recommends
        s.len() >= 1,
    decreases s.len(),
{
    if s.len() == 0 {
        0
    } else if s.len() == 1 {
        s[0] as int
    } else if (s.last() as int) < seq_min(s.drop_last()) {
        s.last() as int
    } else {
        seq_min(s.drop_last())
    }
}

/// What a group's results contribute to the total under a mode: their
/// sum, their maximum, or their minimum.
pub open spec fn contribution(mode: Mode, results: Seq<u16>) -> int {
    match mode {
        Mode::Sum => seq_sum(results),
        Mode::Advantage => seq_max(results),
        Mode::Disadvantage => seq_min(results),
    }
}

/// What one evaluated group contributes to the total.
pub open spec fn group_contribution(g: DiceGroup) -> int {
    contribution(g.mode, g.results@)
}

/// The contributions of a group sequence, added up.
pub open spec fn contribution_total(gs: Seq<DiceGroup>) -> int
    decreases gs.len(),
{
    if gs.len() == 0 {
        0
    } else {
        contribution_total(gs.drop_last()) + group_contribution(gs.last())
    }
}

/// The maximum of a non-empty sequence is one of its elements and
/// dominates all of them.
pub proof fn lemma_seq_max_is_max(s: Seq<u16>)
    requires
        s.len() >= 1,
    ensures
        exists|i: int| 0 <= i < s.len() && #[trigger] s[i] as int == seq_max(s),
        forall|i: int| 0 <= i < s.len() ==> #[trigger] s[i] as int <= seq_max(s),
    decreases s.len(),
{
    if s.len() > 1 {
        lemma_seq_max_is_max(s.drop_last());
        assert(forall|i: int|
            0 <= i < s.len() - 1 ==> #[trigger] s[i] == s.drop_last()[i]);
        if seq_max(s) == s.last() as int {
            assert(s[s.len() - 1] as int == seq_max(s));
        } else {
            let j = choose|j: int|
                0 <= j < s.drop_last().len() && #[trigger] s.drop_last()[j] as int == seq_max(
                    s.drop_last(),
                );
            assert(s[j] as int == seq_max(s));
        }
    } else {
        assert(s[0] as int == seq_max(s));
    }
}

/// The minimum of a non-empty sequence is one of its elements and is
/// dominated by all of them.
pub proof fn lemma_seq_min_is_min(s: Seq<u16>)
    requires
        s.len() >= 1,
    ensures
        exists|i: int| 0 <= i < s.len() && #[trigger] s[i] as int == seq_min(s),
        forall|i: int| 0 <= i < s.len() ==> #[trigger] s[i] as int >= seq_min(s),
    decreases s.len(),
{
    if s.len() > 1 {
        lemma_seq_min_is_min(s.drop_last());
        assert(forall|i: int|
            0 <= i < s.len() - 1 ==> #[trigger] s[i] == s.drop_last()[i]);
        if seq_min(s) == s.last() as int {
            assert(s[s.len() - 1] as int == seq_min(s));
        } else {
            let j = choose|j: int|
                0 <= j < s.drop_last().len() && #[trigger] s.drop_last()[j] as int == seq_min(
                    s.drop_last(),
                );
            assert(s[j] as int == seq_min(s));
        }
    } else {
        assert(s[0] as int == seq_min(s));
    }
}

/// The contribution of a well-formed evaluated group lies between one
/// and fifty-times-a-hundred.
pub proof fn lemma_contribution_bounds(g: DiceGroup)
    requires
        g.wf_rolled(),
    ensures
        1 <= group_contribution(g) <= 5000,
{
    match g.mode {
        Mode::Sum => {
            lemma_seq_sum_bounds(g.results@, g.faces as int);
            let len = g.results@.len() as int;
            let faces = g.faces as int;
            assert(len * faces <= 5000) by (nonlinear_arith)
                requires
                    0 <= len <= 50,
                    0 <= faces <= 100,
            ;
        },
        Mode::Advantage => {
            lemma_seq_max_is_max(g.results@);
            let i = choose|i: int|
                0 <= i < g.results@.len() && #[trigger] g.results@[i] as int == seq_max(
                    g.results@,
                );
            assert(1 <= g.results@[i] <= g.faces);
        },
        Mode::Disadvantage => {
            lemma_seq_min_is_min(g.results@);
            let i = choose|i: int|
                0 <= i < g.results@.len() && #[trigger] g.results@[i] as int == seq_min(
                    g.results@,
                );
            assert(1 <= g.results@[i] <= g.faces);
        },
    }
}

/// An advantage or disadvantage group always rolls exactly two dice,
/// and its contribution is the larger, respectively the smaller, of
/// the two results — whatever the random outcomes were.
pub proof fn lemma_extreme_modes(g: DiceGroup)
    requires
        g.wf_rolled(),
        g.mode != Mode::Sum,
    ensures
        g.count == 2,
        g.results@.len() == 2,
        g.mode == Mode::Advantage ==> group_contribution(g) == (if g.results@[0] >= g.results@[1] {
            g.results@[0]
        } else {
            g.results@[1]
        }) as int,
        g.mode == Mode::Disadvantage ==> group_contribution(g) == (if g.results@[0]
            <= g.results@[1] {
            g.results@[0]
        } else {
            g.results@[1]
        }) as int,
{
    let s = g.results@;
    assert(s.drop_last().len() == 1);
    assert(s.drop_last()[0] == s[0]);
    assert(s.last() == s[1]);
    assert(seq_max(s.drop_last()) == s[0] as int);
    assert(seq_min(s.drop_last()) == s[0] as int);
}

/// A sum of dice all in `[1, faces]` lies between the count and the
/// count times `faces`.
pub proof fn lemma_seq_sum_bounds(s: Seq<u16>, faces: int)
    requires
        forall|i: int| 0 <= i < s.len() ==> 1 <= #[trigger] s[i] as int <= faces,
    ensures
        s.len() <= seq_sum(s) <= s.len() * faces,
    decreases s.len(),
{
    if s.len() > 0 {
        assert(forall|i: int|
            0 <= i < s.len() - 1 ==> #[trigger] s.drop_last()[i] == s[i]);
        lemma_seq_sum_bounds(s.drop_last(), faces);
        assert(1 <= s.last() as int <= faces);
        assert((s.len() - 1) * faces + faces == s.len() as int * faces) by (nonlinear_arith);
    }
}

/// Evaluates a parsed request: every group receives one result per die,
/// each drawn from `[1, faces]`, and the total is the modifier plus
/// every group's contribution.
pub fn evaluate<R: RandomSource>(request: &DiceRequest, rng: &mut R) -> (out: RollOutcome)
    requires
        request.wf(),
    ensures
        out.groups@.len() == request.groups@.len(),
        forall|i: int|
            0 <= i < out.groups@.len() ==> {
                let g = #[trigger] out.groups@[i];
                let q = request.groups@[i];
                &&& g.mode == q.mode
                &&& g.count == q.count
                &&& g.faces == q.faces
                &&& g.wf_rolled()
            },
        out.total as int == request.modifier + contribution_total(out.groups@),
{
    let n = request.groups.len();
    let mut out_groups: Vec<DiceGroup> = Vec::new();
    let mut total: i128 = request.modifier as i128;
    let mut i: usize = 0;
    #[verifier::loop_isolation(false)]
    while i < n
        invariant
            i <= n,
            out_groups@.len() == i,
            forall|k: int|
                0 <= k < i ==> {
                    let g = #[trigger] out_groups@[k];
                    let q = request.groups@[k];
                    &&& g.mode == q.mode
                    &&& g.count == q.count
                    &&& g.faces == q.faces
                    &&& g.wf_rolled()
                },
            total as int == request.modifier + contribution_total(out_groups@),
            total <= i64::MAX + 5000 * (i as int),
            total >= i64::MIN,
        decreases n - i,
    {
        let q = &request.groups[i];
        let mut results: Vec<u16> = Vec::new();
        let count = q.count;
        let faces = q.faces;
        let mode = q.mode;
        let mut j: usize = 0;
        #[verifier::loop_isolation(false)]
        while j < count as usize
            invariant
                j <= count as usize,
                results@.len() == j,
                forall|k: int| 0 <= k < j ==> 1 <= #[trigger] results@[k] <= faces,
            decreases count as usize - j,
        {
            let die = rng.sample(1, faces);
            results.push(die);
            j = j + 1;
        }
        let part: u32 = aggregate(mode, &results, faces);
        let g = DiceGroup { mode, count, faces, results };
        proof {
            assert(g.wf_rolled());
            lemma_contribution_bounds(g);
            assert(out_groups@.push(g).drop_last() =~= out_groups@);
        }
        out_groups.push(g);
        total = total + part as i128;
        i = i + 1;
    }
    RollOutcome { total, groups: out_groups }
}

/// Aggregates one group's results under its mode.
fn aggregate(mode: Mode, results: &Vec<u16>, faces: u16) -> (c: u32)
    requires
        1 <= results@.len() <= 50,
        faces <= 100,
        forall|k: int| 0 <= k < results@.len() ==> 1 <= #[trigger] results@[k] <= faces,
    ensures
        c as int == contribution(mode, results@),
{
    let n = results.len();
    match mode {
        Mode::Sum => {
            let mut sum: u32 = 0;
            let mut k: usize = 0;
            #[verifier::loop_isolation(false)]
            while k < n
                invariant
                    k <= n,
                    sum as int == seq_sum(results@.subrange(0, k as int)),
                    sum <= 100 * (k as u32),
                decreases n - k,
            {
                proof {
                    assert(results@.subrange(0, k + 1).drop_last() =~= results@.subrange(
                        0,
                        k as int,
                    ));
                    assert(results@.subrange(0, k + 1).last() == results@[k as int]);
                }
                sum = sum + results[k] as u32;
                k = k + 1;
            }
            proof {
                assert(results@.subrange(0, n as int) =~= results@);
            }
            sum
        },
        Mode::Advantage => {
            let mut best: u16 = results[0];
            let mut k: usize = 1;
            #[verifier::loop_isolation(false)]
            while k < n
                invariant
                    1 <= k <= n,
                    best as int == seq_max(results@.subrange(0, k as int)),
                decreases n - k,
            {
                proof {
                    assert(results@.subrange(0, k + 1).drop_last() =~= results@.subrange(
                        0,
                        k as int,
                    ));
                    assert(results@.subrange(0, k + 1).last() == results@[k as int]);
                }
                if results[k] > best {
                    best = results[k];
                }
                k = k + 1;
            }
            proof {
                assert(results@.subrange(0, 1).len() == 1);
                assert(results@.subrange(0, n as int) =~= results@);
            }
            best as u32
        },
        Mode::Disadvantage => {
            let mut best: u16 = results[0];
            let mut k: usize = 1;
            #[verifier::loop_isolation(false)]
            while k < n
                invariant
                    1 <= k <= n,
                    best as int == seq_min(results@.subrange(0, k as int)),
                decreases n - k,
            {
                proof {
                    assert(results@.subrange(0, k + 1).drop_last() =~= results@.subrange(
                        0,
                        k as int,
                    ));
                    assert(results@.subrange(0, k + 1).last() == results@[k as int]);
                }
                if results[k] < best {
                    best = results[k];
                }
                k = k + 1;
            }
            proof {
                assert(results@.subrange(0, 1).len() == 1);
                assert(results@.subrange(0, n as int) =~= results@);
            }
            best as u32
        },
    }
}

} // verus!
