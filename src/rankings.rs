//! The ranking combiner: orders predicates by score, then by how early
//! they fire across the per-input rankings.
use vstd::prelude::*;
use crate::predicates::{score_eq, score_lt, SerializedPredicate};

verus! {

/// Fixed-point scale of a path rank: a rank of one is `PATH_RANK_SCALE`.
pub const PATH_RANK_SCALE: u128 = 0x1_0000_0000;

/// The first position of `a` in `s` from `i` on, or -1.
pub open spec fn first_position(s: Seq<usize>, a: usize, i: int) -> int
    decreases s.len() - i,
{
    if i < 0 || i >= s.len() {
        -1
    } else if s[i] == a {
        i
    } else {
        first_position(s, a, i + 1)
    }
}

/// The rank of `a` in one ranking, scaled: its first position divided by
/// the ranking's length, or two when absent.
pub open spec fn level_rank(a: usize, ranking: Seq<usize>) -> nat {
    let p = first_position(ranking, a, 0);
    if p < 0 {
        2 * PATH_RANK_SCALE as nat
    } else {
        ((p * PATH_RANK_SCALE as int) / ranking.len() as int) as nat
    }
}

/// The sum of the scaled ranks of `a` over the rankings; divided by their
/// number it is the mean path rank.
pub open spec fn path_rank_sum(a: usize, rankings: Seq<Vec<usize>>) -> nat
    decreases rankings.len(),
{
    if rankings.len() == 0 {
        0
    } else {
        path_rank_sum(a, rankings.drop_last()) + level_rank(a, rankings.last()@)
    }
}

/// The scaled rank of `address` in `rank`.
pub fn rank_path_level(address: usize, rank: &Vec<usize>) -> (r: u128)
    ensures
        r == level_rank(address, rank@),
        r <= 2 * PATH_RANK_SCALE,
{
    let mut k: usize = 0;
    while k < rank.len()
        invariant
            k <= rank@.len(),
            first_position(rank@, address, 0) == first_position(rank@, address, k as int),
        decreases rank@.len() - k,
    {
        if rank[k] == address {
            proof {
                assert(first_position(rank@, address, k as int) == k);
                assert(((k as int) * PATH_RANK_SCALE as int) / rank@.len() as int <= PATH_RANK_SCALE as int) by (nonlinear_arith)
                    requires
                        0 <= k < rank@.len(),
                ;
                assert((k as int) * (PATH_RANK_SCALE as int) <= 0xffff_ffff_ffff_ffff * 0x1_0000_0000) by (nonlinear_arith)
                    requires
                        0 <= k <= 0xffff_ffff_ffff_ffff,
                ;
            }
            return (k as u128) * PATH_RANK_SCALE / (rank.len() as u128);
        }
        k = k + 1;
    }
    2 * PATH_RANK_SCALE
}

/// The summed scaled rank of `address` over `rankings`.
pub fn path_rank(address: usize, rankings: &Vec<Vec<usize>>) -> (r: u128)
    ensures
        r == path_rank_sum(address, rankings@),
{
    let mut sum: u128 = 0;
    let mut i: usize = 0;
    while i < rankings.len()
        invariant
            i <= rankings@.len(),
            sum == path_rank_sum(address, rankings@.subrange(0, i as int)),
            sum <= i * 2 * PATH_RANK_SCALE,
        decreases rankings@.len() - i,
    {
        let level = rank_path_level(address, &rankings[i]);
        proof {
            let s1 = rankings@.subrange(0, i + 1);
            assert(s1.drop_last() =~= rankings@.subrange(0, i as int));
            assert(s1.last() == rankings@[i as int]);
            assert(i * 2 * PATH_RANK_SCALE + 2 * PATH_RANK_SCALE == (i + 1) * 2 * PATH_RANK_SCALE) by (nonlinear_arith);
            assert((i + 1) * 2 * PATH_RANK_SCALE <= 0x1_0000_0000_0000_0000 * 0x2_0000_0000) by (nonlinear_arith)
                requires
                    i < 0x1_0000_0000_0000_0000,
            ;
        }
        sum = sum + level;
        i = i + 1;
    }
    assert(rankings@.subrange(0, rankings@.len() as int) =~= rankings@);
    sum
}

/// Whether `x` goes before `y`: a higher score, or an equal score and a
/// lower path rank.
pub open spec fn goes_before(x: (SerializedPredicate, u128), y: (SerializedPredicate, u128)) -> bool {
    score_lt(y.0.score, x.0.score) || (score_eq(x.0.score, y.0.score) && x.1 < y.1)
}

/// `x` inserted into `s` after every entry it does not go before.
pub open spec fn insert_ranked(s: Seq<(SerializedPredicate, u128)>, x: (SerializedPredicate, u128)) -> Seq<(SerializedPredicate, u128)>
    decreases s.len(),
{
    if s.len() == 0 {
        seq![x]
    } else if goes_before(x, s[0]) {
        seq![x] + s
    } else {
        seq![s[0]] + insert_ranked(s.drop_first(), x)
    }
}

/// The entries of `s` ordered by inserting them one by one, first to last:
/// a stable order by score, then path rank.
pub open spec fn ranked(s: Seq<(SerializedPredicate, u128)>) -> Seq<(SerializedPredicate, u128)>
    decreases s.len(),
{
    if s.len() == 0 {
        Seq::empty()
    } else {
        insert_ranked(ranked(s.drop_last()), s.last())
    }
}

proof fn lemma_insert_at(s: Seq<(SerializedPredicate, u128)>, x: (SerializedPredicate, u128), j: int)
    requires
        0 <= j <= s.len(),
        forall|k: int| 0 <= k < j ==> !goes_before(x, #[trigger] s[k]),
        j < s.len() ==> goes_before(x, s[j]),
    ensures
        insert_ranked(s, x) == s.insert(j, x),
    decreases s.len(),
{
    if s.len() == 0 {
        assert(s.insert(j, x) =~= seq![x]);
    } else if j == 0 {
        assert(s.insert(0, x) =~= seq![x] + s);
    } else {
        let t = s.drop_first();
        assert forall|k: int| 0 <= k < j - 1 implies !goes_before(x, #[trigger] t[k]) by {
            assert(t[k] == s[k + 1]);
        }
        if j - 1 < t.len() {
            assert(t[j - 1] == s[j]);
        }
        lemma_insert_at(t, x, j - 1);
        assert(seq![s[0]] + t.insert(j - 1, x) =~= s.insert(j, x));
    }
}

/// The scores and path ranks of `predicates`, paired.
pub open spec fn keyed(predicates: Seq<SerializedPredicate>, rankings: Seq<Vec<usize>>) -> Seq<(SerializedPredicate, u128)> {
    predicates.map_values(|p: SerializedPredicate| (p, path_rank_sum(p.address, rankings) as u128))
}

/// Orders predicates by score, highest first, then by path rank, lowest
/// first; predicates equal in both keep their order.
pub fn order_predicates(predicates: Vec<SerializedPredicate>, rankings: &Vec<Vec<usize>>) -> (r: Vec<SerializedPredicate>)
    ensures
        r@ == ranked(keyed(predicates@, rankings@)).map_values(|x: (SerializedPredicate, u128)| x.0),
{
    let ghost input = predicates@;
    let ghost keys = keyed(input, rankings@);
    let mut rest = predicates;
    let n = rest.len();
    let mut out: Vec<(SerializedPredicate, u128)> = Vec::new();
    let mut i: usize = 0;
    while rest.len() > 0
        invariant
            i + rest@.len() == input.len(),
            input.len() == n,
            rest@ == input.subrange(i as int, input.len() as int),
            keys == keyed(input, rankings@),
            out@ == ranked(keys.subrange(0, i as int)),
        decreases rest@.len(),
    {
        let p = rest.remove(0);
        let key = path_rank(p.address, rankings);
        let x = (p, key);
        proof {
            assert(input[i as int] == x.0);
            assert(keys[i as int] == x);
        }
        let mut j: usize = 0;
        while j < out.len() && !before_exec(&x, &out[j])
            invariant
                j <= out@.len(),
                forall|k: int| 0 <= k < j ==> !goes_before(x, #[trigger] out@[k]),
            decreases out@.len() - j,
        {
            j = j + 1;
        }
        proof {
            lemma_insert_at(out@, x, j as int);
            let s1 = keys.subrange(0, i + 1);
            assert(s1.drop_last() =~= keys.subrange(0, i as int));
            assert(s1.last() == x);
        }
        out.insert(j, x);
        i = i + 1;
        proof {
            assert(rest@ =~= input.subrange(i as int, input.len() as int));
        }
    }
    assert(keys.subrange(0, i as int) =~= keys);
    let ghost final_out = out@;
    let m = out.len();
    let mut r: Vec<SerializedPredicate> = Vec::new();
    let mut k: usize = 0;
    while out.len() > 0
        invariant
            k + out@.len() == final_out.len(),
            final_out.len() == m,
            out@ == final_out.subrange(k as int, final_out.len() as int),
            r@ == final_out.subrange(0, k as int).map_values(|x: (SerializedPredicate, u128)| x.0),
        decreases out@.len(),
    {
        let (p, _) = out.remove(0);
        proof {
            assert(final_out[k as int].0 == p);
        }
        r.push(p);
        k = k + 1;
        proof {
            assert(final_out.subrange(0, k as int).map_values(|x: (SerializedPredicate, u128)| x.0)
                =~= final_out.subrange(0, k - 1).map_values(|x: (SerializedPredicate, u128)| x.0).push(p));
            assert(out@ =~= final_out.subrange(k as int, final_out.len() as int));
        }
    }
    assert(final_out.subrange(0, k as int) =~= final_out);
    r
}

fn before_exec(x: &(SerializedPredicate, u128), y: &(SerializedPredicate, u128)) -> (r: bool)
    ensures
        r == goes_before(*x, *y),
{
    y.0.score.less_than(&x.0.score) || (x.0.score.same_as(&y.0.score) && x.1 < y.1)
}

/// The combined ranking is a function of its inputs: the same predicates
/// and rankings always give the same order.
pub proof fn lemma_ranking_deterministic(
    p1: Seq<SerializedPredicate>,
    r1: Seq<Vec<usize>>,
    p2: Seq<SerializedPredicate>,
    r2: Seq<Vec<usize>>,
)
    requires
        p1 == p2,
        r1 == r2,
    ensures
        ranked(keyed(p1, r1)) == ranked(keyed(p2, r2)),
{
}

} // verus!
