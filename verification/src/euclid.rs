use vstd::prelude::*;
use vstd::arithmetic::div_mod::lemma_fundamental_div_mod;

verus! {

// ---------------------------------------------------------------------------
// Counting hits
// ---------------------------------------------------------------------------

/// The number of hits (`true` cells) in a pattern.
pub open spec fn hit_count(s: Seq<bool>) -> nat
    decreases s.len(),
{
    if s.len() == 0 {
        0
    } else {
        hit_count(s.drop_last()) + if s.last() {
            1nat
        } else {
            0nat
        }
    }
}

/// Hits of a concatenation are the hits of its parts.
pub proof fn lemma_hit_count_concat(a: Seq<bool>, b: Seq<bool>)
    ensures
        hit_count(a + b) == hit_count(a) + hit_count(b),
    decreases b.len(),
{
    if b.len() == 0 {
        assert(a + b =~= a);
    } else {
        lemma_hit_count_concat(a, b.drop_last());
        assert((a + b).drop_last() =~= a + b.drop_last());
        assert((a + b).last() == b.last());
    }
}

/// A pattern made of one value throughout has no hits, or only hits.
pub proof fn lemma_hit_count_uniform(len: nat, value: bool)
    ensures
        hit_count(Seq::new(len, |i: int| value)) == if value {
            len
        } else {
            0
        },
    decreases len,
{
    if len > 0 {
        lemma_hit_count_uniform((len - 1) as nat, value);
        assert(Seq::new(len, |i: int| value).drop_last() =~= Seq::new(
            (len - 1) as nat,
            |i: int| value,
        ));
    }
}

/// A pattern with no `true` cell has no hits.
proof fn lemma_hit_count_none(s: Seq<bool>)
    requires
        forall|j: int| 0 <= j < s.len() ==> !s[j],
    ensures
        hit_count(s) == 0,
    decreases s.len(),
{
    if s.len() > 0 {
        lemma_hit_count_none(s.drop_last());
    }
}

/// Cutting a pattern in two at `k` and swapping the halves keeps its length and hits.
pub proof fn lemma_swap_halves_measure(s: Seq<bool>, k: int)
    requires
        0 <= k <= s.len(),
    ensures
        (s.subrange(k, s.len() as int) + s.subrange(0, k)).len() == s.len(),
        hit_count(s.subrange(k, s.len() as int) + s.subrange(0, k)) == hit_count(s),
{
    lemma_hit_count_concat(s.subrange(k, s.len() as int), s.subrange(0, k));
    lemma_hit_count_concat(s.subrange(0, k), s.subrange(k, s.len() as int));
    assert(s.subrange(0, k) + s.subrange(k, s.len() as int) =~= s);
}

// ---------------------------------------------------------------------------
// The layered construction
// ---------------------------------------------------------------------------

/// `n` copies of `s`, one after another.
pub open spec fn repeat(s: Seq<bool>, n: nat) -> Seq<bool>
    decreases n,
{
    if n == 0 {
        Seq::empty()
    } else {
        repeat(s, (n - 1) as nat) + s
    }
}

proof fn lemma_repeat_measure(s: Seq<bool>, n: nat)
    ensures
        repeat(s, n).len() == n * s.len(),
        hit_count(repeat(s, n)) == n * hit_count(s),
    decreases n,
{
    if n > 0 {
        let m = (n - 1) as nat;
        lemma_repeat_measure(s, m);
        assert(repeat(s, n) == repeat(s, m) + s);
        lemma_hit_count_concat(repeat(s, m), s);
        let len = s.len();
        let hits = hit_count(s);
        assert(n * len == m * len + len) by (nonlinear_arith)
            requires
                n == m + 1,
        ;
        assert(n * hits == m * hits + hits) by (nonlinear_arith)
            requires
                n == m + 1,
        ;
    } else {
        assert(repeat(s, n) =~= Seq::<bool>::empty());
    }
}

/// The group of level `level` of Bjorklund's construction: level -1 is one rest,
/// level -2 one hit, and level `l >= 0` is `counts[l]` copies of group `l - 1`
/// followed, when `remainders[l]` is not zero, by group `l - 2`.
pub open spec fn layered(counts: Seq<usize>, remainders: Seq<usize>, level: int) -> Seq<bool>
    decreases level + 2,
{
    if level <= -2 {
        seq![true]
    } else if level == -1 {
        seq![false]
    } else {
        repeat(layered(counts, remainders, level - 1), counts[level] as nat) + if remainders[level]
            != 0 {
            layered(counts, remainders, level - 2)
        } else {
            Seq::empty()
        }
    }
}

// ---------------------------------------------------------------------------
// The Euclidean sequence of a rhythm
// ---------------------------------------------------------------------------

/// The Euclidean remainder sequence of `(steps - pulses, pulses)`: term 0 is the
/// number of rests, term 1 the number of hits, and each later term is the
/// remainder of the two before it.
pub open spec fn euclid_term(steps: nat, pulses: nat, i: nat) -> nat
    decreases i,
{
    if i == 0 {
        (steps - pulses) as nat
    } else if i == 1 {
        pulses
    } else {
        let divisor = euclid_term(steps, pulses, (i - 1) as nat);
        if divisor == 0 {
            0
        } else {
            euclid_term(steps, pulses, (i - 2) as nat) % divisor
        }
    }
}

/// The first level at or after `i` whose remainder term is at most one.
pub open spec fn top_level_from(steps: nat, pulses: nat, i: nat) -> nat
    decreases euclid_term(steps, pulses, i + 1),
{
    if euclid_term(steps, pulses, i + 1) <= 1 {
        i
    } else {
        top_level_from(steps, pulses, i + 1)
    }
}

/// The level at which the construction of a rhythm stops.
pub open spec fn top_level(steps: nat, pulses: nat) -> nat {
    top_level_from(steps, pulses, 1)
}

/// How many copies of the level below each level of a rhythm holds.
pub open spec fn euclid_counts(steps: nat, pulses: nat) -> Seq<usize> {
    let top = top_level(steps, pulses);
    Seq::new(
        top + 1,
        |l: int|
            if l < top {
                (euclid_term(steps, pulses, l as nat) / euclid_term(
                    steps,
                    pulses,
                    (l + 1) as nat,
                )) as usize
            } else {
                euclid_term(steps, pulses, l as nat) as usize
            },
    )
}

/// The remainder of each level of a rhythm.
pub open spec fn euclid_remainders(steps: nat, pulses: nat) -> Seq<usize> {
    Seq::new(
        top_level(steps, pulses) + 1,
        |l: int| euclid_term(steps, pulses, (l + 1) as nat) as usize,
    )
}

/// The index of the first hit at or after `i`, or the length when there is none.
pub open spec fn first_hit_from(s: Seq<bool>, i: nat) -> nat
    decreases s.len() - i,
{
    if i >= s.len() {
        s.len()
    } else if s[i as int] {
        i
    } else {
        first_hit_from(s, i + 1)
    }
}

/// A pattern turned so that its first hit comes first.
pub open spec fn rotate_to_first_hit(s: Seq<bool>) -> Seq<bool> {
    let first = first_hit_from(s, 0);
    if first < s.len() {
        s.subrange(first as int, s.len() as int) + s.subrange(0, first as int)
    } else {
        s
    }
}

/// The Euclidean rhythm of `pulses` hits spread over `steps` cells as evenly as
/// they go (Bjorklund's construction), turned to start on a hit.
pub open spec fn euclid_spec(steps: nat, pulses: nat) -> Seq<bool> {
    if steps == 0 {
        Seq::empty()
    } else if pulses == 0 {
        Seq::new(steps, |i: int| false)
    } else if pulses >= steps {
        Seq::new(steps, |i: int| true)
    } else {
        rotate_to_first_hit(
            layered(
                euclid_counts(steps, pulses),
                euclid_remainders(steps, pulses),
                top_level(steps, pulses) as int,
            ),
        )
    }
}

proof fn lemma_term_step(steps: nat, pulses: nat, i: nat)
    requires
        euclid_term(steps, pulses, i + 1) > 0,
    ensures
        euclid_term(steps, pulses, i + 2) == euclid_term(steps, pulses, i) % euclid_term(
            steps,
            pulses,
            i + 1,
        ),
        euclid_term(steps, pulses, i + 2) < euclid_term(steps, pulses, i + 1),
{
}

proof fn lemma_term_bound(steps: nat, pulses: nat, i: nat)
    requires
        pulses <= steps,
    ensures
        euclid_term(steps, pulses, i) <= steps,
    decreases i,
{
    if i >= 2 {
        lemma_term_bound(steps, pulses, (i - 2) as nat);
        let divisor = euclid_term(steps, pulses, (i - 1) as nat);
        if divisor > 0 {
            vstd::arithmetic::div_mod::lemma_mod_decreases(
                euclid_term(steps, pulses, (i - 2) as nat),
                divisor,
            );
        }
    }
}

proof fn lemma_top_level_from(steps: nat, pulses: nat, i: nat)
    ensures
        top_level_from(steps, pulses, i) >= i,
        euclid_term(steps, pulses, top_level_from(steps, pulses, i) + 1) <= 1,
        forall|j: nat|
            i + 1 <= j <= top_level_from(steps, pulses, i) ==> #[trigger] euclid_term(
                steps,
                pulses,
                j,
            ) > 1,
    decreases euclid_term(steps, pulses, i + 1),
{
    if euclid_term(steps, pulses, i + 1) > 1 {
        lemma_term_step(steps, pulses, i);
        lemma_top_level_from(steps, pulses, i + 1);
    }
}

/// The stopping level is the first level from one on whose remainder is at most one.
proof fn lemma_top_level_unique(steps: nat, pulses: nat, level: nat)
    requires
        level >= 1,
        euclid_term(steps, pulses, level + 1) <= 1,
        forall|j: nat| 2 <= j <= level ==> #[trigger] euclid_term(steps, pulses, j) > 1,
    ensures
        top_level(steps, pulses) == level,
{
    lemma_top_level_from(steps, pulses, 1);
}

/// The groups below the top balance the rhythm: at each level `i` below the top,
/// term `i + 1` copies of group `i` and term `i + 2` copies of group `i - 1` hold
/// exactly `steps` cells and `pulses` hits.
proof fn lemma_layer_measure(steps: nat, pulses: nat, i: int)
    requires
        0 < pulses < steps <= usize::MAX,
        -1 <= i < top_level(steps, pulses),
    ensures
        ({
            let counts = euclid_counts(steps, pulses);
            let remainders = euclid_remainders(steps, pulses);
            let a = euclid_term(steps, pulses, (i + 1) as nat);
            let b = euclid_term(steps, pulses, (i + 2) as nat);
            &&& steps == a * layered(counts, remainders, i).len() + b * layered(
                counts,
                remainders,
                i - 1,
            ).len()
            &&& pulses == a * hit_count(layered(counts, remainders, i)) + b * hit_count(
                layered(counts, remainders, i - 1),
            )
        }),
    decreases i + 1,
{
    let counts = euclid_counts(steps, pulses);
    let remainders = euclid_remainders(steps, pulses);
    let top = top_level(steps, pulses);
    lemma_top_level_from(steps, pulses, 1);
    if i == -1 {
        assert(layered(counts, remainders, -1) == seq![false]);
        assert(layered(counts, remainders, -2) == seq![true]);
        reveal_with_fuel(hit_count, 2);
        assert(hit_count(seq![false]) == 0);
        assert(hit_count(seq![true]) == 1);
        assert(euclid_term(steps, pulses, 0) == steps - pulses);
        assert(euclid_term(steps, pulses, 1) == pulses);
    } else {
        lemma_layer_measure(steps, pulses, i - 1);
        let e0 = euclid_term(steps, pulses, i as nat);
        let e1 = euclid_term(steps, pulses, (i + 1) as nat);
        let e2 = euclid_term(steps, pulses, (i + 2) as nat);
        assert(e1 > 0) by {
            if i >= 1 {
                assert(2 <= (i + 1) as nat <= top);
            }
        }
        lemma_term_step(steps, pulses, i as nat);
        lemma_term_bound(steps, pulses, (i + 1) as nat);
        lemma_fundamental_div_mod(e0 as int, e1 as int);
        let q = e0 / e1;
        lemma_term_bound(steps, pulses, i as nat);
        assert(q <= e0) by (nonlinear_arith)
            requires
                e0 == e1 * q + e2,
                e1 >= 1,
                e2 >= 0,
                q >= 0,
        ;
        assert(counts[i] == q);
        assert(remainders[i] == e1);
        let lower = layered(counts, remainders, i - 1);
        let lower2 = layered(counts, remainders, i - 2);
        assert(layered(counts, remainders, i) == repeat(lower, q) + lower2);
        lemma_repeat_measure(lower, q);
        lemma_hit_count_concat(repeat(lower, q), lower2);
        let la = lower.len() as int;
        let lb = lower2.len() as int;
        let ha = hit_count(lower) as int;
        let hb = hit_count(lower2) as int;
        assert(e1 * (q * la + lb) + e2 * la == e0 * la + e1 * lb) by (nonlinear_arith)
            requires
                e0 == e1 * q + e2,
        ;
        assert(e1 * (q * ha + hb) + e2 * ha == e0 * ha + e1 * hb) by (nonlinear_arith)
            requires
                e0 == e1 * q + e2,
        ;
        assert(layered(counts, remainders, i).len() == q * la + lb);
        assert(hit_count(layered(counts, remainders, i)) == q * ha + hb);
        assert(steps == e0 * la + e1 * lb);
        assert(pulses == e0 * ha + e1 * hb);
    }
}

/// The top group of a rhythm holds exactly `steps` cells and `pulses` hits.
pub proof fn lemma_top_group_measure(steps: nat, pulses: nat)
    requires
        0 < pulses < steps <= usize::MAX,
    ensures
        ({
            let g = layered(
                euclid_counts(steps, pulses),
                euclid_remainders(steps, pulses),
                top_level(steps, pulses) as int,
            );
            g.len() == steps && hit_count(g) == pulses
        }),
{
    let counts = euclid_counts(steps, pulses);
    let remainders = euclid_remainders(steps, pulses);
    let top = top_level(steps, pulses);
    lemma_top_level_from(steps, pulses, 1);
    let t = top as int;
    lemma_layer_measure(steps, pulses, t - 1);
    let et = euclid_term(steps, pulses, top);
    lemma_term_bound(steps, pulses, top);
    lemma_term_bound(steps, pulses, top + 1);
    let e_next = euclid_term(steps, pulses, top + 1);
    assert(counts[t] == et);
    assert(remainders[t] == e_next);
    let lower = layered(counts, remainders, t - 1);
    let lower2 = layered(counts, remainders, t - 2);
    lemma_repeat_measure(lower, et);
    let lb = lower2.len();
    let hb = hit_count(lower2);
    if e_next == 0 {
        assert(layered(counts, remainders, t) =~= repeat(lower, et));
        assert(e_next * lb == 0 && e_next * hb == 0) by (nonlinear_arith)
            requires
                e_next == 0,
        ;
    } else {
        assert(layered(counts, remainders, t) == repeat(lower, et) + lower2);
        lemma_hit_count_concat(repeat(lower, et), lower2);
        assert(e_next * lb == lb && e_next * hb == hb) by (nonlinear_arith)
            requires
                e_next == 1,
        ;
    }
}

proof fn lemma_first_hit(s: Seq<bool>, i: nat)
    requires
        i <= s.len(),
    ensures
        i <= first_hit_from(s, i) <= s.len(),
        first_hit_from(s, i) < s.len() ==> s[first_hit_from(s, i) as int],
        forall|j: int| i <= j < first_hit_from(s, i) ==> !s[j],
    decreases s.len() - i,
{
    if i < s.len() && !s[i as int] {
        lemma_first_hit(s, i + 1);
    }
}

proof fn lemma_first_hit_value(s: Seq<bool>, i: nat, f: nat)
    requires
        i <= f <= s.len(),
        forall|j: int| i <= j < f ==> !s[j],
        f < s.len() ==> s[f as int],
    ensures
        first_hit_from(s, i) == f,
    decreases f - i,
{
    if i < f {
        lemma_first_hit_value(s, i + 1, f);
    }
}

/// Turning a pattern to its first hit keeps its length and hits and, when it has a
/// hit, puts one first.
pub proof fn lemma_rotate_to_first_hit(s: Seq<bool>)
    ensures
        rotate_to_first_hit(s).len() == s.len(),
        hit_count(rotate_to_first_hit(s)) == hit_count(s),
        hit_count(s) > 0 ==> rotate_to_first_hit(s)[0],
{
    lemma_first_hit(s, 0);
    let first = first_hit_from(s, 0);
    if first < s.len() {
        lemma_swap_halves_measure(s, first as int);
    } else {
        lemma_hit_count_none(s);
    }
}

/// Every Euclidean rhythm has exactly `steps` cells and `min(pulses, steps)` hits,
/// and starts on a hit when it has one.
pub proof fn lemma_euclid_measure(steps: nat, pulses: nat)
    requires
        steps <= usize::MAX,
    ensures
        euclid_spec(steps, pulses).len() == steps,
        hit_count(euclid_spec(steps, pulses)) == if pulses < steps {
            pulses
        } else {
            steps
        },
        steps > 0 && pulses > 0 ==> euclid_spec(steps, pulses)[0],
{
    if steps == 0 {
        assert(euclid_spec(steps, pulses) =~= Seq::<bool>::empty());
    } else if pulses == 0 {
        lemma_hit_count_uniform(steps, false);
    } else if pulses >= steps {
        lemma_hit_count_uniform(steps, true);
    } else {
        lemma_top_group_measure(steps, pulses);
        lemma_rotate_to_first_hit(
            layered(
                euclid_counts(steps, pulses),
                euclid_remainders(steps, pulses),
                top_level(steps, pulses) as int,
            ),
        );
    }
}

// ---------------------------------------------------------------------------
// Even spacing
// ---------------------------------------------------------------------------

/// No hit lies strictly between positions `i` and `j` of `w`.
#[verifier::opaque]
pub open spec fn no_hit_between(w: Seq<bool>, i: int, j: int) -> bool {
    forall|k: int| i < k < j && 0 <= k < w.len() ==> !w[k]
}

/// `w` opens with exactly `run` rests before its first hit.
#[verifier::opaque]
pub open spec fn opens_after(w: Seq<bool>, run: nat) -> bool {
    &&& run < w.len()
    &&& w[run as int]
    &&& no_hit_between(w, -1, run as int)
}

/// Every two hits in a row of `w` are `run` or `run + 1` rests apart.
#[verifier::opaque]
pub open spec fn gaps_within(w: Seq<bool>, run: nat) -> bool {
    forall|i: int, j: int|
        0 <= i < j < w.len() && #[trigger] w[i] && #[trigger] w[j] && no_hit_between(w, i, j)
            ==> j - i - 1 == run || j - i - 1 == run + 1
}

/// At most one rest follows the last hit of `w`.
#[verifier::opaque]
pub open spec fn closes_within_one(w: Seq<bool>) -> bool {
    forall|i: int|
        0 <= i < w.len() && #[trigger] w[i] && no_hit_between(w, i, w.len() as int) ==> w.len()
            - 1 - i <= 1
}

/// `w` opens with exactly `run` rests before its first hit, every two hits in a row
/// are `run` or `run + 1` rests apart, and at most one rest follows its last hit.
pub open spec fn spaced(w: Seq<bool>, run: nat) -> bool {
    opens_after(w, run) && gaps_within(w, run) && closes_within_one(w)
}

/// No hit between `i` and `j` in a part of a sequence means none between the
/// matching positions of the part.
proof fn lemma_no_hit_part(w: Seq<bool>, part: Seq<bool>, offset: int, i: int, j: int)
    requires
        no_hit_between(w, i + offset, j + offset),
        forall|k: int| 0 <= k < part.len() ==> 0 <= k + offset < w.len() && #[trigger] part[k] == w[k + offset],
    ensures
        no_hit_between(part, i, j),
{
    reveal(no_hit_between);
    assert forall|k: int| i < k < j && 0 <= k < part.len() implies !part[k] by {
        assert(part[k] == w[k + offset]);
    }
}

proof fn lemma_concat_pair(u: Seq<bool>, v: Seq<bool>, run: nat, i: int, j: int)
    requires
        spaced(u, run),
        spaced(v, run),
        0 <= i < j < u.len() + v.len(),
        (u + v)[i],
        (u + v)[j],
        no_hit_between(u + v, i, j),
    ensures
        j - i - 1 == run || j - i - 1 == run + 1,
{
    let w = u + v;
    let n = u.len() as int;
    if j < n {
        lemma_no_hit_part(w, u, 0, i, j);
        reveal(gaps_within);
        assert(u[i] && u[j]);
    } else if i >= n {
        lemma_no_hit_part(w, v, n, i - n, j - n);
        reveal(gaps_within);
        assert(v[i - n] && v[j - n]);
    } else {
        assert(no_hit_between(w, i, n)) by {
            reveal(no_hit_between);
        }
        lemma_no_hit_part(w, u, 0, i, n);
        reveal(closes_within_one);
        assert(u[i]);
        let jv = j - n;
        assert(v[jv]);
        reveal(opens_after);
        reveal(no_hit_between);
        if jv > run {
            assert(w[n + run] == v[run as int]);
        }
    }
}

proof fn lemma_concat_last(u: Seq<bool>, v: Seq<bool>, run: nat, i: int)
    requires
        spaced(u, run),
        spaced(v, run),
        0 <= i < u.len() + v.len(),
        (u + v)[i],
        no_hit_between(u + v, i, (u.len() + v.len()) as int),
    ensures
        u.len() + v.len() - 1 - i <= 1,
{
    let w = u + v;
    let n = u.len() as int;
    if i < n {
        reveal(opens_after);
        reveal(no_hit_between);
        assert(w[n + run] == v[run as int]);
    } else {
        lemma_no_hit_part(w, v, n, i - n, v.len() as int);
        reveal(closes_within_one);
        assert(v[i - n]);
    }
}

proof fn lemma_spaced_concat(u: Seq<bool>, v: Seq<bool>, run: nat)
    requires
        spaced(u, run),
        spaced(v, run),
    ensures
        spaced(u + v, run),
{
    let w = u + v;
    assert(gaps_within(w, run)) by {
        reveal(gaps_within);
        assert forall|i: int, j: int|
            0 <= i < j < w.len() && #[trigger] w[i] && #[trigger] w[j] && no_hit_between(w, i, j)
            implies j - i - 1 == run || j - i - 1 == run + 1 by {
            lemma_concat_pair(u, v, run, i, j);
        }
    }
    assert(closes_within_one(w)) by {
        reveal(closes_within_one);
        assert forall|i: int|
            0 <= i < w.len() && #[trigger] w[i] && no_hit_between(w, i, w.len() as int) implies w.len()
            - 1 - i <= 1 by {
            lemma_concat_last(u, v, run, i);
        }
    }
    assert(opens_after(w, run)) by {
        reveal(opens_after);
        reveal(no_hit_between);
        assert(w[run as int] == u[run as int]);
        assert forall|k: int| -1 < k < run && 0 <= k < w.len() implies !w[k] by {
            assert(w[k] == u[k]);
        }
    }
}

proof fn lemma_spaced_repeat(u: Seq<bool>, run: nat, n: nat)
    requires
        spaced(u, run),
        n >= 1,
    ensures
        spaced(repeat(u, n), run),
        u.last() ==> repeat(u, n).last(),
    decreases n,
{
    if n == 1 {
        assert(repeat(u, 0) =~= Seq::<bool>::empty());
        assert(repeat(u, 1) =~= u);
    } else {
        lemma_spaced_repeat(u, run, (n - 1) as nat);
        lemma_spaced_concat(repeat(u, (n - 1) as nat), u, run);
        assert(repeat(u, n) == repeat(u, (n - 1) as nat) + u);
    }
}

proof fn lemma_repeat_rests(n: nat)
    ensures
        repeat(seq![false], n) =~= Seq::new(n, |i: int| false),
    decreases n,
{
    if n > 0 {
        lemma_repeat_rests((n - 1) as nat);
    }
}

/// A spaced group that ends on a hit stays spaced with one rest after it.
proof fn lemma_spaced_rest_after(u: Seq<bool>, run: nat)
    requires
        spaced(u, run),
        u.last(),
    ensures
        spaced(u.push(false), run),
{
    let w = u.push(false);
    assert(gaps_within(w, run)) by {
        reveal(gaps_within);
        assert forall|i: int, j: int|
            0 <= i < j < w.len() && #[trigger] w[i] && #[trigger] w[j] && no_hit_between(w, i, j)
            implies j - i - 1 == run || j - i - 1 == run + 1 by {
            assert(j < u.len());
            assert(u[i] && u[j]);
            lemma_no_hit_part(w, u, 0, i, j);
        }
    }
    assert(closes_within_one(w)) by {
        reveal(closes_within_one);
        reveal(no_hit_between);
        assert forall|i: int|
            0 <= i < w.len() && #[trigger] w[i] && no_hit_between(w, i, w.len() as int) implies w.len()
            - 1 - i <= 1 by {
            if i < u.len() - 1 {
                assert(w[u.len() - 1] == u.last());
            }
        }
    }
    assert(opens_after(w, run)) by {
        reveal(opens_after);
        reveal(no_hit_between);
        assert(w[run as int] == u[run as int]);
        assert forall|k: int| -1 < k < run && 0 <= k < w.len() implies !w[k] by {
            assert(w[k] == u[k]);
        }
    }
}

/// The first group: `run` rests and a hit.
proof fn lemma_first_group_spaced(run: nat)
    ensures
        spaced(Seq::new(run, |k: int| false) + seq![true], run),
{
    let g = Seq::new(run, |k: int| false) + seq![true];
    assert(opens_after(g, run)) by {
        reveal(opens_after);
        reveal(no_hit_between);
    }
    assert(gaps_within(g, run)) by {
        reveal(gaps_within);
    }
    assert(closes_within_one(g)) by {
        reveal(closes_within_one);
    }
}

/// Every group of a rhythm from level 0 to the top is spaced by the base run
/// `(steps - pulses) / pulses`, and group 0 ends on a hit.
proof fn lemma_layer_spaced(steps: nat, pulses: nat, i: int)
    requires
        0 < pulses < steps <= usize::MAX,
        0 <= i <= top_level(steps, pulses),
    ensures
        spaced(
            layered(euclid_counts(steps, pulses), euclid_remainders(steps, pulses), i),
            ((steps - pulses) as nat / pulses) as nat,
        ),
        i == 0 ==> layered(euclid_counts(steps, pulses), euclid_remainders(steps, pulses), i).last(),
    decreases i,
{
    let counts = euclid_counts(steps, pulses);
    let remainders = euclid_remainders(steps, pulses);
    let top = top_level(steps, pulses);
    let run = ((steps - pulses) as nat / pulses) as nat;
    lemma_top_level_from(steps, pulses, 1);
    lemma_term_bound(steps, pulses, 0);
    lemma_term_bound(steps, pulses, 1);
    if i == 0 {
        assert(counts[0] == run);
        assert(remainders[0] == pulses);
        lemma_repeat_rests(run);
        let g = layered(counts, remainders, 0);
        assert(layered(counts, remainders, -1) == seq![false]);
        assert(layered(counts, remainders, -2) == seq![true]);
        assert(g == repeat(seq![false], run) + seq![true]);
        assert(g =~= Seq::new(run, |k: int| false) + seq![true]);
        lemma_first_group_spaced(run);
    } else {
        lemma_layer_spaced(steps, pulses, i - 1);
        let lower = layered(counts, remainders, i - 1);
        let c = counts[i] as nat;
        assert(c >= 1) by {
            let ei = euclid_term(steps, pulses, i as nat);
            let ei1 = euclid_term(steps, pulses, (i + 1) as nat);
            lemma_term_bound(steps, pulses, i as nat);
            if i < top {
                assert(2 <= (i + 1) as nat <= top);
                assert(ei1 > 1);
                if i >= 2 {
                    assert(2 <= i as nat <= top);
                }
                lemma_term_step(steps, pulses, (i - 1) as nat);
                assert(ei > ei1);
                lemma_fundamental_div_mod(ei as int, ei1 as int);
                vstd::arithmetic::div_mod::lemma_mod_bound(ei as int, ei1 as int);
                lemma_term_bound(steps, pulses, (i + 1) as nat);
                let q = ei / ei1;
                let rem = ei % ei1;
                assert(q >= 1) by (nonlinear_arith)
                    requires
                        ei == ei1 * q + rem,
                        rem < ei1,
                        ei > ei1,
                        ei1 > 0,
                        q >= 0,
                ;
                assert(counts[i] == q);
            } else {
                if i >= 2 {
                    assert(2 <= i as nat <= top);
                }
                assert(counts[i] == ei);
            }
        }
        lemma_spaced_repeat(lower, run, c);
        let body = repeat(lower, c);
        if remainders[i] == 0 {
            assert(layered(counts, remainders, i) =~= body);
        } else if i == 1 {
            assert(layered(counts, remainders, -1) == seq![false]);
            assert(layered(counts, remainders, 1) =~= body.push(false));
            lemma_spaced_rest_after(body, run);
        } else {
            lemma_layer_spaced(steps, pulses, i - 2);
            lemma_spaced_concat(body, layered(counts, remainders, i - 2), run);
        }
    }
}

/// Turning a spaced group to its first hit spaces every two hits in a row, and
/// the last hit and the first around the end, by `run` or `run + 1` rests.
proof fn lemma_turned_spaced(g: Seq<bool>, run: nat)
    requires
        spaced(g, run),
    ensures
        ({
            let r = g.subrange(run as int, g.len() as int) + g.subrange(0, run as int);
            &&& r.len() == g.len()
            &&& r[0]
            &&& forall|i: int, j: int|
                0 <= i < j < r.len() && #[trigger] r[i] && #[trigger] r[j] && no_hit_between(r, i, j)
                    ==> j - i - 1 == run || j - i - 1 == run + 1
            &&& forall|i: int|
                0 <= i < r.len() && #[trigger] r[i] && no_hit_between(r, i, r.len() as int)
                    ==> r.len() - 1 - i == run || r.len() - 1 - i == run + 1
        }),
{
    reveal(opens_after);
    let n = g.len() as int;
    let r = g.subrange(run as int, n) + g.subrange(0, run as int);
    let m = n - run;
    assert forall|k: int| 0 <= k < n implies #[trigger] r[k] == if k < m {
        g[k + run]
    } else {
        g[k - m]
    } by {}
    assert forall|i: int, j: int|
        0 <= i < j < r.len() && #[trigger] r[i] && #[trigger] r[j] && no_hit_between(r, i, j)
        implies j - i - 1 == run || j - i - 1 == run + 1 by {
        if j >= m {
            reveal(no_hit_between);
            assert(!g[j - m]);
        }
        assert(g[i + run] && g[j + run]);
        assert(no_hit_between(g, i + run, j + run)) by {
            reveal(no_hit_between);
            assert forall|k: int| i + run < k < j + run && 0 <= k < g.len() implies !g[k] by {
                assert(r[k - run] == g[k]);
            }
        }
        reveal(gaps_within);
    }
    assert forall|i: int|
        0 <= i < r.len() && #[trigger] r[i] && no_hit_between(r, i, r.len() as int) implies r.len()
        - 1 - i == run || r.len() - 1 - i == run + 1 by {
        if i >= m {
            reveal(no_hit_between);
            assert(!g[i - m]);
        }
        assert(g[i + run]);
        assert(no_hit_between(g, i + run, n)) by {
            reveal(no_hit_between);
            assert forall|k: int| i + run < k < g.len() && 0 <= k < g.len() implies !g[k] by {
                assert(r[k - run] == g[k]);
            }
        }
        reveal(closes_within_one);
    }
    assert(r[0] == g[run as int]);
}

/// The hits of a Euclidean rhythm are spread as evenly as they go: with
/// `run = (steps - pulses) / pulses`, every two hits in a row, and the last hit and
/// the first (around the end of the bar), are `run` or `run + 1` rests apart.
pub proof fn lemma_euclid_evenly_spaced(steps: nat, pulses: nat)
    requires
        0 < pulses < steps <= usize::MAX,
    ensures
        ({
            let r = euclid_spec(steps, pulses);
            let run = ((steps - pulses) as nat / pulses) as nat;
            &&& r[0]
            &&& forall|i: int, j: int|
                0 <= i < j < r.len() && #[trigger] r[i] && #[trigger] r[j] && no_hit_between(r, i, j)
                    ==> j - i - 1 == run || j - i - 1 == run + 1
            &&& forall|i: int|
                0 <= i < r.len() && #[trigger] r[i] && no_hit_between(r, i, r.len() as int)
                    ==> r.len() - 1 - i == run || r.len() - 1 - i == run + 1
        }),
{
    let top = top_level(steps, pulses);
    lemma_top_level_from(steps, pulses, 1);
    lemma_layer_spaced(steps, pulses, top as int);
    let g = layered(euclid_counts(steps, pulses), euclid_remainders(steps, pulses), top as int);
    let run = ((steps - pulses) as nat / pulses) as nat;
    assert(run < g.len() && g[run as int] && forall|k: int| 0 <= k < run ==> !g[k]) by {
        reveal(opens_after);
        reveal(no_hit_between);
    }
    lemma_first_hit_value(g, 0, run);
    lemma_turned_spaced(g, run);
    assert(euclid_spec(steps, pulses) == rotate_to_first_hit(g));
}

// ---------------------------------------------------------------------------
// Executable code
// ---------------------------------------------------------------------------

fn filled_pattern(value: bool, len: usize) -> (pattern: Vec<bool>)
    ensures
        pattern@ == Seq::new(len as nat, |i: int| value),
{
    let mut pattern: Vec<bool> = Vec::new();
    for i in 0..len
        invariant
            pattern@ == Seq::new(i as nat, |k: int| value),
    {
        pattern.push(value);
    }
    pattern
}

/// `pattern[k..] + pattern[..k]`: the pattern turned left by `k` cells.
fn swap_halves(pattern: &Vec<bool>, k: usize) -> (turned: Vec<bool>)
    requires
        k <= pattern.len(),
    ensures
        turned@ == pattern@.subrange(k as int, pattern.len() as int) + pattern@.subrange(
            0,
            k as int,
        ),
{
    let n = pattern.len();
    let mut turned: Vec<bool> = Vec::new();
    for i in k..n
        invariant
            n == pattern.len(),
            k <= n,
            turned@ == pattern@.subrange(k as int, i as int),
    {
        turned.push(pattern[i]);
        assert(turned@ =~= pattern@.subrange(k as int, i + 1));
    }
    assert(turned@ =~= pattern@.subrange(k as int, n as int));
    for i in 0..k
        invariant
            n == pattern.len(),
            k <= n,
            turned@ == pattern@.subrange(k as int, n as int) + pattern@.subrange(0, i as int),
    {
        turned.push(pattern[i]);
        assert(turned@ =~= pattern@.subrange(k as int, n as int) + pattern@.subrange(
            0,
            i + 1,
        ));
    }
    turned
}

/// Spreads `pulses` hits over `steps` cells as evenly as possible (Bjorklund's
/// algorithm) and turns the result to start on a hit. With no pulses the pattern
/// is all rests; with at least as many pulses as steps it is all hits.
pub fn euclidean_pattern(steps: usize, pulses: usize) -> (pattern: Vec<bool>)
    requires
        steps <= isize::MAX,
    ensures
        pattern@ == euclid_spec(steps as nat, pulses as nat),
        pattern@.len() == steps,
        hit_count(pattern@) == if pulses < steps {
            pulses
        } else {
            steps
        },
        steps > 0 && pulses > 0 ==> pattern@[0],
{
    if steps == 0 {
        return Vec::new();
    }
    if pulses == 0 {
        proof {
            lemma_hit_count_uniform(steps as nat, false);
        }
        return filled_pattern(false, steps);
    }
    if pulses >= steps {
        proof {
            lemma_hit_count_uniform(steps as nat, true);
        }
        return filled_pattern(true, steps);
    }
    let ghost s = steps as nat;
    let ghost p = pulses as nat;
    let mut counts: Vec<usize> = Vec::new();
    let mut remainders: Vec<usize> = Vec::new();
    remainders.push(pulses);
    let mut divisor: usize = steps - pulses;
    let mut level: usize = 0;

    loop
        invariant_except_break
            level == 0 || euclid_term(s, p, (level + 1) as nat) > 1,
        invariant
            0 < pulses < steps <= isize::MAX,
            s == steps,
            p == pulses,
            remainders@.len() == level + 1,
            counts@.len() == level,
            forall|j: int| 0 <= j <= level ==> remainders@[j] == euclid_term(s, p, (j + 1) as nat),
            forall|j: int|
                0 <= j < level ==> counts@[j] == euclid_term(s, p, j as nat) / euclid_term(
                    s,
                    p,
                    (j + 1) as nat,
                ),
            divisor == euclid_term(s, p, level as nat),
            euclid_term(s, p, (level + 1) as nat) + level <= pulses,
            forall|j: nat| 2 <= j <= level ==> #[trigger] euclid_term(s, p, j) > 1,
        ensures
            level >= 1,
            euclid_term(s, p, (level + 1) as nat) <= 1,
        decreases euclid_term(s, p, (level + 1) as nat),
    {
        let remainder = remainders[level];
        proof {
            lemma_term_step(s, p, level as nat);
        }
        counts.push(divisor / remainder);
        remainders.push(divisor % remainder);
        divisor = remainder;
        level += 1;
        if remainders[level] <= 1 {
            break;
        }
    }
    counts.push(divisor);
    proof {
        lemma_top_level_unique(s, p, level as nat);
        assert(counts@ =~= euclid_counts(s, p));
        assert(remainders@ =~= euclid_remainders(s, p));
        lemma_top_group_measure(s, p);
    }

    let mut pattern: Vec<bool> = Vec::new();
    build_pattern(level as isize, counts.as_slice(), remainders.as_slice(), &mut pattern);
    assert(pattern@ =~= layered(euclid_counts(s, p), euclid_remainders(s, p), level as int));

    let n = pattern.len();
    let mut first: usize = 0;
    while first < n && !pattern[first]
        invariant
            n == pattern.len(),
            first <= n,
            forall|j: int| 0 <= j < first ==> !pattern@[j],
        decreases n - first,
    {
        first += 1;
    }
    proof {
        lemma_first_hit_value(pattern@, 0, first as nat);
        lemma_rotate_to_first_hit(pattern@);
    }
    if first < n {
        swap_halves(&pattern, first)
    } else {
        pattern
    }
}

/// Appends the group of `level` (see `layered`) to `pattern`.
fn build_pattern(level: isize, counts: &[usize], remainders: &[usize], pattern: &mut Vec<bool>)
    requires
        -2 <= level,
        level < counts@.len(),
        level < remainders@.len(),
    ensures
        final(pattern)@ == old(pattern)@ + layered(counts@, remainders@, level as int),
    decreases level + 2,
{
    if level == -1 {
        pattern.push(false);
        return;
    }
    if level == -2 {
        pattern.push(true);
        return;
    }
    let index = level as usize;
    let ghost start = pattern@;
    let ghost lower = layered(counts@, remainders@, level - 1);
    let repeats = counts[index];
    for i in 0..repeats
        invariant
            0 <= level < counts@.len(),
            level < remainders@.len(),
            lower == layered(counts@, remainders@, level - 1),
            pattern@ == start + repeat(lower, i as nat),
    {
        build_pattern(level - 1, counts, remainders, pattern);
        assert(pattern@ =~= start + repeat(lower, (i + 1) as nat));
    }
    if remainders[index] != 0 {
        build_pattern(level - 2, counts, remainders, pattern);
    }
    assert(pattern@ =~= start + layered(counts@, remainders@, level as int));
}

/// The pattern turned right by `rotation` cells, wrapping around.
pub fn rotate_pattern(pattern: &[bool], rotation: usize) -> (rotated: Vec<bool>)
    ensures
        rotated@.len() == pattern@.len(),
        pattern@.len() > 0 ==> rotated@ == pattern@.subrange(
            pattern@.len() - (rotation as int) % (pattern@.len() as int),
            pattern@.len() as int,
        ) + pattern@.subrange(0, pattern@.len() - (rotation as int) % (pattern@.len() as int)),
        forall|i: int|
            0 <= i < pattern@.len() ==> rotated@[((i + rotation) % (pattern@.len() as int))]
                == pattern@[i],
        hit_count(rotated@) == hit_count(pattern@),
{
    if pattern.len() == 0 {
        assert(pattern@ =~= Seq::<bool>::empty());
        return Vec::new();
    }
    let n = pattern.len();
    let shift = rotation % n;
    let mut copy: Vec<bool> = Vec::new();
    for i in 0..n
        invariant
            n == pattern@.len(),
            copy@ == pattern@.subrange(0, i as int),
    {
        copy.push(pattern[i]);
        assert(copy@ =~= pattern@.subrange(0, i + 1));
    }
    assert(copy@ =~= pattern@);
    let rotated = swap_halves(&copy, n - shift);
    proof {
        lemma_swap_halves_measure(pattern@, n - shift);
        assert forall|i: int| 0 <= i < pattern@.len() implies rotated@[((i + rotation) % (
        n as int))] == pattern@[i] by {
            let j = (i + rotation) % (n as int);
            assert((i + rotation) % (n as int) == (i + shift) % (n as int)) by {
                vstd::arithmetic::div_mod::lemma_add_mod_noop(i, rotation as int, n as int);
                vstd::arithmetic::div_mod::lemma_add_mod_noop(i, shift as int, n as int);
                vstd::arithmetic::div_mod::lemma_mod_twice(rotation as int, n as int);
                vstd::arithmetic::div_mod::lemma_small_mod(i as nat, n as nat);
            }
            if i + shift < n {
                vstd::arithmetic::div_mod::lemma_small_mod((i + shift) as nat, n as nat);
            } else {
                vstd::arithmetic::div_mod::lemma_mod_sub_multiples_vanish(i + shift, n as int);
                vstd::arithmetic::div_mod::lemma_small_mod((i + shift - n) as nat, n as nat);
            }
        }
    }
    rotated
}

} // verus!
