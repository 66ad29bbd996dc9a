//! Spikes, their global time order, the batches in which they travel between
//! layers, and the table of spike trains that a simulation returns.
use vstd::prelude::*;

verus! {

broadcast use vstd::seq_lib::group_seq_properties;

/// A firing event: neuron `neuron_id` of layer `layer_id` fired at time `ts`.
#[derive(Clone, Copy, Debug, PartialEq, Eq, Structural, PartialOrd, Ord, Hash)]
pub struct Spike {
    /// Time step of the spike.
    pub ts: u128,
    /// Index of the layer of the neuron that fired.
    pub layer_id: usize,
    /// Index of the neuron that fired, within its layer.
    pub neuron_id: usize,
}

/// Order of spikes: by time, then layer, then neuron.
pub open spec fn spike_le(a: Spike, b: Spike) -> bool {
    a.ts < b.ts || (a.ts == b.ts && (a.layer_id < b.layer_id || (a.layer_id == b.layer_id
        && a.neuron_id <= b.neuron_id)))
}

pub open spec fn spikes_sorted(s: Seq<Spike>) -> bool {
    forall|i: int, j: int| 0 <= i < j < s.len() ==> spike_le(#[trigger] s[i], #[trigger] s[j])
}

/// The input spikes of one input neuron, as spikes of layer 0.
pub open spec fn train_spikes(entry: (u128, Vec<u128>)) -> Seq<Spike> {
    entry.1@.map_values(|t: u128| Spike { ts: t, layer_id: 0, neuron_id: entry.0 as usize })
}

/// All the input spikes, neuron after neuron, in the order given.
pub open spec fn all_input_spikes(input: Seq<(u128, Vec<u128>)>) -> Seq<Spike>
    decreases input.len(),
{
    if input.len() == 0 {
        seq![]
    } else {
        all_input_spikes(input.drop_last()) + train_spikes(input.last())
    }
}

/// The batches laid end to end.
pub open spec fn concat_batches(b: Seq<Vec<Spike>>) -> Seq<Spike>
    decreases b.len(),
{
    if b.len() == 0 {
        seq![]
    } else {
        concat_batches(b.drop_last()) + b.last()@
    }
}

/// Every spike of `b` has the time of its first spike.
pub open spec fn same_time(b: Seq<Spike>) -> bool {
    forall|i: int| 0 <= i < b.len() ==> (#[trigger] b[i]).ts == b[0].ts
}

/// `b` splits a spike sequence into maximal runs of equal time.
pub open spec fn are_time_batches(b: Seq<Vec<Spike>>) -> bool {
    &&& forall|k: int| 0 <= k < b.len() ==> (#[trigger] b[k])@.len() > 0 && same_time(b[k]@)
    &&& forall|k: int| 0 < k < b.len() ==> (#[trigger] b[k])@[0].ts != b[k - 1]@[0].ts
}

/// The spikes that layer `layer_id` emits at `ts + 1` when the neurons marked
/// in `fired` fire while handling the batch of time `ts`.
pub open spec fn fired_seq(ts: u128, layer_id: usize, fired: Seq<bool>) -> Seq<Spike>
    decreases fired.len(),
{
    if fired.len() == 0 {
        seq![]
    } else {
        fired_seq(ts, layer_id, fired.drop_last()) + if fired.last() {
            seq![Spike { ts: (ts + 1) as u128, layer_id, neuron_id: (fired.len() - 1) as usize }]
        } else {
            seq![]
        }
    }
}

/// Times of the spikes of `s` fired by neuron `n`, in order.
pub open spec fn times_of(s: Seq<Spike>, n: int) -> Seq<u128>
    decreases s.len(),
{
    if s.len() == 0 {
        seq![]
    } else {
        times_of(s.drop_last(), n) + if s.last().neuron_id == n {
            seq![s.last().ts]
        } else {
            seq![]
        }
    }
}

/// Entry `i` of the table belongs to neuron `i`.
pub open spec fn trains_well_formed(t: Seq<(u128, Vec<u128>)>) -> bool {
    forall|i: int| 0 <= i < t.len() ==> (#[trigger] t[i]).0 == i
}

/// Two tables hold the same spike trains.
pub open spec fn same_trains(a: Seq<(u128, Vec<u128>)>, b: Seq<(u128, Vec<u128>)>) -> bool {
    a.len() == b.len() && forall|i: int|
        0 <= i < a.len() ==> (#[trigger] a[i]).0 == b[i].0 && a[i].1@ == b[i].1@
}

/// Two sorted spike sequences holding the same spikes are equal: the time
/// order of a set of input spikes, hence the schedule in which a simulation
/// receives them, is determined by the spikes alone.
pub proof fn lemma_sorted_spikes_unique(a: Seq<Spike>, b: Seq<Spike>)
    requires
        spikes_sorted(a),
        spikes_sorted(b),
        a.to_multiset() == b.to_multiset(),
    ensures
        a == b,
    decreases a.len(),
{
    broadcast use vstd::multiset::group_multiset_axioms;

    vstd::seq_lib::to_multiset_len(a);
    vstd::seq_lib::to_multiset_len(b);
    if a.len() == 0 {
        assert(a =~= b);
    } else {
        let x = a.last();
        let y = b.last();
        assert(a =~= a.drop_last().push(x));
        assert(b =~= b.drop_last().push(y));
        vstd::seq_lib::to_multiset_build(a.drop_last(), x);
        vstd::seq_lib::to_multiset_build(b.drop_last(), y);
        vstd::seq_lib::to_multiset_contains(a, y);
        vstd::seq_lib::to_multiset_contains(b, x);
        assert(b.to_multiset().count(y) > 0);
        assert(a.contains(y));
        let i = choose|i: int| 0 <= i < a.len() && a[i] == y;
        assert(spike_le(y, x)) by {
            if i < a.len() - 1 {
                assert(spike_le(a[i], a[a.len() - 1]));
            }
        }
        assert(b.contains(x));
        let j = choose|j: int| 0 <= j < b.len() && b[j] == x;
        assert(spike_le(x, y)) by {
            if j < b.len() - 1 {
                assert(spike_le(b[j], b[b.len() - 1]));
            }
        }
        assert(x == y);
        let ma = a.drop_last().to_multiset();
        let mb = b.drop_last().to_multiset();
        assert(a.to_multiset() == ma.insert(x));
        assert(b.to_multiset() == mb.insert(x));
        assert(ma =~= mb) by {
            assert forall|s: Spike| #[trigger] ma.count(s) == mb.count(s) by {
                assert(ma.insert(x).count(s) == mb.insert(x).count(s));
                if s == x {
                    assert(ma.insert(x).count(s) == ma.count(s) + 1);
                    assert(mb.insert(x).count(s) == mb.count(s) + 1);
                } else {
                    assert(ma.insert(x).count(s) == ma.count(s));
                    assert(mb.insert(x).count(s) == mb.count(s));
                }
            }
        }
        lemma_sorted_spikes_unique(a.drop_last(), b.drop_last());
    }
}

/// Two calls that merge the same input spike trains give the same list.
pub proof fn lemma_input_schedule_deterministic(
    input: Seq<(u128, Vec<u128>)>,
    r1: Seq<Spike>,
    r2: Seq<Spike>,
)
    requires
        spikes_sorted(r1),
        r1.to_multiset() == all_input_spikes(input).to_multiset(),
        spikes_sorted(r2),
        r2.to_multiset() == all_input_spikes(input).to_multiset(),
    ensures
        r1 == r2,
{
    lemma_sorted_spikes_unique(r1, r2);
}

proof fn lemma_last_batch(b: Seq<Vec<Spike>>)
    requires
        are_time_batches(b),
        b.len() > 0,
    ensures
        ({
            let s = concat_batches(b);
            let l = b.last()@.len() as int;
            &&& 0 < l <= s.len()
            &&& b.last()@ == s.subrange(s.len() - l, s.len() as int)
            &&& concat_batches(b.drop_last()) == s.subrange(0, s.len() - l)
            &&& forall|i: int| s.len() - l <= i < s.len() ==> (#[trigger] s[i]).ts == s[s.len() - 1].ts
            &&& b.len() > 1 ==> s[s.len() - l - 1].ts != s[s.len() - 1].ts
        }),
    decreases b.len(),
{
    let s = concat_batches(b);
    let p = concat_batches(b.drop_last());
    let l = b.last()@.len() as int;
    assert(s == p + b.last()@);
    assert(s.subrange(s.len() - l, s.len() as int) =~= b.last()@);
    assert(s.subrange(0, s.len() - l) =~= p);
    assert(b.last()@[l - 1].ts == b.last()@[0].ts);
    if b.len() > 1 {
        let q = b.drop_last();
        assert(are_time_batches(q)) by {
            assert forall|k: int| 0 <= k < q.len() implies (#[trigger] q[k])@.len() > 0 && same_time(q[k]@) by {
                assert(q[k] == b[k]);
            }
            assert forall|k: int| 0 < k < q.len() implies (#[trigger] q[k])@[0].ts != q[k - 1]@[0].ts by {
                assert(q[k] == b[k]);
                assert(q[k - 1] == b[k - 1]);
            }
        }
        lemma_last_batch(q);
        let lq = q.last()@.len() as int;
        assert(p[p.len() - 1] == q.last()@[lq - 1]);
        assert(q.last() == b[b.len() - 2]);
        assert(b[b.len() - 1]@[0].ts != b[b.len() - 2]@[0].ts);
        assert(s[s.len() - l - 1] == p[p.len() - 1]);
    }
}

/// Splitting spikes into maximal runs of equal time can be done one way
/// only: the batches a simulation streams are determined by its spikes.
pub proof fn lemma_time_batches_unique(b1: Seq<Vec<Spike>>, b2: Seq<Vec<Spike>>)
    requires
        are_time_batches(b1),
        are_time_batches(b2),
        concat_batches(b1) == concat_batches(b2),
    ensures
        b1.len() == b2.len(),
        forall|k: int| 0 <= k < b1.len() ==> (#[trigger] b1[k])@ == b2[k]@,
    decreases b1.len(),
{
    if b1.len() == 0 || b2.len() == 0 {
        if b1.len() > 0 {
            lemma_last_batch(b1);
        }
        if b2.len() > 0 {
            lemma_last_batch(b2);
        }
    } else {
        let s = concat_batches(b1);
        let n = s.len() as int;
        lemma_last_batch(b1);
        lemma_last_batch(b2);
        let l1 = b1.last()@.len() as int;
        let l2 = b2.last()@.len() as int;
        if l1 < l2 {
            assert(s[n - l1 - 1].ts == s[n - 1].ts);
            assert(b1.len() > 1);
        }
        if l2 < l1 {
            assert(s[n - l2 - 1].ts == s[n - 1].ts);
            assert(b2.len() > 1);
        }
        assert(l1 == l2);
        let q1 = b1.drop_last();
        let q2 = b2.drop_last();
        assert(are_time_batches(q1)) by {
            assert forall|k: int| 0 <= k < q1.len() implies (#[trigger] q1[k])@.len() > 0 && same_time(q1[k]@) by {
                assert(q1[k] == b1[k]);
            }
            assert forall|k: int| 0 < k < q1.len() implies (#[trigger] q1[k])@[0].ts != q1[k - 1]@[0].ts by {
                assert(q1[k] == b1[k]);
                assert(q1[k - 1] == b1[k - 1]);
            }
        }
        assert(are_time_batches(q2)) by {
            assert forall|k: int| 0 <= k < q2.len() implies (#[trigger] q2[k])@.len() > 0 && same_time(q2[k]@) by {
                assert(q2[k] == b2[k]);
            }
            assert forall|k: int| 0 < k < q2.len() implies (#[trigger] q2[k])@[0].ts != q2[k - 1]@[0].ts by {
                assert(q2[k] == b2[k]);
                assert(q2[k - 1] == b2[k - 1]);
            }
        }
        lemma_time_batches_unique(q1, q2);
        assert forall|k: int| 0 <= k < b1.len() implies (#[trigger] b1[k])@ == b2[k]@ by {
            if k < b1.len() - 1 {
                assert(b1[k] == q1[k]);
                assert(b2[k] == q2[k]);
            }
        }
    }
}

/// Whether `a` comes before or equals `b` in spike order.
pub fn spike_leq(a: &Spike, b: &Spike) -> (r: bool)
    ensures
        r == spike_le(*a, *b),
{
    a.ts < b.ts || (a.ts == b.ts && (a.layer_id < b.layer_id || (a.layer_id == b.layer_id
        && a.neuron_id <= b.neuron_id)))
}

impl Spike {
    /// A spike of neuron `neuron_id` of layer `layer_id` at time `ts`.
    pub fn new(ts: u128, layer_id: usize, neuron_id: usize) -> (r: Spike)
        ensures
            r == (Spike { ts, layer_id, neuron_id }),
    {
        Spike { ts, layer_id, neuron_id }
    }

    /// Merges the input spike trains `(neuron_id, times)` into one list of
    /// layer-0 spikes, sorted by time, then layer, then neuron.
    pub fn vec_of_all_spikes(spikes: Vec<(u128, Vec<u128>)>) -> (r: Vec<Spike>)
        ensures
            spikes_sorted(r@),
            r@.to_multiset() == all_input_spikes(spikes@).to_multiset(),
    {
        let flat = flatten_input(&spikes);
        sort_spikes(&flat)
    }
}

/// All the input spikes, in the order given.
fn flatten_input(input: &Vec<(u128, Vec<u128>)>) -> (r: Vec<Spike>)
    ensures
        r@ == all_input_spikes(input@),
{
    let mut r: Vec<Spike> = Vec::new();
    let mut i: usize = 0;
    while i < input.len()
        invariant
            i <= input.len(),
            r@ == all_input_spikes(input@.take(i as int)),
        decreases input.len() - i,
    {
        let neuron = input[i].0;
        let times = &input[i].1;
        let mut j: usize = 0;
        while j < times.len()
            invariant
                i < input.len(),
                j <= times.len(),
                neuron == input@[i as int].0,
                times == input@[i as int].1,
                r@ == all_input_spikes(input@.take(i as int)) + train_spikes(input@[i as int]).take(
                    j as int,
                ),
            decreases times.len() - j,
        {
            r.push(Spike { ts: times[j], layer_id: 0, neuron_id: neuron as usize });
            proof {
                assert(train_spikes(input@[i as int]).take(j + 1) =~= train_spikes(
                    input@[i as int],
                ).take(j as int).push(Spike { ts: times[j as int], layer_id: 0, neuron_id: neuron as usize }));
            }
            j += 1;
        }
        proof {
            assert(input@.take(i + 1).drop_last() =~= input@.take(i as int));
            assert(train_spikes(input@[i as int]).take(j as int) =~= train_spikes(input@[i as int]));
        }
        i += 1;
    }
    proof {
        assert(input@.take(i as int) =~= input@);
    }
    r
}

/// The spikes of `s` in spike order, by insertion.
fn sort_spikes(s: &Vec<Spike>) -> (r: Vec<Spike>)
    ensures
        spikes_sorted(r@),
        r@.to_multiset() == s@.to_multiset(),
{
    let mut r: Vec<Spike> = Vec::new();
    let mut k: usize = 0;
    while k < s.len()
        invariant
            k <= s.len(),
            spikes_sorted(r@),
            r@.to_multiset() == s@.take(k as int).to_multiset(),
        decreases s.len() - k,
    {
        let x = s[k];
        let mut pos: usize = 0;
        while pos < r.len() && spike_leq(&r[pos], &x)
            invariant
                pos <= r.len(),
                forall|i: int| 0 <= i < pos ==> spike_le(#[trigger] r@[i], x),
            decreases r.len() - pos,
        {
            pos += 1;
        }
        let ghost old_r = r@;
        r.insert(pos, x);
        proof {
            assert forall|i: int, j: int| 0 <= i < j < r@.len() implies spike_le(
                #[trigger] r@[i],
                #[trigger] r@[j],
            ) by {
                if j == pos {
                } else if i == pos {
                    assert(spike_le(x, old_r[pos as int]));
                    assert(spike_le(old_r[pos as int], old_r[j - 1]) || j - 1 == pos);
                } else {
                    let oi = if i < pos { i } else { i - 1 };
                    let oj = if j < pos { j } else { j - 1 };
                    assert(spike_le(old_r[oi], old_r[oj]) || oi == oj);
                }
            }
            vstd::seq_lib::to_multiset_insert(old_r, pos as int, x);
            assert(s@.take(k + 1) =~= s@.take(k as int).push(x));
            vstd::seq_lib::to_multiset_build(s@.take(k as int), x);
        }
        k += 1;
    }
    proof {
        assert(s@.take(k as int) =~= s@);
    }
    r
}

/// Splits spikes into batches of equal time, each batch a maximal run of
/// consecutive spikes with the same time; laid end to end, the batches give
/// back the spikes.
pub fn timestamp_batches(spikes: &Vec<Spike>) -> (r: Vec<Vec<Spike>>)
    ensures
        concat_batches(r@) == spikes@,
        are_time_batches(r@),
{
    let mut r: Vec<Vec<Spike>> = Vec::new();
    let mut cur: Vec<Spike> = Vec::new();
    let mut i: usize = 0;
    while i < spikes.len()
        invariant
            i <= spikes.len(),
            concat_batches(r@) + cur@ == spikes@.take(i as int),
            are_time_batches(r@),
            same_time(cur@),
            i > 0 ==> cur@.len() > 0,
            r@.len() > 0 && cur@.len() > 0 ==> cur@[0].ts != r@.last()@[0].ts,
        decreases spikes.len() - i,
    {
        let s = spikes[i];
        if cur.len() == 0 || cur[0].ts == s.ts {
            cur.push(s);
        } else {
            let ghost old_r = r@;
            let ghost old_cur = cur@;
            let mut full: Vec<Spike> = Vec::new();
            std::mem::swap(&mut full, &mut cur);
            r.push(full);
            cur.push(s);
            proof {
                assert(r@.drop_last() =~= old_r);
                assert(r@.last()@ == old_cur);
            }
        }
        proof {
            assert(spikes@.take(i + 1) =~= spikes@.take(i as int).push(s));
        }
        i += 1;
    }
    if cur.len() > 0 {
        let ghost old_r = r@;
        r.push(cur);
        proof {
            assert(r@.drop_last() =~= old_r);
        }
    }
    proof {
        assert(spikes@.take(i as int) =~= spikes@);
    }
    r
}

/// The spikes that layer `layer_id` emits after handling the batch of time
/// `ts`: one at `ts + 1` for each neuron marked in `fired`, by neuron index.
pub fn fired_spikes(ts: u128, layer_id: usize, fired: &Vec<bool>) -> (r: Vec<Spike>)
    requires
        ts < u128::MAX,
    ensures
        r@ == fired_seq(ts, layer_id, fired@),
{
    let mut r: Vec<Spike> = Vec::new();
    let mut i: usize = 0;
    while i < fired.len()
        invariant
            ts < u128::MAX,
            i <= fired.len(),
            r@ == fired_seq(ts, layer_id, fired@.take(i as int)),
        decreases fired.len() - i,
    {
        proof {
            assert(fired@.take(i + 1).drop_last() =~= fired@.take(i as int));
        }
        if fired[i] {
            r.push(Spike { ts: ts + 1, layer_id, neuron_id: i });
        }
        proof {
            assert(r@ =~= fired_seq(ts, layer_id, fired@.take(i + 1)));
        }
        i += 1;
    }
    proof {
        assert(fired@.take(i as int) =~= fired@);
    }
    r
}

/// An empty table of spike trains for `n` neurons: `(i, [])` for each `i < n`.
pub fn new_output(n: usize) -> (r: Vec<(u128, Vec<u128>)>)
    ensures
        r@.len() == n,
        trains_well_formed(r@),
        forall|i: int| 0 <= i < n ==> (#[trigger] r@[i]).1@.len() == 0,
{
    let mut r: Vec<(u128, Vec<u128>)> = Vec::new();
    let mut i: usize = 0;
    while i < n
        invariant
            i <= n,
            r@.len() == i,
            trains_well_formed(r@),
            forall|j: int| 0 <= j < i ==> (#[trigger] r@[j]).1@.len() == 0,
        decreases n - i,
    {
        r.push((i as u128, Vec::new()));
        i += 1;
    }
    r
}

/// Appends the time of each spike of `spikes` to the train of the neuron that
/// fired it; spikes of neurons the table does not hold are left out.
pub fn record_output(out: &mut Vec<(u128, Vec<u128>)>, spikes: &Vec<Spike>)
    requires
        trains_well_formed(old(out)@),
    ensures
        final(out)@.len() == old(out)@.len(),
        trains_well_formed(final(out)@),
        forall|i: int|
            0 <= i < old(out)@.len() ==> (#[trigger] final(out)@[i]).1@ == old(out)@[i].1@
                + times_of(spikes@, i),
{
    let ghost start = out@;
    let mut k: usize = 0;
    while k < spikes.len()
        invariant
            k <= spikes.len(),
            out@.len() == start.len(),
            trains_well_formed(out@),
            forall|i: int|
                0 <= i < start.len() ==> (#[trigger] out@[i]).1@ == start[i].1@ + times_of(
                    spikes@.take(k as int),
                    i,
                ),
        decreases spikes.len() - k,
    {
        let s = spikes[k];
        proof {
            assert(spikes@.take(k + 1).drop_last() =~= spikes@.take(k as int));
        }
        if s.neuron_id < out.len() {
            out[s.neuron_id].1.push(s.ts);
        }
        proof {
            assert forall|i: int| 0 <= i < start.len() implies (#[trigger] out@[i]).1@ == start[i].1@
                + times_of(spikes@.take(k + 1), i) by {
                assert(spikes@.take(k + 1).last() == s);
                if i == s.neuron_id {
                    assert(out@[i].1@ =~= start[i].1@ + times_of(spikes@.take(k + 1), i));
                } else {
                    assert(times_of(spikes@.take(k + 1), i) =~= times_of(spikes@.take(k as int), i));
                }
            }
        }
        k += 1;
    }
    proof {
        assert(spikes@.take(k as int) =~= spikes@);
    }
}

/// Whether two tables hold the same spike trains.
pub fn are_equal(a: &Vec<(u128, Vec<u128>)>, b: &Vec<(u128, Vec<u128>)>) -> (r: bool)
    ensures
        r == same_trains(a@, b@),
{
    if a.len() != b.len() {
        return false;
    }
    let mut i: usize = 0;
    while i < a.len()
        invariant
            a@.len() == b@.len(),
            i <= a.len(),
            forall|j: int| 0 <= j < i ==> (#[trigger] a@[j]).0 == b@[j].0 && a@[j].1@ == b@[j].1@,
        decreases a.len() - i,
    {
        if a[i].0 != b[i].0 {
            return false;
        }
        let x = &a[i].1;
        let y = &b[i].1;
        if x.len() != y.len() {
            return false;
        }
        let mut j: usize = 0;
        while j < x.len()
            invariant
                x.len() == y.len(),
                j <= x.len(),
                i < a@.len(),
                a@.len() == b@.len(),
                x@ == a@[i as int].1@,
                y@ == b@[i as int].1@,
                forall|m: int| 0 <= m < j ==> x@[m] == y@[m],
            decreases x.len() - j,
        {
            if x[j] != y[j] {
                assert(a@[i as int].1@[j as int] != b@[i as int].1@[j as int]);
                return false;
            }
            j += 1;
        }
        proof {
            assert(x@ =~= y@);
        }
        i += 1;
    }
    true
}

} // verus!
