//! Placement of neurons read from a file: records that give a configuration
//! to ranges of layers and neurons (`"2"`, `"0-3"`), expanded, ordered and
//! grouped into layers.
use crate::neuron::{built_from, same_neuron, Configuration, LifNeuron};
use vstd::prelude::*;
use vstd::string::StrSliceExecFns;

verus! {

pub open spec fn is_digit(c: char) -> bool {
    '0' <= c <= '9'
}

/// Value of a string of decimal digits.
pub open spec fn digits_value(s: Seq<char>) -> int
    decreases s.len(),
{
    if s.len() == 0 {
        0
    } else {
        digits_value(s.drop_last()) * 10 + (s.last() as int - '0' as int)
    }
}

pub open spec fn all_digits(s: Seq<char>) -> bool {
    forall|i: int| 0 <= i < s.len() ==> is_digit(#[trigger] s[i])
}

/// `s` without its leading `+`, if it has one.
pub open spec fn unsigned_part(s: Seq<char>) -> Seq<char> {
    if s.len() > 0 && s[0] == '+' {
        s.drop_first()
    } else {
        s
    }
}

/// The number a string writes in decimal, as `u32` parsing reads it: an
/// optional `+`, then at least one digit, with a value that fits.
pub open spec fn u32_text(s: Seq<char>) -> Option<u32> {
    let body = unsigned_part(s);
    if body.len() == 0 || !all_digits(body) || digits_value(body) > u32::MAX {
        None
    } else {
        Some(digits_value(body) as u32)
    }
}

/// Index of the first `-` of `s`, or its length where it has none.
pub open spec fn first_dash(s: Seq<char>) -> int
    decreases s.len(),
{
    if s.len() == 0 {
        0
    } else if s[0] == '-' {
        0
    } else {
        1 + first_dash(s.drop_first())
    }
}

/// The bounds a range text gives: `"a-b"` gives `a` and `b` (text after a
/// second `-` is ignored), `"a"` gives `a` twice; a bound that is not a
/// number is `None`.
pub open spec fn range_of(s: Seq<char>) -> (Option<u32>, Option<u32>) {
    let d = first_dash(s);
    if d < s.len() {
        let rest = s.subrange(d + 1, s.len() as int);
        (u32_text(s.subrange(0, d)), u32_text(rest.subrange(0, first_dash(rest))))
    } else {
        (u32_text(s), u32_text(s))
    }
}

proof fn lemma_first_dash(s: Seq<char>, i: int)
    requires
        0 <= i <= s.len(),
        forall|j: int| 0 <= j < i ==> s[j] != '-',
        i == s.len() || s[i] == '-',
    ensures
        first_dash(s) == i,
    decreases i,
{
    if i > 0 {
        lemma_first_dash(s.drop_first(), i - 1);
    }
}

proof fn lemma_digits_nonneg(s: Seq<char>)
    requires
        forall|i: int| 0 <= i < s.len() ==> is_digit(#[trigger] s[i]),
    ensures
        digits_value(s) >= 0,
    decreases s.len(),
{
    if s.len() > 0 {
        lemma_digits_nonneg(s.drop_last());
    }
}

proof fn lemma_digits_prefix(s: Seq<char>, k: int)
    requires
        0 <= k <= s.len(),
        forall|i: int| 0 <= i < s.len() ==> is_digit(#[trigger] s[i]),
    ensures
        digits_value(s.take(k)) <= digits_value(s),
    decreases s.len(),
{
    if k < s.len() {
        assert(s.drop_last().take(k) =~= s.take(k));
        lemma_digits_prefix(s.drop_last(), k);
        lemma_digits_nonneg(s.drop_last());
    } else {
        assert(s.take(k) =~= s);
    }
}

/// The characters of `s`.
fn chars_of(s: &str) -> (r: Vec<char>)
    ensures
        r@ == s@,
{
    let n = s.unicode_len();
    let mut r: Vec<char> = Vec::new();
    let mut i: usize = 0;
    while i < n
        invariant
            n == s@.len(),
            i <= n,
            r@ == s@.take(i as int),
        decreases n - i,
    {
        r.push(s.get_char(i));
        proof {
            assert(s@.take(i + 1) =~= s@.take(i as int).push(s@[i as int]));
        }
        i += 1;
    }
    proof {
        assert(s@.take(i as int) =~= s@);
    }
    r
}

/// The number that `s[from..to]` writes in decimal, as `u32` parsing reads it.
fn parse_u32(s: &Vec<char>, from: usize, to: usize) -> (r: Option<u32>)
    requires
        from <= to <= s@.len(),
    ensures
        r == u32_text(s@.subrange(from as int, to as int)),
{
    let ghost t = s@.subrange(from as int, to as int);
    let mut i = from;
    if i < to && s[i] == '+' {
        i += 1;
    }
    let ghost body = s@.subrange(i as int, to as int);
    proof {
        assert(body =~= unsigned_part(t));
    }
    if i == to {
        return None;
    }
    let mut val: u64 = 0;
    let start = i;
    while i < to
        invariant
            from <= start <= i <= to <= s@.len(),
            t == s@.subrange(from as int, to as int),
            body == unsigned_part(t),
            body == s@.subrange(start as int, to as int),
            forall|j: int| start <= j < i ==> is_digit(#[trigger] s@[j]),
            val == digits_value(s@.subrange(start as int, i as int)),
            val <= u32::MAX,
        decreases to - i,
    {
        let c = s[i];
        if !('0' <= c && c <= '9') {
            proof {
                assert(!is_digit(body[i - start]));
                assert(!all_digits(body));
                assert(u32_text(t) is None);
            }
            return None;
        }
        proof {
            assert(s@.subrange(start as int, i + 1).drop_last() =~= s@.subrange(start as int, i as int));
        }
        val = val * 10 + (c as u64 - '0' as u64);
        proof {
            assert(val == digits_value(s@.subrange(start as int, i + 1)));
        }
        if val > 0xffff_ffff {
            proof {
                assert(forall|j: int| start <= j <= i ==> is_digit(#[trigger] s@[j]));
                if all_digits(body) {
                    assert(body.take(i + 1 - start) =~= s@.subrange(start as int, i + 1));
                    lemma_digits_prefix(body, i + 1 - start);
                    assert(digits_value(body) > u32::MAX);
                }
                assert(u32_text(t) is None);
            }
            return None;
        }
        i += 1;
    }
    proof {
        assert(s@.subrange(start as int, i as int) =~= body);
    }
    Some(val as u32)
}

/// Index of the first `-` in `s[from..]`, relative to `from`, or the length
/// of that part where it has none.
fn find_dash(s: &Vec<char>, from: usize) -> (r: usize)
    requires
        from <= s@.len(),
    ensures
        r == first_dash(s@.subrange(from as int, s@.len() as int)),
        from + r <= s@.len(),
{
    let mut i = from;
    while i < s.len() && s[i] != '-'
        invariant
            from <= i <= s@.len(),
            forall|j: int| from <= j < i ==> s@[j] != '-',
        decreases s@.len() - i,
    {
        i += 1;
    }
    proof {
        let t = s@.subrange(from as int, s@.len() as int);
        lemma_first_dash(t, i - from);
    }
    i - from
}

/// The bounds that a range text gives; see `range_of`.
pub fn parse_range(text: &str) -> (r: (Option<u32>, Option<u32>))
    ensures
        r == range_of(text@),
{
    let s = chars_of(text);
    let d = find_dash(&s, 0);
    proof {
        assert(s@.subrange(0, s@.len() as int) =~= s@);
    }
    if d < s.len() {
        let e = find_dash(&s, d + 1);
        proof {
            let rest = s@.subrange(d + 1, s@.len() as int);
            assert(rest.subrange(0, e as int) =~= s@.subrange(d + 1, d + 1 + e));
        }
        (parse_u32(&s, 0, d), parse_u32(&s, d + 1, d + 1 + e))
    } else {
        let v = parse_u32(&s, 0, s.len());
        (v, v)
    }
}

/// Which neurons of which layers use configuration `configuration`: the
/// ranges are texts such as `"2"` or `"0-3"`, bounds included.
#[derive(Clone, Debug)]
pub struct NeuronJson {
    pub neurons: String,
    pub layers: String,
    pub configuration: u32,
}

/// A neuron with its place: layer and position within the layer.
#[derive(Debug)]
pub struct NeuronBox {
    pub layer: u32,
    pub position: u32,
    pub neuron: LifNeuron,
}

/// The configuration with identifier `id`, the first one listed.
pub open spec fn config_lookup(configs: Seq<(u32, Configuration)>, id: u32) -> Option<Configuration>
    decreases configs.len(),
{
    if configs.len() == 0 {
        None
    } else if configs[0].0 == id {
        Some(configs[0].1)
    } else {
        config_lookup(configs.drop_first(), id)
    }
}

/// The configuration of all-zero bits, which a record whose configuration is
/// missing gets.
pub open spec fn zero_configuration() -> Configuration {
    Configuration { v_rest: 0, v_reset: 0, v_threshold: 0, tau: 0 }
}

/// Positions `n0..=n1` of layer `l`, each with configuration `c`.
pub open spec fn row(l: int, n0: int, n1: int, c: Configuration) -> Seq<(u32, u32, Configuration)>
    decreases n1 - n0 + 1,
{
    if n1 < n0 {
        seq![]
    } else {
        row(l, n0, n1 - 1, c).push((l as u32, n1 as u32, c))
    }
}

/// Positions `n0..=n1` of each layer of `l0..=l1`, layer after layer.
pub open spec fn grid(l0: int, l1: int, n0: int, n1: int, c: Configuration) -> Seq<(u32, u32, Configuration)>
    decreases l1 - l0 + 1,
{
    if l1 < l0 {
        seq![]
    } else {
        grid(l0, l1 - 1, n0, n1, c) + row(l1, n0, n1, c)
    }
}

/// The placed neurons a record describes: none unless all four bounds parse.
pub open spec fn record_places(r: NeuronJson, configs: Seq<(u32, Configuration)>) -> Seq<(u32, u32, Configuration)> {
    let (l0, l1) = range_of(r.layers@);
    let (n0, n1) = range_of(r.neurons@);
    let c = match config_lookup(configs, r.configuration) {
        Some(c) => c,
        None => zero_configuration(),
    };
    if l0 is Some && l1 is Some && n0 is Some && n1 is Some {
        grid(l0.unwrap() as int, l1.unwrap() as int, n0.unwrap() as int, n1.unwrap() as int, c)
    } else {
        seq![]
    }
}

/// The placed neurons of all records, record after record.
pub open spec fn all_places(records: Seq<NeuronJson>, configs: Seq<(u32, Configuration)>) -> Seq<(u32, u32, Configuration)>
    decreases records.len(),
{
    if records.len() == 0 {
        seq![]
    } else {
        all_places(records.drop_last(), configs) + record_places(records.last(), configs)
    }
}

/// `b` is the neuron placed by `p`.
pub open spec fn places(b: NeuronBox, p: (u32, u32, Configuration)) -> bool {
    b.layer == p.0 && b.position == p.1 && built_from(b.neuron, p.2)
}

/// The configuration with identifier `target`, the first one listed.
pub fn find_by_configuration(configs: &Vec<(u32, Configuration)>, target: u32) -> (r: Option<Configuration>)
    ensures
        r == config_lookup(configs@, target),
{
    let mut i: usize = 0;
    proof {
        assert(configs@.skip(0) =~= configs@);
    }
    while i < configs.len()
        invariant
            i <= configs@.len(),
            config_lookup(configs@, target) == config_lookup(configs@.skip(i as int), target),
        decreases configs@.len() - i,
    {
        proof {
            assert(configs@.skip(i as int).drop_first() =~= configs@.skip(i + 1));
        }
        if configs[i].0 == target {
            return Some(configs[i].1);
        }
        i += 1;
    }
    None
}

/// Appends the neurons of positions `n0..=n1` of each layer of `l0..=l1`.
fn push_grid(out: &mut Vec<NeuronBox>, l0: u32, l1: u32, n0: u32, n1: u32, c: Configuration)
    ensures
        final(out)@.len() == old(out)@.len() + grid(l0 as int, l1 as int, n0 as int, n1 as int, c).len(),
        forall|i: int| 0 <= i < old(out)@.len() ==> #[trigger] final(out)@[i] == old(out)@[i],
        forall|i: int|
            0 <= i < grid(l0 as int, l1 as int, n0 as int, n1 as int, c).len() ==> places(
                #[trigger] final(out)@[old(out)@.len() + i],
                grid(l0 as int, l1 as int, n0 as int, n1 as int, c)[i],
            ),
{
    let ghost start = out@;
    let mut l: u64 = l0 as u64;
    if l0 > l1 {
        return;
    }
    while l <= l1 as u64
        invariant
            l0 <= l <= l1 as u64 + 1,
            l0 <= l1,
            out@.len() == start.len() + grid(l0 as int, l - 1, n0 as int, n1 as int, c).len(),
            forall|i: int| 0 <= i < start.len() ==> #[trigger] out@[i] == start[i],
            forall|i: int|
                0 <= i < grid(l0 as int, l - 1, n0 as int, n1 as int, c).len() ==> places(
                    #[trigger] out@[start.len() + i],
                    grid(l0 as int, l - 1, n0 as int, n1 as int, c)[i],
                ),
        decreases l1 as u64 + 1 - l,
    {
        let ghost before = out@;
        let ghost g = grid(l0 as int, l - 1, n0 as int, n1 as int, c);
        let mut p: u64 = n0 as u64;
        while p <= n1 as u64
            invariant
                l0 <= l <= l1,
                n0 <= p <= n1 as u64 + 1 || n0 > n1,
                n0 > n1 ==> p == n0,
                g == grid(l0 as int, l - 1, n0 as int, n1 as int, c),
                before.len() == start.len() + g.len(),
                forall|i: int| 0 <= i < start.len() ==> #[trigger] before[i] == start[i],
                forall|i: int| 0 <= i < g.len() ==> places(#[trigger] before[start.len() + i], g[i]),
                out@.len() == before.len() + row(l as int, n0 as int, p - 1, c).len(),
                forall|i: int| 0 <= i < before.len() ==> #[trigger] out@[i] == before[i],
                forall|i: int|
                    0 <= i < row(l as int, n0 as int, p - 1, c).len() ==> places(
                        #[trigger] out@[before.len() + i],
                        row(l as int, n0 as int, p - 1, c)[i],
                    ),
            decreases n1 as u64 + 1 - p,
        {
            out.push(NeuronBox { layer: l as u32, position: p as u32, neuron: LifNeuron::from_conf(&c) });
            proof {
                assert((l as int) as u32 == l as u32);
                assert((p as int) as u32 == p as u32);
                assert(row(l as int, n0 as int, p as int, c) == row(l as int, n0 as int, p - 1, c).push(
                    ((l as int) as u32, (p as int) as u32, c),
                ));
            }
            p += 1;
        }
        proof {
            let r = row(l as int, n0 as int, p - 1, c);
            if n0 > n1 {
                assert(p == n0);
                assert(r.len() == 0);
            }
            assert(grid(l0 as int, l as int, n0 as int, n1 as int, c) == g + r) by {
                assert(p - 1 == n1 || n0 > n1);
                if n0 > n1 {
                    assert(row(l as int, n0 as int, n1 as int, c).len() == 0);
                    assert(r =~= row(l as int, n0 as int, n1 as int, c));
                }
            }
            let ng = grid(l0 as int, l as int, n0 as int, n1 as int, c);
            assert forall|i: int| 0 <= i < ng.len() implies places(#[trigger] out@[start.len() + i], ng[i]) by {
                if i < g.len() {
                    assert(out@[start.len() + i] == before[start.len() + i]);
                } else {
                    assert(out@[start.len() + i] == out@[before.len() + (i - g.len())]);
                    assert(ng[i] == r[i - g.len()]);
                }
            }
        }
        l += 1;
    }
}

impl NeuronJson {
    /// The neurons that the records place, record after record: for each
    /// record whose four bounds parse, positions `n0..=n1` of each layer of
    /// `l0..=l1`, built from the record's configuration (all-zero bits when
    /// no configuration has its identifier).
    pub fn neuron_boxes(records: &Vec<NeuronJson>, configs: &Vec<(u32, Configuration)>) -> (r: Vec<NeuronBox>)
        ensures
            r@.len() == all_places(records@, configs@).len(),
            forall|i: int| 0 <= i < r@.len() ==> places(#[trigger] r@[i], all_places(records@, configs@)[i]),
    {
        let mut out: Vec<NeuronBox> = Vec::new();
        let mut k: usize = 0;
        while k < records.len()
            invariant
                k <= records@.len(),
                out@.len() == all_places(records@.take(k as int), configs@).len(),
                forall|i: int| 0 <= i < out@.len() ==> places(#[trigger] out@[i], all_places(records@.take(k as int), configs@)[i]),
            decreases records@.len() - k,
        {
            let rec = &records[k];
            let c = match find_by_configuration(configs, rec.configuration) {
                Some(c) => c,
                None => Configuration::new(0, 0, 0, 0),
            };
            let (l0, l1) = parse_range(rec.layers.as_str());
            let (n0, n1) = parse_range(rec.neurons.as_str());
            let ghost before = out@;
            if l0.is_some() && l1.is_some() && n0.is_some() && n1.is_some() {
                push_grid(&mut out, l0.unwrap(), l1.unwrap(), n0.unwrap(), n1.unwrap(), c);
            }
            proof {
                assert(records@.take(k + 1).drop_last() =~= records@.take(k as int));
                let prev = all_places(records@.take(k as int), configs@);
                let cur = record_places(records@[k as int], configs@);
                assert(all_places(records@.take(k + 1), configs@) == prev + cur);
                assert forall|i: int| 0 <= i < out@.len() implies places(#[trigger] out@[i], (prev + cur)[i]) by {
                    if i >= prev.len() {
                        assert(out@[prev.len() + (i - prev.len())] == out@[i]);
                    }
                }
            }
            k += 1;
        }
        proof {
            assert(records@.take(k as int) =~= records@);
        }
        out
    }
}

/// Place of a neuron: layer, then position.
pub open spec fn bkey(b: NeuronBox) -> (u32, u32) {
    (b.layer, b.position)
}

pub open spec fn key_lt(a: (u32, u32), b: (u32, u32)) -> bool {
    a.0 < b.0 || (a.0 == b.0 && a.1 < b.1)
}

/// No neuron before `s[j]` has its place.
pub open spec fn first_with_key(s: Seq<NeuronBox>, j: int) -> bool {
    forall|m: int| 0 <= m < j ==> bkey(#[trigger] s[m]) != bkey(s[j])
}

/// Some neuron of `s` has place `k`.
pub open spec fn has_key(s: Seq<NeuronBox>, k: (u32, u32)) -> bool {
    exists|i: int| 0 <= i < s.len() && bkey(#[trigger] s[i]) == k
}

fn key_less(a: &NeuronBox, b: &NeuronBox) -> (r: bool)
    ensures
        r == key_lt(bkey(*a), bkey(*b)),
{
    a.layer < b.layer || (a.layer == b.layer && a.position < b.position)
}

fn copy_box(b: &NeuronBox) -> (r: NeuronBox)
    ensures
        bkey(r) == bkey(*b),
        same_neuron(r.neuron, b.neuron),
{
    NeuronBox { layer: b.layer, position: b.position, neuron: b.neuron.clone() }
}

/// The neurons ordered by place, each place kept once, with the neuron listed
/// first for it.
pub fn sort_and_dedup(boxes: &Vec<NeuronBox>) -> (r: Vec<NeuronBox>)
    ensures
        forall|i: int, j: int| 0 <= i < j < r@.len() ==> key_lt(bkey(#[trigger] r@[i]), bkey(#[trigger] r@[j])),
        forall|i: int|
            0 <= i < r@.len() ==> exists|j: int|
                0 <= j < boxes@.len() && first_with_key(boxes@, j) && bkey(#[trigger] boxes@[j]) == bkey(
                    #[trigger] r@[i],
                ) && same_neuron(r@[i].neuron, boxes@[j].neuron),
        forall|j: int| 0 <= j < boxes@.len() ==> has_key(r@, bkey(#[trigger] boxes@[j])),
{
    let mut res: Vec<NeuronBox> = Vec::new();
    let ghost mut src: Seq<int> = seq![];
    let mut k: usize = 0;
    while k < boxes.len()
        invariant
            k <= boxes@.len(),
            forall|i: int, j: int| 0 <= i < j < res@.len() ==> key_lt(bkey(#[trigger] res@[i]), bkey(#[trigger] res@[j])),
            src.len() == res@.len(),
            forall|i: int|
                0 <= i < res@.len() ==> 0 <= #[trigger] src[i] < k && bkey(boxes@[src[i]]) == bkey(res@[i])
                    && same_neuron(res@[i].neuron, boxes@[src[i]].neuron) && first_with_key(boxes@, src[i]),
            forall|j: int| 0 <= j < k ==> has_key(res@, bkey(#[trigger] boxes@[j])),
        decreases boxes@.len() - k,
    {
        let x = &boxes[k];
        let mut pos: usize = 0;
        while pos < res.len() && key_less(&res[pos], x)
            invariant
                pos <= res@.len(),
                k < boxes@.len(),
                *x == boxes@[k as int],
                forall|i: int| 0 <= i < pos ==> key_lt(bkey(#[trigger] res@[i]), bkey(*x)),
            decreases res@.len() - pos,
        {
            pos += 1;
        }
        if pos < res.len() && res[pos].layer == x.layer && res[pos].position == x.position {
            proof {
                assert(bkey(res@[pos as int]) == bkey(boxes@[k as int]));
                assert forall|j: int| 0 <= j < k + 1 implies has_key(res@, bkey(#[trigger] boxes@[j])) by {
                    if j == k {
                        assert(bkey(res@[pos as int]) == bkey(boxes@[j]));
                    }
                }
            }
        } else {
            let ghost old_res = res@;
            let ghost old_src = src;
            proof {
                assert forall|i: int| 0 <= i < old_res.len() implies bkey(#[trigger] old_res[i]) != bkey(*x) by {
                    if i >= pos {
                        assert(!key_lt(bkey(old_res[pos as int]), bkey(*x)));
                        if i > pos {
                            assert(key_lt(bkey(old_res[pos as int]), bkey(old_res[i])));
                        }
                    }
                }
                assert forall|m: int| 0 <= m < k implies bkey(#[trigger] boxes@[m]) != bkey(boxes@[k as int]) by {
                    assert(has_key(old_res, bkey(boxes@[m])));
                    let i = choose|i: int| 0 <= i < old_res.len() && bkey(#[trigger] old_res[i]) == bkey(boxes@[m]);
                    assert(bkey(old_res[i]) != bkey(*x));
                }
            }
            res.insert(pos, copy_box(x));
            proof {
                src = old_src.insert(pos as int, k as int);
                assert forall|i: int, j: int| 0 <= i < j < res@.len() implies key_lt(
                    bkey(#[trigger] res@[i]),
                    bkey(#[trigger] res@[j]),
                ) by {
                    if j == pos {
                    } else if i == pos {
                        assert(!key_lt(bkey(old_res[pos as int]), bkey(*x)));
                        assert(bkey(old_res[pos as int]) != bkey(*x));
                        if j - 1 > pos {
                            assert(key_lt(bkey(old_res[pos as int]), bkey(old_res[j - 1])));
                        }
                    } else {
                        let oi = if i < pos { i } else { i - 1 };
                        let oj = if j < pos { j } else { j - 1 };
                        if oi != oj {
                            assert(key_lt(bkey(old_res[oi]), bkey(old_res[oj])));
                        }
                    }
                }
                assert forall|j: int| 0 <= j < k + 1 implies has_key(res@, bkey(#[trigger] boxes@[j])) by {
                    if j == k {
                        assert(bkey(res@[pos as int]) == bkey(boxes@[j]));
                    } else {
                        assert(has_key(old_res, bkey(boxes@[j])));
                        let i = choose|i: int| 0 <= i < old_res.len() && bkey(#[trigger] old_res[i]) == bkey(boxes@[j]);
                        if i < pos {
                            assert(bkey(res@[i]) == bkey(boxes@[j]));
                        } else {
                            assert(bkey(res@[i + 1]) == bkey(boxes@[j]));
                        }
                    }
                }
            }
        }
        k += 1;
    }
    proof {
        assert forall|i: int| 0 <= i < res@.len() implies exists|j: int|
            0 <= j < boxes@.len() && first_with_key(boxes@, j) && bkey(#[trigger] boxes@[j]) == bkey(
                #[trigger] res@[i],
            ) && same_neuron(res@[i].neuron, boxes@[j].neuron) by {
            let j = src[i];
            assert(0 <= j < boxes@.len());
            assert(first_with_key(boxes@, j));
            assert(bkey(boxes@[j]) == bkey(res@[i]));
            assert(same_neuron(res@[i].neuron, boxes@[j].neuron));
        }
    }
    res
}

/// Number of neurons in the groups before group `k`.
pub open spec fn offset(r: Seq<Vec<LifNeuron>>, k: int) -> int
    decreases k,
{
    if k <= 0 {
        0
    } else {
        offset(r, k - 1) + r[k - 1]@.len()
    }
}

proof fn lemma_offset_push(r: Seq<Vec<LifNeuron>>, g: Vec<LifNeuron>, k: int)
    requires
        0 <= k <= r.len(),
    ensures
        offset(r.push(g), k) == offset(r, k),
    decreases k,
{
    if k > 0 {
        lemma_offset_push(r, g, k - 1);
    }
}

/// `r` splits the neurons of `boxes` into the runs of consecutive neurons of
/// one layer.
pub open spec fn are_layer_groups(r: Seq<Vec<LifNeuron>>, boxes: Seq<NeuronBox>) -> bool {
    &&& offset(r, r.len() as int) == boxes.len()
    &&& forall|k: int| 0 <= k < r.len() ==> (#[trigger] r[k])@.len() > 0
    &&& forall|k: int, i: int|
        0 <= k < r.len() && 0 <= i < r[k]@.len() ==> same_neuron(
            #[trigger] r[k]@[i],
            boxes[offset(r, k) + i].neuron,
        ) && boxes[offset(r, k) + i].layer == boxes[offset(r, k)].layer
    &&& forall|k: int|
        0 < k < r.len() ==> boxes[offset(r, k)].layer != boxes[#[trigger] offset(r, k) - 1].layer
}

/// The neurons, in order, cut into layers: a new layer starts wherever the
/// layer number changes.
pub fn group_layers(boxes: &Vec<NeuronBox>) -> (r: Vec<Vec<LifNeuron>>)
    ensures
        are_layer_groups(r@, boxes@),
{
    let mut r: Vec<Vec<LifNeuron>> = Vec::new();
    let mut cur: Vec<LifNeuron> = Vec::new();
    let mut cur_layer: u32 = 0;
    let mut i: usize = 0;
    while i < boxes.len()
        invariant
            i <= boxes@.len(),
            offset(r@, r@.len() as int) + cur@.len() == i,
            i > 0 ==> cur@.len() > 0,
            cur@.len() > 0 ==> i > 0 && cur_layer == boxes@[i - 1].layer,
            i == 0 ==> r@.len() == 0,
            forall|m: int|
                0 <= m < cur@.len() ==> same_neuron(#[trigger] cur@[m], boxes@[offset(r@, r@.len() as int) + m].neuron)
                    && boxes@[offset(r@, r@.len() as int) + m].layer == boxes@[offset(r@, r@.len() as int)].layer,
            r@.len() > 0 && cur@.len() > 0 ==> boxes@[offset(r@, r@.len() as int)].layer != boxes@[offset(r@, r@.len() as int) - 1].layer,
            offset(r@, r@.len() as int) <= boxes@.len(),
            forall|k: int| 0 <= k < r@.len() ==> (#[trigger] r@[k])@.len() > 0,
            forall|k: int, j: int|
                0 <= k < r@.len() && 0 <= j < r@[k]@.len() ==> same_neuron(
                    #[trigger] r@[k]@[j],
                    boxes@[offset(r@, k) + j].neuron,
                ) && boxes@[offset(r@, k) + j].layer == boxes@[offset(r@, k)].layer,
            forall|k: int|
                0 < k < r@.len() ==> boxes@[offset(r@, k)].layer != boxes@[#[trigger] offset(r@, k) - 1].layer,
        decreases boxes@.len() - i,
    {
        let b = &boxes[i];
        let ghost o = offset(r@, r@.len() as int);
        let ghost old_cur = cur@;
        proof {
            if old_cur.len() > 0 {
                let n = old_cur.len() - 1;
                assert(0 <= n < cur@.len());
                assert(same_neuron(cur@[n], boxes@[o + n].neuron));
                assert(boxes@[o + n].layer == boxes@[o].layer);
                assert(o + n == i - 1);
            }
        }
        if cur.len() == 0 || b.layer == cur_layer {
            cur.push(b.neuron.clone());
            cur_layer = b.layer;
            proof {
                assert forall|m: int| 0 <= m < cur@.len() implies same_neuron(#[trigger] cur@[m], boxes@[o + m].neuron)
                    && boxes@[o + m].layer == boxes@[o].layer by {
                    if m == old_cur.len() {
                        assert(o + m == i);

                    } else {
                        assert(cur@[m] == old_cur[m]);
                    }
                }
            }
        } else {
            let ghost old_r = r@;
            let mut full: Vec<LifNeuron> = Vec::new();
            std::mem::swap(&mut full, &mut cur);
            let ghost g = full;
            r.push(full);
            cur.push(b.neuron.clone());
            cur_layer = b.layer;
            proof {
                assert(g@ == old_cur);
                assert forall|k: int| 0 <= k <= old_r.len() implies offset(r@, k) == offset(old_r, k) by {
                    lemma_offset_push(old_r, g, k);
                }
                assert(r@[old_r.len() as int] == g);
                assert(offset(r@, r@.len() as int) == o + g@.len());
                assert(o + g@.len() == i);
                assert(boxes@[i as int].layer != boxes@[i - 1].layer);
                assert forall|k: int, j: int|
                    0 <= k < r@.len() && 0 <= j < r@[k]@.len() implies same_neuron(
                        #[trigger] r@[k]@[j],
                        boxes@[offset(r@, k) + j].neuron,
                    ) && boxes@[offset(r@, k) + j].layer == boxes@[offset(r@, k)].layer by {
                    if k < old_r.len() {
                        assert(r@[k] == old_r[k]);
                    } else {
                        assert(r@[k]@[j] == old_cur[j]);
                    }
                }
                assert forall|k: int| 0 < k < r@.len() implies boxes@[offset(r@, k)].layer != boxes@[#[trigger] offset(r@, k) - 1].layer by {
                    if k < old_r.len() {
                        assert(offset(r@, k) == offset(old_r, k));
                        assert(boxes@[offset(old_r, k)].layer != boxes@[offset(old_r, k) - 1].layer);
                    } else {
                        assert(offset(r@, k) == o);
                    }
                }
                assert forall|k: int| 0 <= k < r@.len() implies (#[trigger] r@[k])@.len() > 0 by {
                    if k < old_r.len() {
                        assert(r@[k] == old_r[k]);
                    }
                }
            }
        }
        i += 1;
    }
    if cur.len() > 0 {
        let ghost old_r = r@;
        let ghost o = offset(r@, r@.len() as int);
        let ghost g = cur;
        r.push(cur);
        proof {
            assert forall|k: int| 0 <= k <= old_r.len() implies offset(r@, k) == offset(old_r, k) by {
                lemma_offset_push(old_r, g, k);
            }
            assert(r@[old_r.len() as int] == g);
            assert(offset(r@, r@.len() as int) == o + g@.len());
            assert forall|k: int, j: int|
                0 <= k < r@.len() && 0 <= j < r@[k]@.len() implies same_neuron(
                    #[trigger] r@[k]@[j],
                    boxes@[offset(r@, k) + j].neuron,
                ) && boxes@[offset(r@, k) + j].layer == boxes@[offset(r@, k)].layer by {
                if k < old_r.len() {
                    assert(r@[k] == old_r[k]);
                } else {
                    assert(r@[k]@[j] == g@[j]);
                }
            }
            if old_r.len() > 0 {
                assert(boxes@[o].layer != boxes@[o - 1].layer);
            }
            assert forall|k: int| 0 < k < r@.len() implies boxes@[offset(r@, k)].layer != boxes@[#[trigger] offset(r@, k) - 1].layer by {
                if k < old_r.len() {
                    assert(offset(r@, k) == offset(old_r, k));
                    assert(boxes@[offset(old_r, k)].layer != boxes@[offset(old_r, k) - 1].layer);
                } else {
                    assert(offset(r@, k) == o);
                }
            }
            assert forall|k: int| 0 <= k < r@.len() implies (#[trigger] r@[k])@.len() > 0 by {
                if k < old_r.len() {
                    assert(r@[k] == old_r[k]);
                }
            }
        }
    }
    r
}

} // verus!
