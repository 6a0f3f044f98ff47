//! The integer weights as trained, before the hidden neurons are reordered and the first
//! layer is laid out block by block.

use vstd::prelude::*;
use crate::nnue::network::{Aligned, Network, Permute, HL, HL_QUARTER, KINGS, L1, OUTPUTS};
use crate::nnue::ti::{ThreatLut, FULL_THREATS, lut_closes};

verus! {

/// The integer layers of the trained network, in their trained layout.
pub struct RawNetwork {
    /// `[king bucket * 768 + feature][neuron]`
    pub feature_weights: Vec<Aligned<i16, 768>>,
    /// `[threat feature][neuron]`
    pub threat_weights: Vec<Aligned<i8, 768>>,
    pub feature_bias: Aligned<i16, 768>,
    /// `[output bucket * 32 + neuron of the layer][hidden neuron]`
    pub l1_weights: Vec<Aligned<i8, 768>>,
}

/// Every entry of the ordering names a hidden neuron.
pub open spec fn mapping_ok(mapping: [usize; 768]) -> bool {
    forall|i: int| 0 <= i < 768 ==> #[trigger] mapping[i] < 768
}

/// `row` reordered by `mapping`: lane `i` takes lane `mapping[i]`.
pub open spec fn permuted16(row: [i16; 768], new_row: [i16; 768], mapping: [usize; 768]) -> bool {
    forall|i: int| 0 <= i < 768 ==> #[trigger] new_row[i] == row[mapping[i] as int]
}

pub open spec fn permuted8(row: [i8; 768], new_row: [i8; 768], mapping: [usize; 768]) -> bool {
    forall|i: int| 0 <= i < 768 ==> #[trigger] new_row[i] == row[mapping[i] as int]
}

fn permute_row16(row: &Aligned<i16, 768>, mapping: &[usize; 768]) -> (r: Aligned<i16, 768>)
    requires
        mapping_ok(*mapping),
    ensures
        permuted16(row.0, r.0, *mapping),
{
    let mut out = Aligned::<i16, 768>::zeroed();
    let mut i: usize = 0;
    while i < HL
        invariant
            i <= HL,
            mapping_ok(*mapping),
            forall|k: int| 0 <= k < i ==> #[trigger] out.0[k] == row.0[mapping[k] as int],
        decreases HL - i,
    {
        out.0[i] = row.0[mapping[i]];
        i += 1;
    }
    out
}

fn permute_row8(row: &Aligned<i8, 768>, mapping: &[usize; 768]) -> (r: Aligned<i8, 768>)
    requires
        mapping_ok(*mapping),
    ensures
        permuted8(row.0, r.0, *mapping),
{
    let mut out = Aligned::<i8, 768>([0i8; 768]);
    let mut i: usize = 0;
    while i < HL
        invariant
            i <= HL,
            mapping_ok(*mapping),
            forall|k: int| 0 <= k < i ==> #[trigger] out.0[k] == row.0[mapping[k] as int],
        decreases HL - i,
    {
        out.0[i] = row.0[mapping[i]];
        i += 1;
    }
    out
}

fn permute_rows16(rows: &mut Vec<Aligned<i16, 768>>, mapping: &[usize; 768])
    requires
        mapping_ok(*mapping),
    ensures
        final(rows)@.len() == old(rows)@.len(),
        forall|r: int| 0 <= r < old(rows)@.len() ==> permuted16(old(rows)@[r].0, #[trigger] final(rows)@[r].0, *mapping),
{
    let ghost before = rows@;
    let mut r: usize = 0;
    while r < rows.len()
        invariant
            r <= rows@.len(),
            rows@.len() == before.len(),
            mapping_ok(*mapping),
            forall|k: int| 0 <= k < r ==> permuted16(before[k].0, #[trigger] rows@[k].0, *mapping),
            forall|k: int| r <= k < before.len() ==> #[trigger] rows@[k] == before[k],
        decreases before.len() - r,
    {
        let p = permute_row16(&rows[r], mapping);
        rows.set(r, p);
        r += 1;
    }
}

fn permute_rows8(rows: &mut Vec<Aligned<i8, 768>>, mapping: &[usize; 768])
    requires
        mapping_ok(*mapping),
    ensures
        final(rows)@.len() == old(rows)@.len(),
        forall|r: int| 0 <= r < old(rows)@.len() ==> permuted8(old(rows)@[r].0, #[trigger] final(rows)@[r].0, *mapping),
{
    let ghost before = rows@;
    let mut r: usize = 0;
    while r < rows.len()
        invariant
            r <= rows@.len(),
            rows@.len() == before.len(),
            mapping_ok(*mapping),
            forall|k: int| 0 <= k < r ==> permuted8(before[k].0, #[trigger] rows@[k].0, *mapping),
            forall|k: int| r <= k < before.len() ==> #[trigger] rows@[k] == before[k],
        decreases before.len() - r,
    {
        let p = permute_row8(&rows[r], mapping);
        rows.set(r, p);
        r += 1;
    }
}

impl RawNetwork {
    /// Table sizes.
    pub open spec fn wf(&self) -> bool {
        &&& self.feature_weights@.len() == KINGS * 768
        &&& self.threat_weights@.len() == FULL_THREATS
        &&& self.l1_weights@.len() == OUTPUTS * L1
    }

    /// Reorders the hidden neurons: neuron `i` takes the bias and the weights of neuron
    /// `mapping[i]`, in the feature and threat weights as in the first layer's inputs.
    pub fn permute(&mut self, permute: &Permute)
        requires
            mapping_ok(permute.mapping),
        ensures
            permuted_raw(*old(self), *final(self), permute.mapping),
            final(self).feature_weights@.len() == old(self).feature_weights@.len(),
            final(self).threat_weights@.len() == old(self).threat_weights@.len(),
            final(self).l1_weights@.len() == old(self).l1_weights@.len(),
            permuted16(old(self).feature_bias.0, final(self).feature_bias.0, permute.mapping),
            forall|r: int| 0 <= r < old(self).feature_weights@.len() ==> permuted16(
                old(self).feature_weights@[r].0,
                #[trigger] final(self).feature_weights@[r].0,
                permute.mapping,
            ),
            forall|r: int| 0 <= r < old(self).threat_weights@.len() ==> permuted8(
                old(self).threat_weights@[r].0,
                #[trigger] final(self).threat_weights@[r].0,
                permute.mapping,
            ),
            forall|r: int| 0 <= r < old(self).l1_weights@.len() ==> permuted8(
                old(self).l1_weights@[r].0,
                #[trigger] final(self).l1_weights@[r].0,
                permute.mapping,
            ),
    {
        let mapping = &permute.mapping;
        self.feature_bias = permute_row16(&self.feature_bias, mapping);
        permute_rows16(&mut self.feature_weights, mapping);
        permute_rows8(&mut self.threat_weights, mapping);
        permute_rows8(&mut self.l1_weights, mapping);
    }
}

/// `b` is `a` with every row's lanes reordered by `mapping` (see `RawNetwork::permute`).
pub open spec fn permuted_raw(a: RawNetwork, b: RawNetwork, mapping: [usize; 768]) -> bool {
    &&& b.feature_weights@.len() == a.feature_weights@.len()
    &&& b.threat_weights@.len() == a.threat_weights@.len()
    &&& b.l1_weights@.len() == a.l1_weights@.len()
    &&& permuted16(a.feature_bias.0, b.feature_bias.0, mapping)
    &&& forall|r: int| 0 <= r < a.feature_weights@.len() ==> permuted16(a.feature_weights@[r].0,
        #[trigger] b.feature_weights@[r].0, mapping)
    &&& forall|r: int| 0 <= r < a.threat_weights@.len() ==> permuted8(a.threat_weights@[r].0,
        #[trigger] b.threat_weights@[r].0, mapping)
    &&& forall|r: int| 0 <= r < a.l1_weights@.len() ==> permuted8(a.l1_weights@[r].0,
        #[trigger] b.l1_weights@[r].0, mapping)
}

/// `net` is what `Network::load` gives for `raw`.
pub open spec fn loaded_from(raw: RawNetwork, net: Network) -> bool {
    &&& net.wf()
    &&& net.feature_weights == raw.feature_weights
    &&& net.threat_weights == raw.threat_weights
    &&& net.feature_bias == raw.feature_bias
    &&& l1_moved(raw.l1_weights@, net.l1_weights@)
}

/// Where the block layout keeps the trained first-layer weight of hidden neuron `4c + k` for
/// neuron `j` of the layer in output bucket `bucket`.
pub open spec fn l1_moved(raw: Seq<Aligned<i8, 768>>, net: Seq<Aligned<i8, 128>>) -> bool {
    forall|bucket: int, c: int, j: int, k: int|
        0 <= bucket < 8 && 0 <= c < 192 && 0 <= j < 32 && 0 <= k < 4 ==> #[trigger] net[bucket * 192
            + c].0[j * 4 + k] == raw[bucket * 32 + j].0[c * 4 + k]
}

fn l1_block(raw: &Vec<Aligned<i8, 768>>, bucket: usize, c: usize) -> (r: Aligned<i8, 128>)
    requires
        raw@.len() == OUTPUTS * L1,
        bucket < OUTPUTS,
        c < HL_QUARTER,
    ensures
        forall|j: int, k: int| 0 <= j < 32 && 0 <= k < 4 ==> #[trigger] r.0[j * 4 + k] == raw@[bucket * 32 + j].0[c * 4 + k],
{
    let mut out = Aligned::<i8, 128>([0i8; 128]);
    let mut j: usize = 0;
    while j < L1
        invariant
            j <= L1,
            raw@.len() == OUTPUTS * L1,
            bucket < OUTPUTS,
            c < HL_QUARTER,
            forall|q: int, k: int| 0 <= q < j && 0 <= k < 4 ==> #[trigger] out.0[q * 4 + k] == raw@[bucket * 32 + q].0[c * 4 + k],
        decreases L1 - j,
    {
        let row = &raw[bucket * L1 + j];
        let mut k: usize = 0;
        while k < 4
            invariant
                j < L1,
                k <= 4,
                c < HL_QUARTER,
                *row == raw@[bucket * 32 + j],
                forall|q: int, kk: int| 0 <= q < j && 0 <= kk < 4 ==> #[trigger] out.0[q * 4 + kk] == raw@[bucket * 32 + q].0[c * 4 + kk],
                forall|kk: int| 0 <= kk < k ==> #[trigger] out.0[j * 4 + kk] == raw@[bucket * 32 + j].0[c * 4 + kk],
            decreases 4 - k,
        {
            out.0[j * 4 + k] = row.0[c * 4 + k];
            k += 1;
        }
        proof {
            assert forall|q: int, kk: int| 0 <= q < j + 1 && 0 <= kk < 4 implies #[trigger] out.0[q * 4 + kk]
                == raw@[bucket * 32 + q].0[c * 4 + kk] by {
                if q == j {
                    assert(out.0[j * 4 + kk] == raw@[bucket * 32 + j].0[c * 4 + kk]);
                }
            }
        }
        j += 1;
    }
    out
}

impl Network {
    /// The network the evaluation runs: the feature and threat weights and the bias as given,
    /// the first layer regrouped so that the weights of four consecutive hidden neurons for
    /// each neuron of the layer lie together, and the threat feature lookup. `None` when the
    /// lookup's totals do not close (see `ThreatLut::build`).
    pub fn load(raw: RawNetwork) -> (r: Option<Network>)
        requires
            raw.wf(),
        ensures
            r is Some <==> lut_closes(),
            r matches Some(net) ==> loaded_from(raw, net),
    {
        let lut = match ThreatLut::build() {
            Some(l) => l,
            None => return None,
        };
        let mut l1: Vec<Aligned<i8, 128>> = Vec::new();
        let mut bucket: usize = 0;
        while bucket < OUTPUTS
            invariant
                bucket <= OUTPUTS,
                raw.wf(),
                l1@.len() == bucket * 192,
                forall|b: int, c: int, j: int, k: int|
                    0 <= b < bucket && 0 <= c < 192 && 0 <= j < 32 && 0 <= k < 4 ==> #[trigger] l1@[b * 192
                        + c].0[j * 4 + k] == raw.l1_weights@[b * 32 + j].0[c * 4 + k],
            decreases OUTPUTS - bucket,
        {
            let mut c: usize = 0;
            while c < HL_QUARTER
                invariant
                    bucket < OUTPUTS,
                    c <= HL_QUARTER,
                    raw.wf(),
                    l1@.len() == bucket * 192 + c,
                    forall|b: int, cc: int, j: int, k: int|
                        0 <= b < bucket && 0 <= cc < 192 && 0 <= j < 32 && 0 <= k < 4 ==> #[trigger] l1@[b * 192
                            + cc].0[j * 4 + k] == raw.l1_weights@[b * 32 + j].0[cc * 4 + k],
                    forall|cc: int, j: int, k: int|
                        0 <= cc < c && 0 <= j < 32 && 0 <= k < 4 ==> #[trigger] l1@[bucket * 192 + cc].0[j * 4 + k]
                            == raw.l1_weights@[bucket * 32 + j].0[cc * 4 + k],
                decreases HL_QUARTER - c,
            {
                let block = l1_block(&raw.l1_weights, bucket, c);
                l1.push(block);
                c += 1;
            }
            proof {
                assert forall|b: int, cc: int, j: int, k: int|
                    0 <= b < bucket + 1 && 0 <= cc < 192 && 0 <= j < 32 && 0 <= k < 4 implies #[trigger] l1@[b * 192
                        + cc].0[j * 4 + k] == raw.l1_weights@[b * 32 + j].0[cc * 4 + k] by {
                    if b == bucket {
                        assert(l1@[bucket * 192 + cc].0[j * 4 + k] == raw.l1_weights@[bucket * 32 + j].0[cc * 4 + k]);
                    }
                }
            }
            bucket += 1;
        }
        Some(Network {
            feature_weights: raw.feature_weights,
            threat_weights: raw.threat_weights,
            feature_bias: raw.feature_bias,
            l1_weights: l1,
            lut,
        })
    }
}

} // verus!
