//! Deterministic randomness for wave planning: the SplitMix64 generator,
//! uniform samples, burst schedules, FNV-1a hashing and SHA-256 seeds.

use vstd::prelude::*;
use sha2::{Digest, Sha256};
use vstd::string::StringSliceAdditionalSpecFns;

verus! {

/// Increment of the SplitMix64 generator (the golden-ratio constant).
pub const SPLITMIX_GAMMA: u64 = 0x9e37_79b9_7f4a_7c15;
/// FNV-1a 64-bit offset basis.
pub const FNV_OFFSET_BASIS: u64 = 0xcbf2_9ce4_8422_2325;
/// FNV-1a 64-bit prime.
pub const FNV_PRIME: u64 = 0x0000_0001_0000_01b3;

/// Product modulo 2^64.
pub open spec fn mul64(a: u64, b: u64) -> u64 {
    ((a as nat * b as nat) % 0x1_0000_0000_0000_0000) as u64
}

/// Sum modulo 2^64.
pub open spec fn add64(a: u64, b: u64) -> u64 {
    ((a as nat + b as nat) % 0x1_0000_0000_0000_0000) as u64
}

/// The SplitMix64 output mixed from generator state `state`.
pub open spec fn splitmix_mix(state: u64) -> u64 {
    let z1 = mul64(state ^ (state >> 30u64), 0xbf58_476d_1ce4_e5b9);
    let z2 = mul64(z1 ^ (z1 >> 27u64), 0x94d0_49bb_1331_11eb);
    z2 ^ (z2 >> 31u64)
}

/// SplitMix64 pseudo-random generator.
#[derive(Debug)]
pub struct SplitMix64 {
    pub state: u64,
}

impl SplitMix64 {
    /// Seeds the generator; a zero seed is replaced by the golden-ratio constant.
    pub fn new(seed: u64) -> (g: Self)
        ensures
            g.state == if seed == 0 { SPLITMIX_GAMMA } else { seed },
    {
        let seed = if seed == 0 { SPLITMIX_GAMMA } else { seed };
        SplitMix64 { state: seed }
    }

    /// Advances the state by the golden-ratio constant and returns the mixed state.
    pub fn next_u64(&mut self) -> (v: u64)
        ensures
            final(self).state == add64(old(self).state, SPLITMIX_GAMMA),
            v == splitmix_mix(final(self).state),
    {
        self.state = self.state.wrapping_add(SPLITMIX_GAMMA);
        proof {
            assert(self.state == add64(old(self).state, SPLITMIX_GAMMA)) by {
                let s = old(self).state as nat + SPLITMIX_GAMMA as nat;
                if s > u64::MAX {
                    assert(s < 2 * 0x1_0000_0000_0000_0000nat);
                    vstd::arithmetic::div_mod::lemma_mod_sub_multiples_vanish(s as int, 0x1_0000_0000_0000_0000int);
                    vstd::arithmetic::div_mod::lemma_small_mod((s - 0x1_0000_0000_0000_0000nat) as nat, 0x1_0000_0000_0000_0000nat);
                } else {
                    vstd::arithmetic::div_mod::lemma_small_mod(s, 0x1_0000_0000_0000_0000nat);
                }
            }
        }
        let mut z = self.state;
        z = (z ^ (z >> 30)).wrapping_mul(0xbf58_476d_1ce4_e5b9);
        z = (z ^ (z >> 27)).wrapping_mul(0x94d0_49bb_1331_11eb);
        z ^ (z >> 31)
    }
}

/// A sample between `min` and `max` (inclusive) from generator output
/// `value`: the output modulo the range size, added to `min` (saturating);
/// a reversed range yields `min`.
pub open spec fn uniform_from(min: u32, max: u32, value: u64) -> u32 {
    let range = (if max >= min { max - min } else { 0 }) + 1;
    let offset = (value % (range as u64)) as int;
    (if min + offset > u32::MAX { u32::MAX as int } else { min + offset }) as u32
}

/// Samples uniformly between `min` and `max` (inclusive). Equal bounds
/// yield `min` without drawing from the generator.
pub fn sample_uniform_inclusive(rng: &mut SplitMix64, min: u32, max: u32) -> (r: u32)
    ensures
        min == max ==> r == min && final(rng).state == old(rng).state,
        min != max ==> final(rng).state == add64(old(rng).state, SPLITMIX_GAMMA) && r == uniform_from(
            min,
            max,
            splitmix_mix(final(rng).state),
        ),
        min <= max ==> min <= r <= max,
{
    if min == max {
        return min;
    }
    let span: u32 = if max >= min { max - min } else { 0 };
    let range: u64 = span as u64 + 1;
    let value = rng.next_u64();
    let offset: u64 = value % range;
    if offset > (u32::MAX - min) as u64 {
        u32::MAX
    } else {
        min + offset as u32
    }
}

/// The number of bursts that spread `total` spawns: enough bursts of at
/// most `nominal` spawns (a single burst when `nominal` is zero), capped at
/// `max_bursts`, and at least one.
pub open spec fn burst_count(total: u32, nominal: u32, max_bursts: u32) -> u32 {
    let wanted = if nominal == 0 {
        1
    } else {
        let c = (total + nominal - 1) / (nominal as int);
        if c < 1 { 1 } else { c }
    };
    let capped = if wanted > max_bursts { max_bursts as int } else { wanted };
    (if capped < 1 { 1 } else { capped }) as u32
}

/// Resolves how many bursts spread `total` spawns (see [`burst_count`]).
pub fn resolve_burst_count(total: u32, nominal: u32, max_bursts: u32) -> (r: u32)
    requires
        nominal == 0 || total + nominal - 1 <= u32::MAX,
    ensures
        r == burst_count(total, nominal, max_bursts),
        r >= 1,
{
    proof {
        if nominal > 0 && total == 0 {
            vstd::arithmetic::div_mod::lemma_basic_div((nominal - 1) as int, nominal as int);
        }
    }
    let mut count: u32 = if nominal == 0 || total == 0 {
        1
    } else {
        let c = (total - 1 + nominal) / nominal;
        if c < 1 { 1 } else { c }
    };
    if count > max_bursts {
        count = max_bursts;
    }
    if count < 1 {
        1
    } else {
        count
    }
}

/// One draw of [`sample_uniform_inclusive`] from generator state `state`:
/// the sample and the next state. Equal bounds draw nothing.
pub open spec fn uniform_draw(state: u64, min: u32, max: u32) -> (u32, u64) {
    if min == max {
        (min, state)
    } else {
        let next = add64(state, SPLITMIX_GAMMA);
        (uniform_from(min, max, splitmix_mix(next)), next)
    }
}

/// `a + b`, clamped at `u32::MAX`.
pub open spec fn sat_add32(a: u32, b: u32) -> u32 {
    if a + b > u32::MAX { u32::MAX } else { (a + b) as u32 }
}

/// The starts of the `remaining` last bursts, the first at `current`, each
/// next one a gap between `gap_min` and `gap_max` later (drawn from
/// generator state `state`), and the generator state afterwards.
pub open spec fn later_starts(state: u64, current: u32, remaining: nat, gap_min: u32, gap_max: u32) -> (Seq<u32>, u64)
    decreases remaining,
{
    if remaining == 0 {
        (Seq::empty(), state)
    } else if remaining == 1 {
        (seq![current], state)
    } else {
        let (gap, next) = uniform_draw(state, gap_min, gap_max);
        let (rest, last) = later_starts(next, sat_add32(current, gap), (remaining - 1) as nat, gap_min, gap_max);
        (seq![current] + rest, last)
    }
}

/// The start times of `count` bursts drawn from generator state `state`, and
/// the state afterwards: a first start between zero and `gap_min`, then
/// gaps between `gap_min` and `gap_max`.
pub open spec fn burst_starts(state: u64, count: nat, gap_min: u32, gap_max: u32) -> (Seq<u32>, u64) {
    let (jitter, next) = uniform_draw(state, 0, gap_min);
    later_starts(next, jitter, count, gap_min, gap_max)
}

/// Burst sizes and start times of a wave.
#[derive(Debug)]
pub struct BurstSchedule {
    pub burst_sizes: Vec<u32>,
    pub starts: Vec<u32>,
}

/// Size of burst `index` when `total` spawns are split into `count` bursts:
/// the even share, one more for the first `total % count` bursts, at least one.
pub open spec fn burst_size(total: u32, count: u32, index: int) -> u32 {
    let size = total / count + if index < total % count { 1int } else { 0int };
    (if size < 1 { 1 } else { size }) as u32
}

/// Sum of the sizes of the first `n` bursts.
pub open spec fn burst_sizes_total(total: u32, count: u32, n: nat) -> int
    decreases n,
{
    if n == 0 {
        0
    } else {
        burst_sizes_total(total, count, (n - 1) as nat) + burst_size(total, count, n - 1)
    }
}

/// When there are at least as many spawns as bursts, the bursts together
/// hold exactly the spawns.
pub proof fn lemma_bursts_cover_total(total: u32, count: u32)
    requires
        1 <= count <= total,
    ensures
        burst_sizes_total(total, count, count as nat) == total,
{
    let base = total / count;
    let leftover = total % count;
    assert(base >= 1) by (nonlinear_arith)
        requires
            1 <= count <= total,
            base == total / count,
    ;
    assert(count * base + leftover == total) by (nonlinear_arith)
        requires
            count >= 1,
            base == total / count,
            leftover == total % count,
    ;
    lemma_burst_prefix(total, count, count as nat);
}

proof fn lemma_burst_prefix(total: u32, count: u32, n: nat)
    requires
        1 <= count <= total,
        n <= count,
    ensures
        burst_sizes_total(total, count, n) == n * (total / count) + if n < total % count {
            n as int
        } else {
            (total % count) as int
        },
    decreases n,
{
    if n > 0 {
        lemma_burst_prefix(total, count, (n - 1) as nat);
        assert(total / count >= 1) by (nonlinear_arith)
            requires
                1 <= count <= total,
        ;
        assert(total % count > 0 ==> total / count < u32::MAX) by (nonlinear_arith)
            requires
                1 <= count <= total,
                total <= u32::MAX,
        ;
        let base = total / count;
        let leftover = total % count;
        let prev = (n - 1) as nat;
        assert(prev * base + base == n * base) by (nonlinear_arith)
            requires
                prev + 1 == n,
        ;
        if prev < leftover {
            assert(burst_size(total, count, prev as int) == base + 1);
            assert(burst_sizes_total(total, count, n) == prev * base + prev + base + 1);
        } else {
            assert(burst_size(total, count, prev as int) == base);
            assert(burst_sizes_total(total, count, n) == prev * base + leftover + base);
        }
    } else {
        assert(n * (total / count) == 0) by (nonlinear_arith)
            requires
                n == 0,
        ;
    }
}

/// Splits `total` spawns into bursts (see [`burst_count`] and [`burst_size`])
/// and draws their start times: a first start between zero and `gap_min`,
/// then for each further burst a gap between `gap_min` and `gap_max`
/// (starts saturating at `u32::MAX`).
pub fn sample_burst_starts(
    total: u32,
    gap_min: u32,
    gap_max: u32,
    nominal: u32,
    max_bursts: u32,
    rng: &mut SplitMix64,
) -> (schedule: BurstSchedule)
    requires
        nominal == 0 || total + nominal - 1 <= u32::MAX,
    ensures
        schedule.burst_sizes@.len() == burst_count(total, nominal, max_bursts),
        schedule.starts@.len() == burst_count(total, nominal, max_bursts),
        forall|i: int| 0 <= i < schedule.burst_sizes@.len() ==> #[trigger] schedule.burst_sizes@[i] == burst_size(
            total,
            burst_count(total, nominal, max_bursts),
            i,
        ),
        forall|i: int| 0 < i < schedule.starts@.len() ==> #[trigger] schedule.starts@[i] >= schedule.starts@[i - 1],
        (schedule.starts@, final(rng).state) == burst_starts(
            old(rng).state,
            burst_count(total, nominal, max_bursts) as nat,
            gap_min,
            gap_max,
        ),
{
    let count = resolve_burst_count(total, nominal, max_bursts);
    let base = total / count;
    let leftover = total % count;
    let mut burst_sizes: Vec<u32> = Vec::new();
    let mut index: u32 = 0;
    while index < count
        invariant
            index <= count,
            count >= 1,
            base == total / count,
            leftover == total % count,
            burst_sizes@.len() == index,
            forall|i: int| 0 <= i < index ==> #[trigger] burst_sizes@[i] == burst_size(total, count, i),
        decreases count - index,
    {
        proof {
            assert(base as int * count <= total) by (nonlinear_arith)
                requires
                    base == total / count,
                    count >= 1,
            ;
            assert(base <= u32::MAX - 1 || leftover == 0) by (nonlinear_arith)
                requires
                    base == total / count,
                    leftover == total % count,
                    count >= 1,
                    total <= u32::MAX,
            ;
        }
        let size: u32 = base + if index < leftover { 1 } else { 0 };
        burst_sizes.push(if size < 1 { 1 } else { size });
        index = index + 1;
    }
    let mut starts: Vec<u32> = Vec::new();
    let ghost first_state = rng.state;
    let jitter = sample_uniform_inclusive(rng, 0, gap_min);
    let mut current: u32 = jitter;
    let mut k: u32 = 0;
    let ghost whole = burst_starts(first_state, count as nat, gap_min, gap_max);
    assert(starts@ + later_starts(rng.state, current, count as nat, gap_min, gap_max).0 =~= whole.0);
    while k < count
        invariant
            k <= count,
            starts@.len() == k,
            forall|i: int| 0 < i < k ==> #[trigger] starts@[i] >= starts@[i - 1],
            k > 0 ==> current >= starts@[k - 1],
            whole.0 == starts@ + later_starts(rng.state, current, (count - k) as nat, gap_min, gap_max).0,
            whole.1 == later_starts(rng.state, current, (count - k) as nat, gap_min, gap_max).1,
        decreases count - k,
    {
        let ghost before = starts@;
        let ghost rest = later_starts(rng.state, current, (count - k) as nat, gap_min, gap_max);
        starts.push(current);
        if k + 1 < count {
            let gap = sample_uniform_inclusive(rng, gap_min, gap_max);
            current = if current > u32::MAX - gap { u32::MAX } else { current + gap };
            proof {
                let tail = later_starts(rng.state, current, (count - k - 1) as nat, gap_min, gap_max);
                assert(rest.0 == seq![starts@.last()] + tail.0);
                assert(whole.0 =~= starts@ + tail.0);
            }
        } else {
            proof {
                assert(whole.0 =~= starts@ + later_starts(rng.state, current, 0, gap_min, gap_max).0);
            }
        }
        k = k + 1;
    }
    assert(starts@ + Seq::<u32>::empty() =~= starts@);
    BurstSchedule { burst_sizes, starts }
}

/// FNV-1a over `bytes` from hash state `state`.
pub open spec fn fnv1a_spec(state: u64, bytes: Seq<u8>) -> u64
    decreases bytes.len(),
{
    if bytes.len() == 0 {
        state
    } else {
        mul64(fnv1a_spec(state, bytes.drop_last()) ^ (bytes.last() as u64), FNV_PRIME)
    }
}

/// Folds `bytes` into the FNV-1a hash state `state`.
pub fn fnv1a(state: u64, bytes: &[u8]) -> (h: u64)
    ensures
        h == fnv1a_spec(state, bytes@),
{
    let mut hash = state;
    let mut i: usize = 0;
    assert(bytes@.take(0) =~= Seq::<u8>::empty());
    while i < bytes.len()
        invariant
            i <= bytes@.len(),
            hash == fnv1a_spec(state, bytes@.take(i as int)),
        decreases bytes@.len() - i,
    {
        proof {
            assert(bytes@.take(i + 1).drop_last() =~= bytes@.take(i as int));
            assert(bytes@.take(i + 1).last() == bytes@[i as int]);
        }
        hash = (hash ^ bytes[i] as u64).wrapping_mul(FNV_PRIME);
        i = i + 1;
    }
    assert(bytes@.take(bytes@.len() as int) =~= bytes@);
    hash
}

/// The SHA-256 digest of `bytes`.
pub uninterp spec fn sha256_of(bytes: Seq<u8>) -> Seq<u8>;

/// Hashes `bytes` with the `sha2` crate's SHA-256 (`Digest::digest`). The
/// contract names the digest and states that it is 32 bytes long.
#[verifier::external_body]
fn sha256_digest(bytes: &[u8]) -> (d: Vec<u8>)
    ensures
        d@ == sha256_of(bytes@),
        d@.len() == 32,
{
    Sha256::digest(bytes).to_vec()
}

/// The little-endian bytes of `v`.
pub open spec fn u64_le_bytes(v: u64) -> Seq<u8> {
    Seq::new(8, |i: int| ((v as nat / vstd::arithmetic::power2::pow2((8 * i) as nat)) % 256) as u8)
}

/// The little-endian value of the first eight bytes of `d`.
pub open spec fn first_u64_le(d: Seq<u8>) -> u64 {
    (d[0] + d[1] * 0x100 + d[2] * 0x1_0000 + d[3] * 0x100_0000 + d[4] * 0x1_0000_0000 + d[5] * 0x100_0000_0000
        + d[6] * 0x1_0000_0000_0000 + d[7] * 0x100_0000_0000_0000) as u64
}

/// The little-endian bytes of `v`.
pub open spec fn u32_le_bytes(v: u32) -> Seq<u8> {
    Seq::new(4, |i: int| ((v as nat / vstd::arithmetic::power2::pow2((8 * i) as nat)) % 256) as u8)
}

/// Appends the little-endian bytes of `v` to `message`.
fn push_u64_le(v: u64, message: &mut Vec<u8>)
    ensures
        final(message)@ == old(message)@ + u64_le_bytes(v),
{
    let ghost start = message@;
    let mut rest: u64 = v;
    proof {
        vstd::arithmetic::power2::lemma2_to64();
        assert(v as nat / vstd::arithmetic::power2::pow2(0) == v as nat);
        assert((8 * 0usize) as nat == 0);
    }
    let mut i: usize = 0;
    while i < 8
        invariant
            i <= 8,
            message@.len() == start.len() + i,
            forall|k: int| 0 <= k < start.len() ==> #[trigger] message@[k] == start[k],
            rest == v as nat / vstd::arithmetic::power2::pow2((8 * i) as nat),
            forall|k: int| 0 <= k < i ==> #[trigger] message@[start.len() + k] == u64_le_bytes(v)[k],
        decreases 8 - i,
    {
        message.push((rest % 256) as u8);
        proof {
            vstd::arithmetic::power2::lemma_pow2_adds((8 * i) as nat, 8);
            vstd::arithmetic::power2::lemma2_to64();
            vstd::arithmetic::power2::lemma_pow2_pos((8 * i) as nat);
            vstd::arithmetic::div_mod::lemma_div_denominator(
                v as int,
                vstd::arithmetic::power2::pow2((8 * i) as nat) as int,
                256,
            );
            assert((8 * (i + 1)) as nat == (8 * i) as nat + 8);
        }
        rest = rest / 256;
        i = i + 1;
    }
    assert forall|k: int| 0 <= k < message@.len() implies #[trigger] message@[k] == (start + u64_le_bytes(v))[k] by {
        if k >= start.len() {
            let j = k - start.len();
            assert(message@[start.len() + j] == u64_le_bytes(v)[j]);
        }
    }
    assert(message@ =~= start + u64_le_bytes(v));
}

/// Appends the little-endian bytes of `v` to `message`.
fn push_u32_le(v: u32, message: &mut Vec<u8>)
    ensures
        final(message)@ == old(message)@ + u32_le_bytes(v),
{
    let ghost start = message@;
    let mut rest: u32 = v;
    proof {
        vstd::arithmetic::power2::lemma2_to64();
        assert(v as nat / vstd::arithmetic::power2::pow2(0) == v as nat);
        assert((8 * 0usize) as nat == 0);
    }
    let mut i: usize = 0;
    while i < 4
        invariant
            i <= 4,
            message@.len() == start.len() + i,
            forall|k: int| 0 <= k < start.len() ==> #[trigger] message@[k] == start[k],
            rest == v as nat / vstd::arithmetic::power2::pow2((8 * i) as nat),
            forall|k: int| 0 <= k < i ==> #[trigger] message@[start.len() + k] == u32_le_bytes(v)[k],
        decreases 4 - i,
    {
        message.push((rest % 256) as u8);
        proof {
            vstd::arithmetic::power2::lemma_pow2_adds((8 * i) as nat, 8);
            vstd::arithmetic::power2::lemma2_to64();
            vstd::arithmetic::power2::lemma_pow2_pos((8 * i) as nat);
            vstd::arithmetic::div_mod::lemma_div_denominator(
                v as int,
                vstd::arithmetic::power2::pow2((8 * i) as nat) as int,
                256,
            );
            assert((8 * (i + 1)) as nat == (8 * i) as nat + 8);
        }
        rest = rest / 256;
        i = i + 1;
    }
    assert forall|k: int| 0 <= k < message@.len() implies #[trigger] message@[k] == (start + u32_le_bytes(v))[k] by {
        if k >= start.len() {
            let j = k - start.len();
            assert(message@[start.len() + j] == u32_le_bytes(v)[j]);
        }
    }
    assert(message@ =~= start + u32_le_bytes(v));
}

/// Appends `bytes` to `message`.
fn push_bytes(bytes: &[u8], message: &mut Vec<u8>)
    ensures
        final(message)@ == old(message)@ + bytes@,
{
    let ghost start = message@;
    let mut j: usize = 0;
    while j < bytes.len()
        invariant
            j <= bytes@.len(),
            message@ == start + bytes@.take(j as int),
        decreases bytes@.len() - j,
    {
        message.push(bytes[j]);
        j = j + 1;
        assert(message@ =~= start + bytes@.take(j as int));
    }
    assert(bytes@.take(bytes@.len() as int) =~= bytes@);
}

/// Derives the base seed of a wave: the first eight bytes, little-endian, of
/// the SHA-256 digest of the little-endian bytes of the global seed, the
/// wave number and the difficulty tier, in that order.
pub fn derive_base_seed(global_seed: u64, wave: u32, tier: u32) -> (seed: u64)
    ensures
        seed == first_u64_le(sha256_of(u64_le_bytes(global_seed) + u32_le_bytes(wave) + u32_le_bytes(tier))),
{
    let mut message: Vec<u8> = Vec::new();
    push_u64_le(global_seed, &mut message);
    push_u32_le(wave, &mut message);
    push_u32_le(tier, &mut message);
    assert(message@ =~= u64_le_bytes(global_seed) + u32_le_bytes(wave) + u32_le_bytes(tier));
    let digest = sha256_digest(message.as_slice());
    finalize_seed(&digest)
}

/// Derives a labelled seed: the first eight bytes, little-endian, of the
/// SHA-256 digest of the base seed's little-endian bytes followed by the label.
pub fn derive_labeled_seed(base: u64, label: &str) -> (seed: u64)
    ensures
        seed == first_u64_le(sha256_of(u64_le_bytes(base) + label.spec_bytes())),
{
    let mut message: Vec<u8> = Vec::new();
    push_u64_le(base, &mut message);
    push_bytes(label.as_bytes(), &mut message);
    assert(message@ =~= u64_le_bytes(base) + label.spec_bytes());
    let digest = sha256_digest(message.as_slice());
    finalize_seed(&digest)
}

/// Derives the seed of one species: the first eight bytes, little-endian, of
/// the SHA-256 digest of the base seed's little-endian bytes, the species
/// stream prefix and the species number's little-endian bytes.
pub fn derive_species_seed(base: u64, prefix: &str, species: u32) -> (seed: u64)
    ensures
        seed == first_u64_le(sha256_of(u64_le_bytes(base) + prefix.spec_bytes() + u32_le_bytes(species))),
{
    let mut message: Vec<u8> = Vec::new();
    push_u64_le(base, &mut message);
    push_bytes(prefix.as_bytes(), &mut message);
    push_u32_le(species, &mut message);
    assert(message@ =~= u64_le_bytes(base) + prefix.spec_bytes() + u32_le_bytes(species));
    let digest = sha256_digest(message.as_slice());
    finalize_seed(&digest)
}

/// The little-endian value of the first eight bytes of a digest.
fn finalize_seed(digest: &Vec<u8>) -> (seed: u64)
    requires
        digest@.len() >= 8,
    ensures
        seed == first_u64_le(digest@),
{
    let d0 = digest[0] as u64;
    let d1 = digest[1] as u64;
    let d2 = digest[2] as u64;
    let d3 = digest[3] as u64;
    let d4 = digest[4] as u64;
    let d5 = digest[5] as u64;
    let d6 = digest[6] as u64;
    let d7 = digest[7] as u64;
    d0 + d1 * 0x100 + d2 * 0x1_0000 + d3 * 0x100_0000 + d4 * 0x1_0000_0000 + d5 * 0x100_0000_0000 + d6
        * 0x1_0000_0000_0000 + d7 * 0x100_0000_0000_0000
}

} // verus!
