//! The rule as the device reads it: a record of sixteen 32-bit words in a fixed order.

use vstd::prelude::*;
use crate::rule::{ColorMode, NeighborMode, Rule, SpawnModeKind};

verus! {

/// Size of the record in bytes.
pub const GPU_RULE_SIZE: u64 = 64;

/// The record of a rule on the device. Numbers that are not whole are held as the bit
/// pattern of a single-precision number.
#[derive(Clone, Copy, Debug)]
pub struct GPURule {
    pub size: u32,
    pub spawn_mode: u32,
    pub spawn_chance: u32,
    pub survival: u32,
    pub birth: u32,
    pub states: u32,
    pub neighbor_mode: u32,
    pub color_mode: u32,
    pub color0: [u32; 4],
    pub color1: [u32; 4],
}

/// The colour that fills the place of a colour that a mode does not have.
pub open spec fn no_color() -> [u32; 4] {
    [0u32, 0u32, 0u32, 0u32]
}

/// The second colour in the record of `mode`.
pub open spec fn second_color(mode: ColorMode) -> [u32; 4] {
    match mode {
        ColorMode::Single(_) => no_color(),
        _ => mode.colors_of().1.0,
    }
}

/// The record of `rule`.
pub open spec fn record(rule: Rule) -> GPURule {
    GPURule {
        size: rule.size,
        spawn_mode: rule.spawn_mode.kind_of().tag(),
        spawn_chance: rule.spawn_mode.float_of(),
        survival: rule.survival.bitmask() as u32,
        birth: rule.birth.bitmask() as u32,
        states: rule.states,
        neighbor_mode: rule.neighbor_mode.tag(),
        color_mode: rule.color_mode.kind_of().tag(),
        color0: rule.color_mode.colors_of().0.0,
        color1: second_color(rule.color_mode),
    }
}

impl vstd::std_specs::convert::FromSpecImpl<&Rule> for GPURule {
    open spec fn obeys_from_spec() -> bool {
        true
    }

    open spec fn from_spec(rule: &Rule) -> GPURule {
        record(*rule)
    }
}

impl From<&Rule> for GPURule {
    /// The record of `rule`.
    fn from(rule: &Rule) -> (gpu_rule: GPURule) {
        let (color_mode, color0, color1): (u32, [u32; 4], [u32; 4]) = match rule.color_mode {
            ColorMode::Single(c) => (0, c.0, [0, 0, 0, 0]),
            ColorMode::StateLerp(c0, c1) => (1, c0.0, c1.0),
            ColorMode::DistToCenter(c0, c1) => (2, c0.0, c1.0),
            ColorMode::Neighbour(c0, c1) => (3, c0.0, c1.0),
        };
        let spawn_mode: u32 = match rule.spawn_mode.kind() {
            SpawnModeKind::Random => 0,
            SpawnModeKind::MengerSponge => 1,
        };
        let neighbor_mode: u32 = match rule.neighbor_mode {
            NeighborMode::Moore => 0,
            NeighborMode::VonNeumann => 1,
        };
        let gpu_rule = GPURule {
            size: rule.size,
            spawn_mode,
            spawn_chance: rule.spawn_mode.float(),
            survival: rule.survival.to_bitmask(),
            birth: rule.birth.to_bitmask(),
            states: rule.states,
            neighbor_mode,
            color_mode,
            color0,
            color1,
        };
        assert(gpu_rule.color1 =~= second_color(rule.color_mode));
        gpu_rule
    }
}

/// Whether a record that differs from `last_uploaded` has to be written for `rule`.
pub open spec fn sync_changed(rule: Rule, last_uploaded: Option<GPURule>) -> bool {
    last_uploaded != Some(record(rule))
}

/// Two rules with the same record are the same rule: the record leaves nothing out.
pub proof fn lemma_record_injective(rule: Rule, other: Rule)
    requires
        record(rule) == record(other),
    ensures
        rule == other,
{
    rule.survival.lemma_bitmask_bound();
    other.survival.lemma_bitmask_bound();
    rule.survival.lemma_bitmask_injective(other.survival);
    rule.birth.lemma_bitmask_bound();
    other.birth.lemma_bitmask_bound();
    rule.birth.lemma_bitmask_injective(other.birth);
}

/// A second call of [`GPURule::sync`] for a rule that has not changed finds nothing to
/// write.
pub proof fn lemma_sync_again(rule: Rule)
    ensures
        !sync_changed(rule, Some(record(rule))),
{
}

/// After a call of [`GPURule::sync`] for `rule`, a call for any other rule finds a
/// record to write: no change of a rule goes unseen.
pub proof fn lemma_sync_after_change(rule: Rule, other: Rule)
    requires
        other != rule,
    ensures
        sync_changed(other, Some(record(rule))),
{
    if record(other) == record(rule) {
        lemma_record_injective(other, rule);
    }
}

impl vstd::std_specs::cmp::PartialEqSpecImpl for GPURule {
    open spec fn obeys_eq_spec() -> bool {
        true
    }

    open spec fn eq_spec(&self, other: &GPURule) -> bool {
        *self == *other
    }
}

impl PartialEq for GPURule {
    /// Whether the two records hold the same sixteen words.
    fn eq(&self, other: &GPURule) -> (same: bool) {
        let same = self.size == other.size && self.spawn_mode == other.spawn_mode
            && self.spawn_chance == other.spawn_chance && self.survival == other.survival
            && self.birth == other.birth && self.states == other.states && self.neighbor_mode
            == other.neighbor_mode && self.color_mode == other.color_mode && self.color0[0]
            == other.color0[0] && self.color0[1] == other.color0[1] && self.color0[2]
            == other.color0[2] && self.color0[3] == other.color0[3] && self.color1[0]
            == other.color1[0] && self.color1[1] == other.color1[1] && self.color1[2]
            == other.color1[2] && self.color1[3] == other.color1[3];
        proof {
            if same {
                assert(self.color0 =~= other.color0);
                assert(self.color1 =~= other.color1);
            }
        }
        same
    }
}

impl Eq for GPURule {

}

/// Whether `bytes` hold `words` in order, four bytes for each word, the least significant
/// byte of a word first.
pub open spec fn little_endian(words: Seq<u32>, bytes: Seq<u8>) -> bool {
    &&& bytes.len() == 4 * words.len()
    &&& forall|k: int|
        0 <= k < words.len() ==> #[trigger] words[k] == bytes[4 * k] + 0x100 * bytes[4 * k + 1]
            + 0x1_0000 * bytes[4 * k + 2] + 0x100_0000 * bytes[4 * k + 3]
}

/// Whether `bytes` hold `words` in order, four bytes for each word, the most significant
/// byte of a word first.
pub open spec fn big_endian(words: Seq<u32>, bytes: Seq<u8>) -> bool {
    &&& bytes.len() == 4 * words.len()
    &&& forall|k: int|
        0 <= k < words.len() ==> #[trigger] words[k] == bytes[4 * k + 3] + 0x100 * bytes[4 * k + 2]
            + 0x1_0000 * bytes[4 * k + 1] + 0x100_0000 * bytes[4 * k]
}

/// Whether `bytes` hold `words` as a machine lays them out in memory: in one of the two
/// byte orders, the same for every word.
pub open spec fn memory_image(words: Seq<u32>, bytes: Seq<u8>) -> bool {
    little_endian(words, bytes) || big_endian(words, bytes)
}

/// The bytes of sixteen words as they lie in memory, from `bytemuck::bytes_of`, which
/// reads the memory of a value as a slice of bytes. The contract claims that these are
/// 64 bytes, four for each word in the order of the words, and that the byte order
/// within a word is that of the machine.
#[verifier::external_body]
fn bytes_of_words(words: &[u32; 16]) -> (bytes: Vec<u8>)
    ensures
        memory_image(words@, bytes@),
{
    bytemuck::bytes_of(words).to_vec()
}

impl GPURule {
    /// The sixteen words of the record in the order in which the device reads them.
    pub open spec fn words_of(self) -> Seq<u32> {
        seq![
            self.size,
            self.spawn_mode,
            self.spawn_chance,
            self.survival,
            self.birth,
            self.states,
            self.neighbor_mode,
            self.color_mode,
            self.color0[0],
            self.color0[1],
            self.color0[2],
            self.color0[3],
            self.color1[0],
            self.color1[1],
            self.color1[2],
            self.color1[3],
        ]
    }

    /// The sixteen words of the record in the order in which the device reads them.
    pub fn words(&self) -> (words: [u32; 16])
        ensures
            words@ == self.words_of(),
    {
        let words = [
            self.size,
            self.spawn_mode,
            self.spawn_chance,
            self.survival,
            self.birth,
            self.states,
            self.neighbor_mode,
            self.color_mode,
            self.color0[0],
            self.color0[1],
            self.color0[2],
            self.color0[3],
            self.color1[0],
            self.color1[1],
            self.color1[2],
            self.color1[3],
        ];
        assert(words@ =~= self.words_of());
        words
    }

    /// The bytes of the record as they are written to the device at offset 0.
    pub fn to_bytes(&self) -> (bytes: Vec<u8>)
        ensures
            bytes.len() == GPU_RULE_SIZE,
            memory_image(self.words_of(), bytes@),
    {
        let words = self.words();
        bytes_of_words(&words)
    }

    /// Brings the record on the device up to date with `rule`.
    ///
    /// Returns the record of `rule`, and whether it differs from `last_uploaded`, the
    /// record that was written last, if any. Where it differs, the caller has to write
    /// the whole record to the device; `last_uploaded` holds it from then on.
    pub fn sync(rule: &Rule, last_uploaded: &mut Option<GPURule>) -> (result: (GPURule, bool))
        ensures
            result.0 == record(*rule),
            result.1 == sync_changed(*rule, *old(last_uploaded)),
            *final(last_uploaded) == Some(record(*rule)),
    {
        let gpu_rule = GPURule::from(rule);
        let changed = match last_uploaded {
            Some(last) => !gpu_rule.eq(last),
            None => true,
        };
        if changed {
            *last_uploaded = Some(gpu_rule);
        }
        (gpu_rule, changed)
    }
}

} // verus!
