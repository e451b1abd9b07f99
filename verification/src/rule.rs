//! The rule of the automaton: which neighbour counts keep a cell alive or bring one to
//! life, how the grid is seeded and how the cells are coloured.

use vstd::prelude::*;

verus! {

/// A set of neighbour counts between 0 and 26.
///
/// The set is stored as 27 flags. Slot `k` holds the flag of the count `26 - k`, so
/// that slot 0 ends up in the most significant of the 27 bits of the packed form.
#[derive(Clone, Copy, PartialEq, Eq, Debug)]
pub struct Value([bool; 27]);

impl View for Value {
    type V = Seq<bool>;

    /// The 27 flags in slot order.
    closed spec fn view(&self) -> Seq<bool> {
        self.0@
    }
}

/// The first `n` of the flags `slots` as a binary number, the first flag in its most
/// significant place.
pub open spec fn packed(slots: Seq<bool>, n: nat) -> nat
    decreases n,
{
    if n == 0 {
        0
    } else {
        2 * packed(slots, (n - 1) as nat) + if slots[n - 1] {
            1nat
        } else {
            0nat
        }
    }
}

/// Whether bit `i` of `mask` is set.
pub open spec fn bit(mask: u32, i: u32) -> bool {
    (mask >> i) & 1 == 1
}

impl Value {
    /// Whether the neighbour count `count` is in the set.
    pub open spec fn selects(&self, count: nat) -> bool {
        count <= 26 && self@[26 - count]
    }

    /// The neighbour counts in the set.
    pub open spec fn selected(&self) -> Set<nat> {
        Set::new(|count: nat| self.selects(count))
    }

    /// The packed form of the set as a number: the 27 flags in slot order, slot 0 in the
    /// most significant of the 27 places.
    pub open spec fn bitmask(&self) -> nat {
        packed(self@, 27)
    }

    /// The flag in slot `index`.
    pub fn at(&self, index: usize) -> (flag: &bool)
        requires
            index < 27,
        ensures
            *flag == self@[index as int],
    {
        &self.0[index]
    }

    /// The flag in slot `index`, for writing.
    pub fn at_mut(&mut self, index: usize) -> (flag: &mut bool)
        requires
            index < 27,
        ensures
            *flag == old(self)@[index as int],
            final(self)@ == old(self)@.update(index as int, *final(flag)),
    {
        &mut self.0[index]
    }

    /// The set of the neighbour counts in `counts`.
    pub fn from(counts: Vec<usize>) -> (value: Value)
        requires
            forall|j: int| 0 <= j < counts.len() ==> counts[j] <= 26,
        ensures
            forall|count: nat|
                value.selects(count) <==> exists|j: int|
                    0 <= j < counts.len() && #[trigger] counts[j] == count,
    {
        let mut flags = [false;27];
        let mut j: usize = 0;
        while j < counts.len()
            invariant
                j <= counts.len(),
                forall|j: int| 0 <= j < counts.len() ==> counts[j] <= 26,
                forall|k: int|
                    0 <= k < 27 ==> (flags@[k] <==> exists|i: int|
                        0 <= i < j && #[trigger] counts[i] == 26 - k),
            decreases counts.len() - j,
        {
            let ghost before = flags@;
            flags[26 - counts[j]] = true;
            assert forall|k: int| 0 <= k < 27 implies (flags@[k] <==> exists|i: int|
                0 <= i < j + 1 && #[trigger] counts[i] == 26 - k) by {
                if flags@[k] {
                    if before[k] {
                        let i = choose|i: int| 0 <= i < j && #[trigger] counts[i] == 26 - k;
                        assert(0 <= i < j + 1 && counts[i] == 26 - k);
                    } else {
                        assert(counts[j as int] == 26 - k);
                    }
                } else {
                    assert(!before[k]);
                }
            }
            j += 1;
        }
        let value = Value(flags);
        assert forall|count: nat|
            value.selects(count) <==> exists|j: int|
                0 <= j < counts.len() && #[trigger] counts[j] == count by {
            if count <= 26 {
                assert(value@[26 - count] <==> exists|i: int|
                    0 <= i < counts.len() && #[trigger] counts[i] == 26 - (26 - count));
            }
        }
        value
    }

    /// The packed form of the set. Bit `i` of it is the flag in slot `26 - i`, which is
    /// the flag of the neighbour count `i`; the bits from 27 on are zero.
    pub fn to_bitmask(&self) -> (mask: u32)
        ensures
            mask == self.bitmask(),
            mask < 0x800_0000,
            forall|i: u32| i < 27 ==> #[trigger] bit(mask, i) == self@[26 - i],
    {
        let mut acc: u32 = 0;
        let mut k: usize = 0;
        assert(two_to(26) == 0x400_0000 && two_to(27) == 0x800_0000) by {
            reveal_with_fuel(two_to, 28);
        }
        while k < 27
            invariant
                k <= 27,
                acc == packed(self@, k as nat),
                forall|i: u32| i < k ==> #[trigger] bit(acc, i) == self@[k - 1 - i],
                two_to(26) == 0x400_0000,
            decreases 27 - k,
        {
            let flag: u32 = if self.0[k] {
                1
            } else {
                0
            };
            let next: u32 = (acc << 1) | flag;
            proof {
                lemma_packed_bound(self@, k as nat);
                lemma_two_to_rises(k as nat, 26);
                lemma_shift_in(acc, flag, 0);
                assert forall|i: u32| i < k + 1 implies #[trigger] bit(next, i) == self@[k - i] by {
                    if i > 0 {
                        lemma_shift_in(acc, flag, (i - 1) as u32);
                        assert(bit(acc, (i - 1) as u32) == self@[k - 1 - (i - 1) as u32]);
                    }
                }
            }
            acc = next;
            k += 1;
        }
        proof {
            lemma_packed_bound(self@, 27);
        }
        acc
    }

    /// A value has exactly 27 slots.
    pub proof fn lemma_slots(self)
        ensures
            self@.len() == 27,
    {
    }

    /// Two values with the same flags are the same value.
    pub proof fn lemma_same_flags(self, other: Value)
        requires
            self@ == other@,
        ensures
            self == other,
    {
        assert(self.0 =~= other.0);
    }

    /// Two values that select the same counts are the same value.
    pub proof fn lemma_same_selected(self, other: Value)
        requires
            self.selected() == other.selected(),
        ensures
            self == other,
    {
        assert forall|k: int| 0 <= k < 27 implies self@[k] == other@[k] by {
            let count = (26 - k) as nat;
            assert(self.selected().contains(count) == self.selects(count));
            assert(other.selected().contains(count) == other.selects(count));
        }
        assert(self@ =~= other@);
        self.lemma_same_flags(other);
    }

    /// The packed form depends on nothing but the counts in the set: two values that
    /// select the same counts have the same packed form, however they were made.
    pub proof fn lemma_bitmask_of_selected(self, other: Value)
        requires
            self.selected() == other.selected(),
        ensures
            self.bitmask() == other.bitmask(),
    {
        self.lemma_same_selected(other);
    }

    /// Two values with the same packed form are the same value.
    pub proof fn lemma_bitmask_injective(self, other: Value)
        requires
            self.bitmask() == other.bitmask(),
        ensures
            self == other,
    {
        lemma_packed_injective(self@, other@, 27);
        assert(self@ =~= other@);
        self.lemma_same_flags(other);
    }

    /// The packed form fits in 27 bits.
    pub proof fn lemma_bitmask_bound(self)
        ensures
            self.bitmask() < 0x800_0000,
    {
        lemma_packed_bound(self@, 27);
        assert(two_to(27) == 0x800_0000) by {
            reveal_with_fuel(two_to, 28);
        }
    }
}

impl Default for Value {
    /// The empty set.
    fn default() -> (value: Value)
        ensures
            value@ == Seq::new(27, |k: int| false),
    {
        Value([false; 27])
    }
}

impl vstd::std_specs::convert::FromSpecImpl<Value> for u32 {
    open spec fn obeys_from_spec() -> bool {
        true
    }

    open spec fn from_spec(value: Value) -> u32 {
        value.bitmask() as u32
    }
}

impl From<Value> for u32 {
    /// The packed form of the set.
    fn from(value: Value) -> (mask: u32) {
        value.to_bitmask()
    }
}

/// Two to the power of `n`.
pub open spec fn two_to(n: nat) -> nat
    decreases n,
{
    if n == 0 {
        1
    } else {
        2 * two_to((n - 1) as nat)
    }
}

/// `n` flags pack into a number below two to the power of `n`.
pub proof fn lemma_packed_bound(slots: Seq<bool>, n: nat)
    ensures
        packed(slots, n) < two_to(n),
    decreases n,
{
    if n > 0 {
        lemma_packed_bound(slots, (n - 1) as nat);
    }
}

/// Flags that pack into the same number are the same flags.
pub proof fn lemma_packed_injective(a: Seq<bool>, b: Seq<bool>, n: nat)
    requires
        packed(a, n) == packed(b, n),
    ensures
        forall|i: int| 0 <= i < n ==> a[i] == b[i],
    decreases n,
{
    if n > 0 {
        lemma_packed_injective(a, b, (n - 1) as nat);
    }
}

proof fn lemma_two_to_rises(a: nat, b: nat)
    requires
        a <= b,
    ensures
        two_to(a) <= two_to(b),
    decreases b,
{
    if a < b {
        lemma_two_to_rises(a, (b - 1) as nat);
    }
}

/// Shifting a flag in from the right doubles the number and adds the flag; the flag is
/// the lowest bit of the result, and every other bit moves up by one place.
proof fn lemma_shift_in(acc: u32, flag: u32, i: u32)
    by (bit_vector)
    requires
        acc < 0x400_0000,
        flag <= 1,
        i < 31,
    ensures
        ((acc << 1) | flag) == 2 * acc + flag,
        bit((acc << 1) | flag, 0) == (flag == 1),
        bit((acc << 1) | flag, (i + 1) as u32) == bit(acc, i),
{
}

/// Which cells count as neighbours of a cell.
#[derive(Clone, Copy, PartialEq, Eq, Debug, Structural)]
pub enum NeighborMode {
    /// The 26 cells that share a face, an edge or a corner with the cell.
    Moore,
    /// The 6 cells that share a face with the cell.
    VonNeumann,
}

impl NeighborMode {
    /// The name of the mode.
    pub open spec fn name(self) -> Seq<char> {
        match self {
            NeighborMode::Moore => "Moore"@,
            NeighborMode::VonNeumann => "VonNeumann"@,
        }
    }

    /// The number that stands for the mode on the device.
    pub open spec fn tag(self) -> u32 {
        match self {
            NeighborMode::Moore => 0,
            NeighborMode::VonNeumann => 1,
        }
    }

    /// The name of the mode, as it is shown to the user.
    pub fn as_str(&self) -> (name: &'static str)
        ensures
            name@ == self.name(),
    {
        match self {
            Self::Moore => "Moore",
            Self::VonNeumann => "VonNeumann",
        }
    }
}

/// A colour in sRGB: red, green, blue and alpha, each held as the bit pattern of a
/// single-precision number.
#[derive(Clone, Copy, PartialEq, Eq, Debug)]
pub struct Color(pub [u32; 4]);

/// How the cells are coloured.
#[derive(Clone, Copy, PartialEq, Eq, Debug)]
pub enum ColorMode {
    /// One colour for every live cell.
    Single(Color),
    /// From the first colour to the second by the state of the cell.
    StateLerp(Color, Color),
    /// From the first colour to the second by the distance of the cell from the centre.
    DistToCenter(Color, Color),
    /// From the first colour to the second by the number of live neighbours.
    Neighbour(Color, Color),
}

impl ColorMode {
    /// The variant of the mode.
    pub open spec fn kind_of(self) -> ColorModeKind {
        match self {
            ColorMode::Single(_) => ColorModeKind::Single,
            ColorMode::StateLerp(_, _) => ColorModeKind::StateLerp,
            ColorMode::DistToCenter(_, _) => ColorModeKind::DistToCenter,
            ColorMode::Neighbour(_, _) => ColorModeKind::Neighbour,
        }
    }

    /// The two colours of the mode. A mode with one colour gives it twice.
    pub open spec fn colors_of(self) -> (Color, Color) {
        match self {
            ColorMode::Single(c) => (c, c),
            ColorMode::StateLerp(c1, c2) => (c1, c2),
            ColorMode::DistToCenter(c1, c2) => (c1, c2),
            ColorMode::Neighbour(c1, c2) => (c1, c2),
        }
    }

    /// The variant of the mode.
    pub fn kind(&self) -> (kind: ColorModeKind)
        ensures
            kind == self.kind_of(),
    {
        match self {
            Self::Single(_) => ColorModeKind::Single,
            Self::StateLerp(_, _) => ColorModeKind::StateLerp,
            Self::DistToCenter(_, _) => ColorModeKind::DistToCenter,
            Self::Neighbour(_, _) => ColorModeKind::Neighbour,
        }
    }

    /// The two colours of the mode. A mode with one colour gives it twice.
    pub fn colors(&self) -> (colors: (Color, Color))
        ensures
            colors == self.colors_of(),
    {
        match self {
            Self::Single(c) => (*c, *c),
            Self::StateLerp(c1, c2) => (*c1, *c2),
            Self::DistToCenter(c1, c2) => (*c1, *c2),
            Self::Neighbour(c1, c2) => (*c1, *c2),
        }
    }
}

/// The variant of a [`ColorMode`], without its colours.
#[derive(Clone, Copy, PartialEq, Eq, Debug, Structural)]
pub enum ColorModeKind {
    Single,
    StateLerp,
    DistToCenter,
    Neighbour,
}

impl ColorModeKind {
    /// The name of the variant.
    pub open spec fn name(self) -> Seq<char> {
        match self {
            ColorModeKind::Single => "Single"@,
            ColorModeKind::StateLerp => "State Lerp"@,
            ColorModeKind::DistToCenter => "Distance To Center"@,
            ColorModeKind::Neighbour => "Neighbour Count Lerp"@,
        }
    }

    /// The number that stands for the variant on the device.
    pub open spec fn tag(self) -> u32 {
        match self {
            ColorModeKind::Single => 0,
            ColorModeKind::StateLerp => 1,
            ColorModeKind::DistToCenter => 2,
            ColorModeKind::Neighbour => 3,
        }
    }

    /// The mode of this variant that keeps what it can of the colours of `mode`: the
    /// first colour always, the second where the variant has two colours.
    pub open spec fn with_colors_of(self, mode: ColorMode) -> ColorMode {
        let colors = mode.colors_of();
        match self {
            ColorModeKind::Single => ColorMode::Single(colors.0),
            ColorModeKind::StateLerp => ColorMode::StateLerp(colors.0, colors.1),
            ColorModeKind::DistToCenter => ColorMode::DistToCenter(colors.0, colors.1),
            ColorModeKind::Neighbour => ColorMode::Neighbour(colors.0, colors.1),
        }
    }

    /// The name of the variant, as it is shown to the user.
    pub fn as_str(&self) -> (name: &'static str)
        ensures
            name@ == self.name(),
    {
        match self {
            Self::Single => "Single",
            Self::StateLerp => "State Lerp",
            Self::DistToCenter => "Distance To Center",
            Self::Neighbour => "Neighbour Count Lerp",
        }
    }

    /// Turns `mode` into the mode of this variant. The first colour stays; one colour
    /// becomes both colours of a variant with two; of two colours the second is lost in
    /// the variant with one.
    pub fn update(&self, mode: &mut ColorMode)
        ensures
            *final(mode) == self.with_colors_of(*old(mode)),
    {
        let colors = mode.colors();
        match self {
            Self::Single => {
                *mode = ColorMode::Single(colors.0);
            },
            Self::StateLerp => {
                *mode = ColorMode::StateLerp(colors.0, colors.1);
            },
            Self::DistToCenter => {
                *mode = ColorMode::DistToCenter(colors.0, colors.1);
            },
            Self::Neighbour => {
                *mode = ColorMode::Neighbour(colors.0, colors.1);
            },
        }
    }
}

/// How the grid is seeded.
#[derive(Clone, Copy, PartialEq, Eq, Debug)]
pub enum SpawnMode {
    /// Each cell is alive with the given probability, held as the bit pattern of a
    /// single-precision number.
    Random(u32),
    /// The cells of a Menger sponge are alive.
    MengerSponge,
}

impl SpawnMode {
    /// The variant of the mode.
    pub open spec fn kind_of(self) -> SpawnModeKind {
        match self {
            SpawnMode::Random(_) => SpawnModeKind::Random,
            SpawnMode::MengerSponge => SpawnModeKind::MengerSponge,
        }
    }

    /// The probability of the mode as a bit pattern; zero, the pattern of the number
    /// zero, for a mode without one.
    pub open spec fn float_of(self) -> u32 {
        match self {
            SpawnMode::Random(f) => f,
            SpawnMode::MengerSponge => 0,
        }
    }

    /// The variant of the mode.
    pub fn kind(&self) -> (kind: SpawnModeKind)
        ensures
            kind == self.kind_of(),
    {
        match self {
            Self::Random(_) => SpawnModeKind::Random,
            Self::MengerSponge => SpawnModeKind::MengerSponge,
        }
    }

    /// The probability of the mode as a bit pattern; zero, the pattern of the number
    /// zero, for a mode without one.
    pub fn float(&self) -> (bits: u32)
        ensures
            bits == self.float_of(),
    {
        match self {
            Self::Random(f) => *f,
            Self::MengerSponge => 0,
        }
    }
}

/// The variant of a [`SpawnMode`], without its probability.
#[derive(Clone, Copy, PartialEq, Eq, Debug, Structural)]
pub enum SpawnModeKind {
    Random,
    MengerSponge,
}

impl SpawnModeKind {
    /// The name of the variant.
    pub open spec fn name(self) -> Seq<char> {
        match self {
            SpawnModeKind::Random => "Random"@,
            SpawnModeKind::MengerSponge => "Menger Sponge"@,
        }
    }

    /// The number that stands for the variant on the device.
    pub open spec fn tag(self) -> u32 {
        match self {
            SpawnModeKind::Random => 0,
            SpawnModeKind::MengerSponge => 1,
        }
    }

    /// The mode of this variant that keeps the probability of `mode` if the variant has
    /// one.
    pub open spec fn with_float_of(self, mode: SpawnMode) -> SpawnMode {
        match self {
            SpawnModeKind::Random => SpawnMode::Random(mode.float_of()),
            SpawnModeKind::MengerSponge => SpawnMode::MengerSponge,
        }
    }

    /// Turns `mode` into the mode of this variant. A probability stays where the variant
    /// has one, and is zero where `mode` had none.
    pub fn update(&self, mode: &mut SpawnMode)
        ensures
            *final(mode) == self.with_float_of(*old(mode)),
    {
        let float = mode.float();
        match self {
            Self::Random => {
                *mode = SpawnMode::Random(float);
            },
            Self::MengerSponge => {
                *mode = SpawnMode::MengerSponge;
            },
        }
    }

    /// The name of the variant, as it is shown to the user.
    pub fn as_str(&self) -> (name: &'static str)
        ensures
            name@ == self.name(),
    {
        match self {
            Self::Random => "Random",
            Self::MengerSponge => "Menger Sponge",
        }
    }
}

/// The configuration of the automaton.
#[derive(Clone, Copy, PartialEq, Eq, Debug)]
pub struct Rule {
    /// Cells along each edge of the cubic grid.
    pub size: u32,
    pub spawn_mode: SpawnMode,
    /// Neighbour counts with which a live cell stays alive.
    pub survival: Value,
    /// Neighbour counts with which a dead cell comes to life.
    pub birth: Value,
    /// Number of states that a cell goes through.
    pub states: u32,
    pub neighbor_mode: NeighborMode,
    pub color_mode: ColorMode,
}

/// The two colours that the automaton starts with: 176, 0, 188 and 99, 0, 104 of 255 in
/// red, green and blue, both opaque.
pub open spec fn start_colors() -> (Color, Color) {
    (
        Color([0x3f30_b0b1u32, 0u32, 0x3f3c_bcbdu32, 0x3f80_0000u32]),
        Color([0x3ec6_c6c7u32, 0u32, 0x3ed0_d0d1u32, 0x3f80_0000u32]),
    )
}

impl Default for Rule {
    /// The rule that the automaton starts with: a grid of 255 cells along each edge,
    /// seeded with a Menger sponge; a cell stays alive with 4 live neighbours and comes
    /// to life with 4 to 7, out of the 26 around it; it goes through 5 states, by which
    /// it is coloured.
    fn default() -> (rule: Rule)
        ensures
            rule.size == 255,
            rule.spawn_mode == SpawnMode::MengerSponge,
            forall|count: nat| rule.survival.selects(count) <==> count == 4,
            forall|count: nat| rule.birth.selects(count) <==> 4 <= count <= 7,
            rule.states == 5,
            rule.neighbor_mode == NeighborMode::Moore,
            rule.color_mode == ColorMode::StateLerp(start_colors().0, start_colors().1),
    {
        let survival = vec![4];
        let birth = vec![4, 5, 6, 7];
        let first = [0x3f30_b0b1, 0, 0x3f3c_bcbd, 0x3f80_0000];
        let second = [0x3ec6_c6c7, 0, 0x3ed0_d0d1, 0x3f80_0000];
        proof {
            assert(survival[0] == 4);
            assert(birth[0] == 4 && birth[1] == 5 && birth[2] == 6 && birth[3] == 7);
            assert(first =~= start_colors().0.0);
            assert(second =~= start_colors().1.0);
        }
        Rule {
            size: 255,
            spawn_mode: SpawnMode::MengerSponge,
            survival: Value::from(survival),
            birth: Value::from(birth),
            states: 5,
            neighbor_mode: NeighborMode::Moore,
            color_mode: ColorMode::StateLerp(Color(first), Color(second)),
        }
    }
}

impl Rule {
    /// Switches the way of seeding to `kind`, and leaves the rest of the rule as it is.
    pub fn set_spawn_kind(&mut self, kind: SpawnModeKind)
        ensures
            *final(self) == (Rule { spawn_mode: kind.with_float_of(old(self).spawn_mode), ..*old(self) }),
    {
        kind.update(&mut self.spawn_mode);
    }

    /// Switches the way of colouring to `kind`, and leaves the rest of the rule as it is.
    pub fn set_color_kind(&mut self, kind: ColorModeKind)
        ensures
            *final(self) == (Rule { color_mode: kind.with_colors_of(old(self).color_mode), ..*old(self) }),
    {
        kind.update(&mut self.color_mode);
    }
}

} // verus!
