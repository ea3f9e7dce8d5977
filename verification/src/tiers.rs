//! Storage tiers.
//!
//! The fabric maps layers to storage tiers (hot, warm, GPU, cold, remote),
//! each with a capacity and a range of layers it holds.

use vstd::prelude::*;
use vstd::string::StringExecFns;
use crate::text::{decimal, decimal_string};

verus! {

/// The display name of tier number `n`.
pub open spec fn tier_text(n: u8) -> Seq<char> {
    if n == 0 {
        "Tier::Hot"@
    } else if n == 1 {
        "Tier::Warm"@
    } else if n == 2 {
        "Tier::Gpu"@
    } else if n == 3 {
        "Tier::Cold"@
    } else if n == 4 {
        "Tier::Remote"@
    } else {
        "Tier::Unknown("@ + decimal(n as nat) + ")"@
    }
}

/// A storage tier identifier: 0 hot, 1 warm, 2 GPU, 3 cold, 4 remote.
#[derive(Clone, Copy, Debug, PartialEq, Eq, Structural, Hash)]
pub struct TierId(u8);

impl TierId {
    /// The tier's number.
    pub closed spec fn spec_u8(&self) -> u8 {
        self.0
    }

    /// A tier identifier is determined by its number.
    pub proof fn lemma_spec_u8_determines(a: TierId, b: TierId)
        ensures
            a.spec_u8() == b.spec_u8() <==> a == b,
    {
    }

    /// CPU registers / L1 cache.
    #[allow(non_snake_case)]
    pub fn HOT() -> (r: TierId)
        ensures
            r.spec_u8() == 0,
    {
        TierId(0)
    }
    /// CPU RAM.
    #[allow(non_snake_case)]
    pub fn WARM() -> (r: TierId)
        ensures
            r.spec_u8() == 1,
    {
        TierId(1)
    }
    /// GPU memory.
    #[allow(non_snake_case)]
    pub fn GPU() -> (r: TierId)
        ensures
            r.spec_u8() == 2,
    {
        TierId(2)
    }
    /// SSD / NVMe (mmap).
    #[allow(non_snake_case)]
    pub fn COLD() -> (r: TierId)
        ensures
            r.spec_u8() == 3,
    {
        TierId(3)
    }
    /// Remote node.
    #[allow(non_snake_case)]
    pub fn REMOTE() -> (r: TierId)
        ensures
            r.spec_u8() == 4,
    {
        TierId(4)
    }

    /// The tier with number `v`, values above 4 meaning remote.
    pub fn from_u8(v: u8) -> (r: Self)
        ensures
            r.spec_u8() == (if v > 4 { 4 } else { v }),
    {
        TierId(if v > 4 { 4 } else { v })
    }

    /// The tier's display name: `Tier::Hot`, `Tier::Warm`, `Tier::Gpu`,
    /// `Tier::Cold`, `Tier::Remote`, or `Tier::Unknown(n)`.
    pub fn to_display_string(&self) -> (r: String)
        ensures
            r@ == tier_text(self.spec_u8()),
    {
        proof {
            reveal_strlit("Tier::Hot");
            reveal_strlit("Tier::Warm");
            reveal_strlit("Tier::Gpu");
            reveal_strlit("Tier::Cold");
            reveal_strlit("Tier::Remote");
        }
        if self.0 == 0 {
            String::from_str("Tier::Hot")
        } else if self.0 == 1 {
            String::from_str("Tier::Warm")
        } else if self.0 == 2 {
            String::from_str("Tier::Gpu")
        } else if self.0 == 3 {
            String::from_str("Tier::Cold")
        } else if self.0 == 4 {
            String::from_str("Tier::Remote")
        } else {
            let mut s = String::from_str("Tier::Unknown(");
            s.append(decimal_string(self.0 as u64).as_str());
            s.append(")");
            s
        }
    }

    /// The tier's number.
    pub fn as_u8(&self) -> (r: u8)
        ensures
            r == self.spec_u8(),
    {
        self.0
    }
}


/// Typical capacity of a tier, in GB (0 for unknown tiers).
pub fn typical_capacity(tier: TierId) -> (r: u64)
    ensures
        r == (if tier.spec_u8() == 0 {
            0u64
        } else if tier.spec_u8() == 1 {
            32
        } else if tier.spec_u8() == 2 {
            8
        } else if tier.spec_u8() == 3 {
            1024
        } else if tier.spec_u8() == 4 {
            10000
        } else {
            0
        }),
{
    match tier.as_u8() {
        0 => 0,
        1 => 32,
        2 => 8,
        3 => 1024,
        4 => 10000,
        _ => 0,
    }
}

/// A storage tier: an identifier, a capacity and the range of layers it
/// holds.
#[derive(Clone, Debug)]
pub struct Tier {
    /// The tier's identifier.
    pub id: TierId,
    /// Short name.
    pub name: String,
    /// Description.
    pub description: String,
    /// Capacity in bytes.
    pub capacity_bytes: u64,
    /// Bytes in use.
    pub used_bytes: u64,
    /// First layer held by the tier.
    pub min_layer: u16,
    /// Last layer held by the tier.
    pub max_layer: u16,
}

/// Whether tier `t` holds `layer`.
pub open spec fn holds_layer(t: Tier, layer: u16) -> bool {
    t.min_layer <= layer <= t.max_layer
}

impl Tier {
    /// A tier with nothing in use.
    pub fn new(
        id: TierId,
        name: &str,
        description: &str,
        capacity_bytes: u64,
        min_layer: u16,
        max_layer: u16,
    ) -> (r: Self)
        ensures
            r.id == id,
            r.name@ == name@,
            r.description@ == description@,
            r.capacity_bytes == capacity_bytes,
            r.used_bytes == 0,
            r.min_layer == min_layer,
            r.max_layer == max_layer,
    {
        Tier {
            id,
            name: name.to_owned(),
            description: description.to_owned(),
            capacity_bytes,
            used_bytes: 0,
            min_layer,
            max_layer,
        }
    }

    /// Bytes still free (zero when over-full).
    pub fn available_bytes(&self) -> (r: u64)
        ensures
            r == (if self.used_bytes <= self.capacity_bytes {
                self.capacity_bytes - self.used_bytes
            } else {
                0
            }),
    {
        self.capacity_bytes.saturating_sub(self.used_bytes)
    }

    /// Whether the tier holds `layer`.
    pub fn contains_layer(&self, layer: u16) -> (r: bool)
        ensures
            r == holds_layer(*self, layer),
    {
        layer >= self.min_layer && layer <= self.max_layer
    }
}

/// A virtual tier, not backed by physical storage: the temporal register
/// ring and other fabric-internal structures.
#[derive(Clone, Debug)]
pub struct VirtualTier {
    /// The tier description.
    pub tier: Tier,
    /// Size in bytes.
    pub size: usize,
}

impl VirtualTier {
    /// The temporal register ring: a hot tier holding layer 0 only.
    pub fn new_temporal(name: &str, size_bytes: usize) -> (r: Self)
        ensures
            r.tier.id.spec_u8() == 0,
            r.tier.name@ == name@,
            r.tier.capacity_bytes == size_bytes,
            r.tier.used_bytes == 0,
            r.tier.min_layer == 0,
            r.tier.max_layer == 0,
            r.size == size_bytes,
    {
        let tier = Tier::new(
            TierId::HOT(),
            name,
            "Temporal register ring (active compute scratchpad)",
            size_bytes as u64,
            0,
            0,
        );
        VirtualTier { tier, size: size_bytes }
    }
}

/// One tier's layout: identifier, capacity and layer range.
pub open spec fn tier_is(t: Tier, id: u8, capacity: nat, min_layer: u16, max_layer: u16) -> bool {
    &&& t.id.spec_u8() == id
    &&& t.capacity_bytes == capacity
    &&& t.used_bytes == 0
    &&& t.min_layer == min_layer
    &&& t.max_layer == max_layer
}

/// Default tiers for a typical 8 GB Mac: hot (1 MB, layers 0–1), warm
/// (8 GB, 2–12), GPU (2 GB, 3–10), cold (1 TB, 13–100).
pub fn default_tiers_mac_8gb() -> (r: Vec<Tier>)
    ensures
        r@.len() == 4,
        tier_is(r@[0], 0, 1024 * 1024, 0, 1),
        tier_is(r@[1], 1, 8 * 1024 * 1024 * 1024, 2, 12),
        tier_is(r@[2], 2, 2 * 1024 * 1024 * 1024, 3, 10),
        tier_is(r@[3], 3, 1024 * 1024 * 1024 * 1024, 13, 100),
        r@[0].name@ == "hot"@,
        r@[1].name@ == "warm"@,
        r@[2].name@ == "gpu"@,
        r@[3].name@ == "cold"@,
{
    let mut v: Vec<Tier> = Vec::new();
    v.push(Tier::new(TierId::HOT(), "hot", "CPU registers + L1 cache (ephemeral)", 1024 * 1024, 0, 1));
    v.push(Tier::new(TierId::WARM(), "warm", "Unified memory (CPU + GPU share)", 8 * 1024 * 1024 * 1024, 2, 12));
    v.push(Tier::new(TierId::GPU(), "gpu", "GPU memory (portion of unified memory)", 2 * 1024 * 1024 * 1024, 3, 10));
    v.push(Tier::new(TierId::COLD(), "cold", "SSD / NVMe mmap-backed storage", 1024 * 1024 * 1024 * 1024, 13, 100));
    v
}

/// Default tiers for a 16 GB Linux machine with a GPU: hot (1 MB, layers
/// 0–1), warm (16 GB, 2–15), GPU (8 GB, 3–12), cold (2 TB, 13–100).
pub fn default_tiers_linux_16gb() -> (r: Vec<Tier>)
    ensures
        r@.len() == 4,
        tier_is(r@[0], 0, 1024 * 1024, 0, 1),
        tier_is(r@[1], 1, 16 * 1024 * 1024 * 1024, 2, 15),
        tier_is(r@[2], 2, 8 * 1024 * 1024 * 1024, 3, 12),
        tier_is(r@[3], 3, 2 * 1024 * 1024 * 1024 * 1024, 13, 100),
        r@[0].name@ == "hot"@,
        r@[1].name@ == "warm"@,
        r@[2].name@ == "gpu"@,
        r@[3].name@ == "cold"@,
{
    let mut v: Vec<Tier> = Vec::new();
    v.push(Tier::new(TierId::HOT(), "hot", "CPU registers + L1 cache", 1024 * 1024, 0, 1));
    v.push(Tier::new(TierId::WARM(), "warm", "CPU RAM", 16 * 1024 * 1024 * 1024, 2, 15));
    v.push(Tier::new(TierId::GPU(), "gpu", "GPU memory (discrete)", 8 * 1024 * 1024 * 1024, 3, 12));
    v.push(Tier::new(TierId::COLD(), "cold", "NVMe SSD", 2 * 1024 * 1024 * 1024 * 1024, 13, 100));
    v
}

/// Index `i` is the first tier holding `layer`.
pub open spec fn first_holding(tiers: Seq<Tier>, layer: u16, i: int) -> bool {
    &&& 0 <= i < tiers.len()
    &&& holds_layer(tiers[i], layer)
    &&& forall|j: int| 0 <= j < i ==> !holds_layer(#[trigger] tiers[j], layer)
}

/// Index `i` is the first tier with identifier number `id`.
pub open spec fn first_with_id(tiers: Seq<Tier>, id: u8, i: int) -> bool {
    &&& 0 <= i < tiers.len()
    &&& tiers[i].id.spec_u8() == id
    &&& forall|j: int| 0 <= j < i ==> (#[trigger] tiers[j]).id.spec_u8() != id
}

/// Sum of the capacities of the first `k` tiers.
pub open spec fn capacity_sum(tiers: Seq<Tier>, k: int) -> int
    decreases k,
{
    if k <= 0 {
        0
    } else {
        capacity_sum(tiers, k - 1) + tiers[k - 1].capacity_bytes
    }
}

/// Sum of the bytes in use of the first `k` tiers.
pub open spec fn used_sum(tiers: Seq<Tier>, k: int) -> int
    decreases k,
{
    if k <= 0 {
        0
    } else {
        used_sum(tiers, k - 1) + tiers[k - 1].used_bytes
    }
}

/// Partial sums never shrink.
proof fn lemma_sums_monotone(tiers: Seq<Tier>, i: int, k: int)
    requires
        0 <= i <= k <= tiers.len(),
    ensures
        capacity_sum(tiers, i) <= capacity_sum(tiers, k),
        used_sum(tiers, i) <= used_sum(tiers, k),
    decreases k - i,
{
    if i < k {
        lemma_sums_monotone(tiers, i, k - 1);
    }
}

/// A collection of tiers, looked up by layer or identifier in order.
#[derive(Clone, Debug)]
pub struct TierSet {
    tiers: Vec<Tier>,
}

impl TierSet {
    /// The tiers, in order.
    pub closed spec fn tier_seq(&self) -> Seq<Tier> {
        self.tiers@
    }

    /// A set of the given tiers.
    pub fn new(tiers: Vec<Tier>) -> (r: Self)
        ensures
            r.tier_seq() == tiers@,
    {
        TierSet { tiers }
    }

    /// The first tier that holds `layer`, if any.
    pub fn tier_for_layer(&self, layer: u16) -> (r: Option<&Tier>)
        ensures
            match r {
                Some(t) => exists|i: int| first_holding(self.tier_seq(), layer, i) && *t == self.tier_seq()[i],
                None => forall|i: int| 0 <= i < self.tier_seq().len() ==> !holds_layer(#[trigger] self.tier_seq()[i], layer),
            },
    {
        let mut i: usize = 0;
        while i < self.tiers.len()
            invariant
                i <= self.tiers@.len(),
                forall|j: int| 0 <= j < i ==> !holds_layer(#[trigger] self.tiers@[j], layer),
            decreases self.tiers@.len() - i,
        {
            if self.tiers[i].contains_layer(layer) {
                proof {
                    assert(first_holding(self.tier_seq(), layer, i as int));
                }
                return Some(&self.tiers[i]);
            }
            i = i + 1;
        }
        None
    }

    /// Default tiers for an 8 GB Mac.
    pub fn default_tiers_mac_8gb() -> (r: Vec<Tier>)
        ensures
            r@.len() == 4,
            tier_is(r@[0], 0, 1024 * 1024, 0, 1),
            tier_is(r@[1], 1, 8 * 1024 * 1024 * 1024, 2, 12),
            tier_is(r@[2], 2, 2 * 1024 * 1024 * 1024, 3, 10),
            tier_is(r@[3], 3, 1024 * 1024 * 1024 * 1024, 13, 100),
    {
        default_tiers_mac_8gb()
    }

    /// All tiers, in order.
    pub fn all_tiers(&self) -> (r: &[Tier])
        ensures
            r@ == self.tier_seq(),
    {
        self.tiers.as_slice()
    }

    /// The first tier with identifier `id`, if any.
    pub fn tier_by_id(&self, id: TierId) -> (r: Option<&Tier>)
        ensures
            match r {
                Some(t) => exists|i: int| first_with_id(self.tier_seq(), id.spec_u8(), i) && *t == self.tier_seq()[i],
                None => forall|i: int| 0 <= i < self.tier_seq().len() ==> (#[trigger] self.tier_seq()[i]).id.spec_u8() != id.spec_u8(),
            },
    {
        let mut i: usize = 0;
        while i < self.tiers.len()
            invariant
                i <= self.tiers@.len(),
                forall|j: int| 0 <= j < i ==> (#[trigger] self.tiers@[j]).id.spec_u8() != id.spec_u8(),
            decreases self.tiers@.len() - i,
        {
            if self.tiers[i].id.as_u8() == id.as_u8() {
                proof {
                    assert(first_with_id(self.tier_seq(), id.spec_u8(), i as int));
                }
                return Some(&self.tiers[i]);
            }
            i = i + 1;
        }
        None
    }

    /// Total capacity of all tiers.
    pub fn total_capacity(&self) -> (r: u64)
        requires
            capacity_sum(self.tier_seq(), self.tier_seq().len() as int) <= u64::MAX,
        ensures
            r == capacity_sum(self.tier_seq(), self.tier_seq().len() as int),
    {
        let mut total: u64 = 0;
        let mut i: usize = 0;
        while i < self.tiers.len()
            invariant
                i <= self.tiers@.len(),
                total == capacity_sum(self.tiers@, i as int),
                capacity_sum(self.tiers@, self.tiers@.len() as int) <= u64::MAX,
            decreases self.tiers@.len() - i,
        {
            proof {
                lemma_sums_monotone(self.tiers@, i + 1, self.tiers@.len() as int);
            }
            total = total + self.tiers[i].capacity_bytes;
            i = i + 1;
        }
        total
    }

    /// Total bytes in use over all tiers.
    pub fn total_used(&self) -> (r: u64)
        requires
            used_sum(self.tier_seq(), self.tier_seq().len() as int) <= u64::MAX,
        ensures
            r == used_sum(self.tier_seq(), self.tier_seq().len() as int),
    {
        let mut total: u64 = 0;
        let mut i: usize = 0;
        while i < self.tiers.len()
            invariant
                i <= self.tiers@.len(),
                total == used_sum(self.tiers@, i as int),
                used_sum(self.tiers@, self.tiers@.len() as int) <= u64::MAX,
            decreases self.tiers@.len() - i,
        {
            proof {
                lemma_sums_monotone(self.tiers@, i + 1, self.tiers@.len() as int);
            }
            total = total + self.tiers[i].used_bytes;
            i = i + 1;
        }
        total
    }

    /// Capacity not in use (zero when over-full).
    pub fn total_available(&self) -> (r: u64)
        requires
            capacity_sum(self.tier_seq(), self.tier_seq().len() as int) <= u64::MAX,
            used_sum(self.tier_seq(), self.tier_seq().len() as int) <= u64::MAX,
        ensures
            ({
                let c = capacity_sum(self.tier_seq(), self.tier_seq().len() as int);
                let u = used_sum(self.tier_seq(), self.tier_seq().len() as int);
                r == (if u <= c { c - u } else { 0 })
            }),
    {
        self.total_capacity().saturating_sub(self.total_used())
    }
}

} // verus!
