//! What the registry tells about a federation: its network, its meta data
//! and the notes that its client holds.

use crate::federation::FederationId;
use vstd::prelude::*;

verus! {

/// The notes of one denomination: how much each is worth, in
/// millisatoshi, and how many there are.
#[derive(Clone, Copy, Debug, PartialEq, Eq)]
pub struct Tier {
    pub denomination_msat: u64,
    pub count: usize,
}

/// The value of all notes of the tiers, in millisatoshi.
pub open spec fn tiers_total(tiers: Seq<Tier>) -> nat
    decreases tiers.len(),
{
    if tiers.len() == 0 {
        0
    } else {
        tiers_total(tiers.drop_last()) + tiers.last().denomination_msat as nat
            * tiers.last().count as nat
    }
}

/// The number of all notes of the tiers.
pub open spec fn tiers_count(tiers: Seq<Tier>) -> nat
    decreases tiers.len(),
{
    if tiers.len() == 0 {
        0
    } else {
        tiers_count(tiers.drop_last()) + tiers.last().count as nat
    }
}

/// Whether the denominations are strictly ascending, so that each occurs
/// once.
pub open spec fn denominations_ascending(tiers: Seq<Tier>) -> bool {
    forall|i: int, j: int|
        0 <= i < j < tiers.len() ==> (#[trigger] tiers[i]).denomination_msat < (
        #[trigger] tiers[j]).denomination_msat
}

/// Whether the tiers can stand as a summary: each denomination once, in
/// ascending order, and a total value and a number of notes that machine
/// integers hold.
pub open spec fn valid_tiers(tiers: Seq<Tier>) -> bool {
    &&& denominations_ascending(tiers)
    &&& tiers_total(tiers) <= u64::MAX
    &&& tiers_count(tiers) <= usize::MAX
}

/// The first tiers are worth no more, and hold no more notes, than all.
proof fn lemma_prefix_is_less(tiers: Seq<Tier>, n: int)
    requires
        0 <= n <= tiers.len(),
    ensures
        tiers_total(tiers.subrange(0, n)) <= tiers_total(tiers),
        tiers_count(tiers.subrange(0, n)) <= tiers_count(tiers),
    decreases tiers.len(),
{
    if n == tiers.len() {
        assert(tiers.subrange(0, n) =~= tiers);
    } else {
        lemma_prefix_is_less(tiers.drop_last(), n);
        assert(tiers.drop_last().subrange(0, n) =~= tiers.subrange(0, n));
    }
}

/// What one more tier adds to the value and to the number of notes.
proof fn lemma_one_more_tier(tiers: Seq<Tier>, n: int)
    requires
        0 <= n < tiers.len(),
    ensures
        tiers_total(tiers.subrange(0, n + 1)) == tiers_total(tiers.subrange(0, n))
            + tiers[n].denomination_msat as nat * tiers[n].count as nat,
        tiers_count(tiers.subrange(0, n + 1)) == tiers_count(tiers.subrange(0, n))
            + tiers[n].count as nat,
{
    let longer = tiers.subrange(0, n + 1);
    assert(longer.drop_last() =~= tiers.subrange(0, n));
    assert(longer.last() == tiers[n]);
}

/// The notes that a client holds, by denomination.
#[derive(Debug, PartialEq, Eq)]
pub struct TieredSummary {
    tiers: Vec<Tier>,
    total_msat: u64,
    items: usize,
}

impl View for TieredSummary {
    type V = Seq<Tier>;

    closed spec fn view(&self) -> Seq<Tier> {
        self.tiers@
    }
}

impl TieredSummary {
    #[verifier::type_invariant]
    spec fn sound(&self) -> bool {
        &&& valid_tiers(self.tiers@)
        &&& self.total_msat == tiers_total(self.tiers@)
        &&& self.items == tiers_count(self.tiers@)
    }

    /// The summary of the given tiers: `None` unless the denominations are
    /// strictly ascending and the total value and number of notes fit.
    pub fn new(tiers: Vec<Tier>) -> (r: Option<TieredSummary>)
        ensures
            r is Some <==> valid_tiers(tiers@),
            r matches Some(summary) ==> summary@ == tiers@,
    {
        let mut total_msat: u64 = 0;
        let mut items: usize = 0;
        let mut i: usize = 0;
        assert(tiers@.subrange(0, 0) =~= Seq::<Tier>::empty());
        while i < tiers.len()
            invariant
                i <= tiers@.len(),
                total_msat == tiers_total(tiers@.subrange(0, i as int)),
                items == tiers_count(tiers@.subrange(0, i as int)),
                forall|a: int, b: int|
                    0 <= a < b < i ==> (#[trigger] tiers@[a]).denomination_msat < (
                    #[trigger] tiers@[b]).denomination_msat,
            decreases tiers@.len() - i,
        {
            let tier = tiers[i];
            proof {
                lemma_one_more_tier(tiers@, i as int);
                lemma_prefix_is_less(tiers@, i + 1);
            }
            if i > 0 && tiers[i - 1].denomination_msat >= tier.denomination_msat {
                assert(tiers@[i - 1].denomination_msat >= tiers@[i as int].denomination_msat);
                return None;
            }
            let value = match tier.denomination_msat.checked_mul(tier.count as u64) {
                Some(value) => value,
                None => {
                    return None;
                },
            };
            total_msat = match total_msat.checked_add(value) {
                Some(sum) => sum,
                None => {
                    return None;
                },
            };
            items = match items.checked_add(tier.count) {
                Some(sum) => sum,
                None => {
                    return None;
                },
            };
            assert forall|a: int, b: int| 0 <= a < b < i + 1 implies (
            #[trigger] tiers@[a]).denomination_msat < (#[trigger] tiers@[b]).denomination_msat by {
                if b == i && a < i - 1 {
                    assert(tiers@[a].denomination_msat < tiers@[i - 1].denomination_msat);
                }
            }
            i += 1;
        }
        assert(tiers@.subrange(0, i as int) =~= tiers@);
        Some(TieredSummary { tiers, total_msat, items })
    }

    /// The value of all notes, in millisatoshi.
    pub fn total_amount(&self) -> (msat: u64)
        ensures
            msat == tiers_total(self@),
    {
        proof {
            use_type_invariant(self);
        }
        self.total_msat
    }

    /// The number of all notes.
    pub fn count_items(&self) -> (n: usize)
        ensures
            n == tiers_count(self@),
    {
        proof {
            use_type_invariant(self);
        }
        self.items
    }

    /// The number of denominations.
    pub fn count_tiers(&self) -> (n: usize)
        ensures
            n == self@.len(),
    {
        self.tiers.len()
    }

    /// The tier at place `i`, in ascending order of denomination.
    pub fn tier(&self, i: usize) -> (tier: Tier)
        requires
            i < self@.len(),
        ensures
            tier == self@[i as int],
    {
        self.tiers[i]
    }
}

/// What was read from the client of one federation.
pub struct ClientReading {
    pub network: String,
    pub meta: Vec<(String, String)>,
    pub summary: TieredSummary,
}

/// What the registry tells about one federation.
#[derive(Debug, PartialEq, Eq)]
pub struct InfoResponse {
    pub federation_id: FederationId,
    pub network: String,
    pub meta: Vec<(String, String)>,
    pub total_amount_msat: u64,
    pub total_num_notes: usize,
    pub denominations_msat: TieredSummary,
}

/// Whether `info` tells of the federation `id` what `reading` says: the
/// network, the meta data and the notes as they were read, and the total
/// value and number of those notes.
pub open spec fn describes(info: InfoResponse, id: Seq<u8>, reading: ClientReading) -> bool {
    &&& info.federation_id@ == id
    &&& info.network == reading.network
    &&& info.meta == reading.meta
    &&& info.denominations_msat == reading.summary
    &&& info.total_amount_msat == tiers_total(reading.summary@)
    &&& info.total_num_notes == tiers_count(reading.summary@)
}

impl InfoResponse {
    /// What is told about the federation `federation_id`, from what was
    /// read from its client.
    pub fn new(federation_id: FederationId, reading: ClientReading) -> (info: InfoResponse)
        ensures
            describes(info, federation_id@, reading),
    {
        let total_amount_msat = reading.summary.total_amount();
        let total_num_notes = reading.summary.count_items();
        InfoResponse {
            federation_id,
            network: reading.network,
            meta: reading.meta,
            total_amount_msat,
            total_num_notes,
            denominations_msat: reading.summary,
        }
    }
}

} // verus!
