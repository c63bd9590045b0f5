//! The price table: per-token rates for each known model identifier,
//! expressed in nanodollars (billionths of a dollar) per token so that cost
//! aggregation stays in exact integer arithmetic.

use vstd::prelude::*;
use crate::strutil::string_eq_str;

verus! {

/// Per-token price rates for one model, in nanodollars per token. Cache
/// rates are optional: a model without them is never charged for cache
/// traffic.
#[derive(Clone, Copy, Debug)]
pub struct ModelPricing {
    pub input_nanos: u64,
    pub output_nanos: u64,
    pub cache_creation_nanos: Option<u64>,
    pub cache_read_nanos: Option<u64>,
}

/// An immutable model-identifier to price-rate mapping, constructed once at
/// startup and passed by reference into the cost calculator.
pub struct PricingTable {
    pub entries: Vec<(String, ModelPricing)>,
}

/// The rates of the first entry whose identifier equals `id`, if any.
pub open spec fn spec_lookup_entries(
    entries: Seq<(String, ModelPricing)>,
    id: Seq<char>,
) -> Option<ModelPricing>
    decreases entries.len(),
{
    if entries.len() == 0 {
        None
    } else if entries[0].0@ == id {
        Some(entries[0].1)
    } else {
        spec_lookup_entries(entries.drop_first(), id)
    }
}

impl PricingTable {
    /// The rates this table assigns to the model identifier `id`.
    pub open spec fn spec_lookup(&self, id: Seq<char>) -> Option<ModelPricing> {
        spec_lookup_entries(self.entries@, id)
    }

    /// Looks up `id`; an unknown identifier yields no pricing, never a zero
    /// rate.
    pub fn lookup(&self, id: &str) -> (r: Option<ModelPricing>)
        ensures
            r == self.spec_lookup(id@),
    {
        let mut i: usize = 0;
        proof {
            assert(self.entries@.skip(0) =~= self.entries@);
        }
        while i < self.entries.len()
            invariant
                i <= self.entries@.len(),
                spec_lookup_entries(self.entries@, id@) == spec_lookup_entries(
                    self.entries@.skip(i as int),
                    id@,
                ),
            decreases self.entries@.len() - i,
        {
            proof {
                assert(self.entries@.skip(i as int)[0] == self.entries@[i as int]);
                assert(self.entries@.skip(i as int).drop_first() =~= self.entries@.skip(i + 1));
            }
            let hit = string_eq_str(&self.entries[i].0, id);
            if hit {
                return Some(self.entries[i].1);
            }
            i += 1;
        }
        None
    }

    /// A table with no models yet.
    pub fn new() -> (r: PricingTable)
        ensures
            r.entries@.len() == 0,
    {
        PricingTable { entries: Vec::new() }
    }

    /// Adds one model's rates at the end of the table. Earlier entries take
    /// precedence on lookup, so the first entry for an identifier wins.
    pub fn push_model(&mut self, id: &str, rates: ModelPricing)
        ensures
            final(self).entries@.len() == old(self).entries@.len() + 1,
            final(self).entries@.last().0@ == id@,
            final(self).entries@.last().1 == rates,
            forall|i: int|
                0 <= i < old(self).entries@.len() ==> final(self).entries@[i] == old(
                    self,
                ).entries@[i],
    {
        self.entries.push((crate::strutil::to_owned_string(id), rates));
    }
}

} // verus!
