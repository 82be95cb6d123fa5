use vstd::prelude::*;

use crate::record::{classify, overlaps, read_end, read_front, read_support, Read};
use crate::variant::{end_of, VariantModel};
use crate::seq::Support;
use crate::variant::Variant;

verus! {

/// The thresholds that separate confident full alternate support from the
/// rest, fixed for a run.
#[derive(Clone, Copy, Debug, PartialEq, Eq, Structural)]
pub struct Config {
    /// Reads with a lower mapping quality are low quality.
    pub min_mapq: u8,
    /// Variants closer than this to either end of the alignment are at the
    /// margin.
    pub min_margin: u32,
}

/// Confidence tier of a read with full alternate support.
#[derive(Clone, Copy, Debug, PartialEq, Eq, Structural)]
pub enum Tier {
    Proper,
    Margin,
    Lowq,
}

/// The tier of full alternate support from mapping quality and the distances
/// to both ends of the alignment.
pub open spec fn tier_of(mapq: nat, front: nat, end: nat, cfg: Config) -> Tier {
    if mapq < cfg.min_mapq {
        Tier::Lowq
    } else if front < cfg.min_margin || end < cfg.min_margin {
        Tier::Margin
    } else {
        Tier::Proper
    }
}

/// Refines full alternate support into a confidence tier.
pub fn refine(mapq: u8, front: usize, end: u32, cfg: &Config) -> (r: Tier)
    ensures
        r == tier_of(mapq as nat, front as nat, end as nat, *cfg),
{
    if mapq < cfg.min_mapq {
        Tier::Lowq
    } else if (front as u64) < (cfg.min_margin as u64) || end < cfg.min_margin {
        Tier::Margin
    } else {
        Tier::Proper
    }
}

/// Per-variant counts of reads, one counter for each bucket.
#[derive(Clone, Copy, Debug, PartialEq, Eq, Structural)]
pub struct Summary {
    /// Reference support, full, partial or excessive.
    pub reference: u32,
    /// Full alternate support, confident.
    pub proper: u32,
    /// Full alternate support too close to an end of the alignment.
    pub margin: u32,
    /// Full alternate support with low mapping quality.
    pub lowq: u32,
    /// Alternate support with excess bases.
    pub excessive: u32,
    /// Other alleles, including partial alternate support.
    pub alleles: u32,
    /// Reads whose bases could not be extracted.
    pub unknown: u32,
}

/// The number of reads counted in all buckets.
pub open spec fn total(s: Summary) -> nat {
    s.reference as nat + s.proper as nat + s.margin as nat + s.lowq as nat + s.excessive as nat
        + s.alleles as nat + s.unknown as nat
}

/// The number of reads counted as alternate support.
pub open spec fn alt_total(s: Summary) -> nat {
    s.proper as nat + s.margin as nat + s.lowq as nat + s.excessive as nat
}

/// `s` after counting one read with verdict `v`, refined as `t` when it is
/// full alternate support; a read that supports nothing is not counted.
pub open spec fn counted(s: Summary, v: Support, t: Tier) -> Summary {
    match v {
        Support::Ref | Support::Rep | Support::Ree => Summary {
            reference: (s.reference + 1) as u32,
            ..s
        },
        Support::Alt => match t {
            Tier::Proper => Summary { proper: (s.proper + 1) as u32, ..s },
            Tier::Margin => Summary { margin: (s.margin + 1) as u32, ..s },
            Tier::Lowq => Summary { lowq: (s.lowq + 1) as u32, ..s },
        },
        Support::Ale => Summary { excessive: (s.excessive + 1) as u32, ..s },
        Support::Alp | Support::Oth => Summary { alleles: (s.alleles + 1) as u32, ..s },
        Support::Unk => Summary { unknown: (s.unknown + 1) as u32, ..s },
        Support::Nul => s,
    }
}

/// `count / total` in ten-thousandths, rounded half up.
pub open spec fn rounded_ratio(count: nat, total: nat) -> nat
    recommends
        total > 0,
{
    (count * 20000 + total) / (2 * total)
}

/// `count / total` rounded to four decimal places, as a whole number of
/// ten-thousandths; `None` when `total` is zero, where the ratio is undefined.
pub fn ratio_bp(count: u32, total: u32) -> (r: Option<u64>)
    ensures
        total == 0 ==> r is None,
        total > 0 ==> r == Some(rounded_ratio(count as nat, total as nat) as u64),
{
    if total == 0 {
        return None;
    }
    let num = (count as u64) * 20000 + (total as u64);
    let den = 2 * (total as u64);
    Some(num / den)
}

/// A read that is unmapped, or whose span misses the variant, supports
/// nothing and leaves every count as it was, `unknown` included.
pub proof fn lemma_no_overlap_counts_nothing(read: Read, m: VariantModel, s: Summary, t: Tier)
    requires
        !read.mapped || read.start > end_of(m.pos, m.refs.len()) || read.end < m.pos,
    ensures
        read_support(read, m) == Support::Nul,
        counted(s, read_support(read, m), t) == s,
{
}

impl Default for Summary {
    fn default() -> (r: Summary)
        ensures
            r == (Summary {
                reference: 0,
                proper: 0,
                margin: 0,
                lowq: 0,
                excessive: 0,
                alleles: 0,
                unknown: 0,
            }),
    {
        Summary {
            reference: 0,
            proper: 0,
            margin: 0,
            lowq: 0,
            excessive: 0,
            alleles: 0,
            unknown: 0,
        }
    }
}

impl Summary {
    /// The number of reads counted in all buckets.
    pub fn total_count(&self) -> (r: u32)
        requires
            total(*self) <= u32::MAX,
        ensures
            r == total(*self),
    {
        self.reference + self.proper + self.margin + self.lowq + self.excessive + self.alleles
            + self.unknown
    }

    /// The number of reads counted as alternate support.
    pub fn alt_count(&self) -> (r: u32)
        requires
            alt_total(*self) <= u32::MAX,
        ensures
            r == alt_total(*self),
    {
        self.proper + self.margin + self.lowq + self.excessive
    }

    /// The number of reads counted as reference support.
    pub fn ref_count(&self) -> (r: u32)
        ensures
            r == self.reference,
    {
        self.reference
    }

    /// Counts one read with verdict `v`, refined as `t` when it is full
    /// alternate support.
    pub fn accumulate(&mut self, v: Support, t: Tier)
        requires
            total(*old(self)) < u32::MAX,
        ensures
            *final(self) == counted(*old(self), v, t),
            total(*final(self)) == total(*old(self)) + if v == Support::Nul {
                0nat
            } else {
                1nat
            },
    {
        match v {
            Support::Ref | Support::Rep | Support::Ree => {
                self.reference = self.reference + 1;
            },
            Support::Alt => match t {
                Tier::Proper => {
                    self.proper = self.proper + 1;
                },
                Tier::Margin => {
                    self.margin = self.margin + 1;
                },
                Tier::Lowq => {
                    self.lowq = self.lowq + 1;
                },
            },
            Support::Ale => {
                self.excessive = self.excessive + 1;
            },
            Support::Alp | Support::Oth => {
                self.alleles = self.alleles + 1;
            },
            Support::Unk => {
                self.unknown = self.unknown + 1;
            },
            Support::Nul => {},
        }
    }

    /// Classifies `read` against `var` and counts it. Full alternate support
    /// is refined by the read's mapping quality and by the distances from the
    /// variant to both ends of the alignment. A read that is unmapped or does
    /// not reach the variant changes nothing. Returns the read's verdict.
    pub fn validate(&mut self, read: &Read, var: &Variant, cfg: &Config) -> (r: Support)
        requires
            total(*old(self)) < u32::MAX,
        ensures
            *final(self) == counted(
                *old(self),
                read_support(*read, var@),
                tier_of(read.mapq as nat, read_front(*read, var@), read_end(*read, var@), *cfg),
            ),
            read_support(*read, var@) == Support::Nul ==> *final(self) == *old(self),
            !overlaps(*read, var@) ==> *final(self) == *old(self),
            r == read_support(*read, var@),
    {
        let ev = classify(read, var);
        let t = refine(read.mapq, ev.front, ev.end, cfg);
        self.accumulate(ev.support, t);
        ev.support
    }
}

} // verus!
