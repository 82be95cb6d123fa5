use vstd::prelude::*;

use crate::seq::{compare, ordering_of, Base, CigarOp, Ordering, QueryBase, Support};
use crate::variant::{end_of, Variant, VariantModel};

verus! {

/// What the classifier reads of one aligned read.
///
/// Reference coordinates here, in `start`, `end` and each observation's
/// `refpos`, are 1-based. Query coordinates are only ever subtracted from
/// one another, so any origin will do as long as `aligned_query_end` uses the
/// same one.
pub struct Read {
    /// Whether the read is mapped at all.
    pub mapped: bool,
    /// First reference position the alignment covers.
    pub start: u32,
    /// Last reference position the alignment covers.
    pub end: u32,
    /// Mapping quality.
    pub mapq: u8,
    /// Query position just after the last aligned (not soft-clipped) base.
    pub aligned_query_end: u32,
    /// The aligned-base observations in alignment order, or `None` when they
    /// could not be produced.
    pub observations: Option<Vec<QueryBase>>,
}

/// An observation contributes a reference base unless it is an insertion.
pub open spec fn needs_ref(q: QueryBase) -> bool {
    q.cigar != CigarOp::I
}

/// An observation contributes a read base unless it is a deletion.
pub open spec fn needs_alt(q: QueryBase) -> bool {
    q.cigar != CigarOp::D
}

/// The observation carries every base it contributes.
pub open spec fn observed_complete(q: QueryBase) -> bool {
    (needs_ref(q) ==> q.r is Some) && (needs_alt(q) ==> q.a is Some)
}

/// The reference bases that a run of observations shows.
pub open spec fn ref_seq(obs: Seq<QueryBase>) -> Seq<Base>
    decreases obs.len(),
{
    if obs.len() == 0 {
        Seq::empty()
    } else if needs_ref(obs.last()) {
        ref_seq(obs.drop_last()).push(obs.last().r->0)
    } else {
        ref_seq(obs.drop_last())
    }
}

/// The read bases that a run of observations shows.
pub open spec fn alt_seq(obs: Seq<QueryBase>) -> Seq<Base>
    decreases obs.len(),
{
    if obs.len() == 0 {
        Seq::empty()
    } else if needs_alt(obs.last()) {
        alt_seq(obs.drop_last()).push(obs.last().a->0)
    } else {
        alt_seq(obs.drop_last())
    }
}

/// The index of the first observation at or after `i` whose reference
/// position is `pos`.
pub open spec fn anchor_from(obs: Seq<QueryBase>, pos: nat, i: int) -> Option<int>
    decreases obs.len() - i,
{
    if i < 0 || i >= obs.len() {
        None
    } else if obs[i].refpos is Some && obs[i].refpos->0 as nat == pos {
        Some(i)
    } else {
        anchor_from(obs, pos, i + 1)
    }
}

/// The walk that started at `s` ends after observation `j`: the next
/// observation is not part of an edit run (there is none, or it is a match),
/// and enough reference or read bases have been gathered.
pub open spec fn stops_at(obs: Seq<QueryBase>, s: int, j: int, nref: nat, nalt: nat) -> bool {
    (j + 1 >= obs.len() || obs[j + 1].cigar == CigarOp::M) && (ref_seq(obs.subrange(s, j + 1)).len()
        >= nref || alt_seq(obs.subrange(s, j + 1)).len() >= nalt)
}

/// Where the walk that started at `s` ends (exclusive), looking for a stop
/// from `j` on; the end of the observations when it never stops.
pub open spec fn walk_end(obs: Seq<QueryBase>, s: int, j: int, nref: nat, nalt: nat) -> int
    decreases obs.len() - j,
{
    if j >= obs.len() {
        obs.len() as int
    } else if stops_at(obs, s, j, nref, nalt) {
        j + 1
    } else {
        walk_end(obs, s, j + 1, nref, nalt)
    }
}

/// Every observation in `[s, k)` carries the bases it contributes.
pub open spec fn all_complete(obs: Seq<QueryBase>, s: int, k: int) -> bool {
    forall|x: int| s <= x < k ==> #[trigger] observed_complete(obs[x])
}

/// The query position of the last observation in `[a, k)` that has one, or 0.
pub open spec fn last_query(obs: Seq<QueryBase>, a: int, k: int) -> nat
    decreases k - a,
{
    if k <= a {
        0
    } else if obs[k - 1].querypos is Some {
        obs[k - 1].querypos->0 as nat
    } else {
        last_query(obs, a, k - 1)
    }
}

/// The verdict for observed reference `rref` and observed alternate `ralt`
/// against expected `refs` and `alts`, by the first rule that applies.
pub open spec fn verdict(refs: Seq<Base>, alts: Seq<Base>, rref: Seq<Base>, ralt: Seq<Base>) -> Support {
    let rc = ordering_of(refs, rref);
    let ac = ordering_of(alts, ralt);
    let equal = rref == ralt;
    if rc == Ordering::Nul {
        Support::Oth
    } else if rc == Ordering::Equ && ac == Ordering::Equ {
        Support::Alt
    } else if rc == Ordering::Equ && equal {
        Support::Ref
    } else if rc == Ordering::Sub && equal {
        Support::Ree
    } else if equal {
        Support::Rep
    } else if rc == Ordering::Sub && ac == Ordering::Equ {
        Support::Ale
    } else if ac == Ordering::Sub {
        Support::Ale
    } else if ac == Ordering::Sup {
        Support::Alp
    } else {
        Support::Oth
    }
}

/// The read is mapped and its span meets `[pos, end]` of the variant.
pub open spec fn overlaps(read: Read, m: VariantModel) -> bool {
    read.mapped && read.start <= end_of(m.pos, m.refs.len()) && read.end >= m.pos
}

/// Where the walk over `obs` starts, given the anchor `a`: the anchor of a
/// deletion written with an empty alternate carries no allele information.
pub open spec fn walk_start(m: VariantModel, a: int) -> int {
    if m.alts.len() == 0 {
        a + 1
    } else {
        a
    }
}

/// How `read` supports the variant `m`.
pub open spec fn read_support(read: Read, m: VariantModel) -> Support {
    if !overlaps(read, m) {
        Support::Nul
    } else if read.observations is None {
        Support::Unk
    } else {
        let obs = read.observations->0@;
        match anchor_from(obs, m.pos, 0) {
            None => Support::Nul,
            Some(a) => {
                let s = walk_start(m, a);
                let k = walk_end(obs, s, s, m.refs.len(), m.alts.len());
                if !all_complete(obs, s, k) {
                    Support::Unk
                } else {
                    verdict(m.refs, m.alts, ref_seq(obs.subrange(s, k)), alt_seq(obs.subrange(s, k)))
                }
            },
        }
    }
}

/// The number of observations before the anchor (0 when there is none).
pub open spec fn read_front(read: Read, m: VariantModel) -> nat {
    match anchor_from(read.observations->0@, m.pos, 0) {
        Some(a) => a as nat,
        None => 0,
    }
}

/// The distance from the last consumed observation's query position to the
/// end of the aligned query span (0 when the former lies past the latter).
pub open spec fn read_end(read: Read, m: VariantModel) -> nat {
    let obs = read.observations->0@;
    match anchor_from(obs, m.pos, 0) {
        Some(a) => {
            let s = walk_start(m, a);
            let k = walk_end(obs, s, s, m.refs.len(), m.alts.len());
            let q = last_query(obs, a, k);
            if read.aligned_query_end >= q {
                (read.aligned_query_end - q) as nat
            } else {
                0
            }
        },
        None => 0,
    }
}

/// The bases gathered by a walk and where it stopped.
pub struct Walk {
    pub rref: Vec<Base>,
    pub ralt: Vec<Base>,
    pub stop: usize,
}

/// What one read shows about a variant: the verdict and, for the refiner,
/// the distances from the variant to both ends of the alignment.
#[derive(Clone, Copy, Debug, PartialEq, Eq, Structural)]
pub struct Evidence {
    pub support: Support,
    pub front: usize,
    pub end: u32,
}

proof fn lemma_anchor_bounds(obs: Seq<QueryBase>, pos: nat, i: int)
    requires
        0 <= i,
    ensures
        anchor_from(obs, pos, i) is Some ==> i <= anchor_from(obs, pos, i)->0 < obs.len(),
    decreases obs.len() - i,
{
    if i < obs.len() && !(obs[i].refpos is Some && obs[i].refpos->0 as nat == pos) {
        lemma_anchor_bounds(obs, pos, i + 1);
    }
}

proof fn lemma_walk_end_first(obs: Seq<QueryBase>, s: int, j: int, nref: nat, nalt: nat)
    requires
        0 <= j,
    ensures
        forall|x: int|
            j <= x < walk_end(obs, s, j, nref, nalt) - 1 ==> !#[trigger] stops_at(
                obs,
                s,
                x,
                nref,
                nalt,
            ),
    decreases obs.len() - j,
{
    if j < obs.len() && !stops_at(obs, s, j, nref, nalt) {
        lemma_walk_end_first(obs, s, j + 1, nref, nalt);
    }
}

/// A multi-base edit is never cut short: the walk that starts at `s` ends
/// at the end of the observations or just before a plain match, and it ends
/// at the first observation after which the next one is a match (or there is
/// none) and enough reference or read bases have been gathered. Until then,
/// every mismatch, insertion and deletion is absorbed, even when the length
/// of the expected allele has already been reached.
pub proof fn lemma_edit_run_absorbed(obs: Seq<QueryBase>, s: int, nref: nat, nalt: nat)
    requires
        0 <= s <= obs.len(),
    ensures
        ({
            let k = walk_end(obs, s, s, nref, nalt);
            &&& s <= k <= obs.len()
            &&& s < obs.len() ==> s < k
            &&& k == obs.len() || obs[k].cigar == CigarOp::M
            &&& k == obs.len() || stops_at(obs, s, k - 1, nref, nalt)
            &&& forall|x: int| s <= x < k - 1 ==> !#[trigger] stops_at(obs, s, x, nref, nalt)
        }),
{
    lemma_walk_end_bounds(obs, s, s, nref, nalt);
    lemma_walk_end_at_match(obs, s, s, nref, nalt);
    lemma_walk_end_first(obs, s, s, nref, nalt);
    lemma_walk_end_stops(obs, s, s, nref, nalt);
}

proof fn lemma_walk_end_stops(obs: Seq<QueryBase>, s: int, j: int, nref: nat, nalt: nat)
    requires
        0 <= j,
    ensures
        ({
            let k = walk_end(obs, s, j, nref, nalt);
            k == obs.len() || stops_at(obs, s, k - 1, nref, nalt)
        }),
    decreases obs.len() - j,
{
    if j < obs.len() && !stops_at(obs, s, j, nref, nalt) {
        lemma_walk_end_stops(obs, s, j + 1, nref, nalt);
    }
}

proof fn lemma_anchor_same_positions(o1: Seq<QueryBase>, o2: Seq<QueryBase>, pos: nat, i: int)
    requires
        0 <= i,
        o1.len() == o2.len(),
        forall|x: int| 0 <= x < o1.len() ==> (#[trigger] o1[x]).refpos == o2[x].refpos,
    ensures
        anchor_from(o1, pos, i) == anchor_from(o2, pos, i),
    decreases o1.len() - i,
{
    if i < o1.len() {
        lemma_anchor_same_positions(o1, o2, pos, i + 1);
    }
}

proof fn lemma_walk_end_same_tail(
    o1: Seq<QueryBase>,
    o2: Seq<QueryBase>,
    s: int,
    j: int,
    nref: nat,
    nalt: nat,
)
    requires
        0 <= s <= j,
        o1.len() == o2.len(),
        forall|x: int| s <= x < o1.len() ==> #[trigger] o1[x] == o2[x],
    ensures
        walk_end(o1, s, j, nref, nalt) == walk_end(o2, s, j, nref, nalt),
    decreases o1.len() - j,
{
    if j < o1.len() {
        assert(o1.subrange(s, j + 1) =~= o2.subrange(s, j + 1));
        if j + 1 < o1.len() {
            assert(o1[j + 1] == o2[j + 1]);
        }
        lemma_walk_end_same_tail(o1, o2, s, j + 1, nref, nalt);
    }
}

/// The anchor of a deletion written with an empty alternate carries no
/// allele information: two reads that differ only in the bases, operation
/// and query position of that observation get the same verdict.
pub proof fn lemma_abbreviated_anchor_ignored(
    r1: Read,
    r2: Read,
    m: VariantModel,
    a: int,
    q: QueryBase,
)
    requires
        m.alts.len() == 0,
        r1.mapped == r2.mapped,
        r1.start == r2.start,
        r1.end == r2.end,
        r1.observations is Some,
        r2.observations is Some,
        anchor_from(r1.observations->0@, m.pos, 0) == Some(a),
        q.refpos == r1.observations->0@[a].refpos,
        r2.observations->0@ == r1.observations->0@.update(a, q),
    ensures
        read_support(r1, m) == read_support(r2, m),
{
    let o1 = r1.observations->0@;
    let o2 = r2.observations->0@;
    lemma_anchor_bounds(o1, m.pos, 0);
    assert forall|x: int| 0 <= x < o1.len() implies (#[trigger] o1[x]).refpos == o2[x].refpos by {
    }
    lemma_anchor_same_positions(o1, o2, m.pos, 0);
    let s = a + 1;
    assert forall|x: int| s <= x < o1.len() implies #[trigger] o1[x] == o2[x] by {}
    lemma_walk_end_same_tail(o1, o2, s, s, m.refs.len(), m.alts.len());
    let k = walk_end(o1, s, s, m.refs.len(), m.alts.len());
    lemma_walk_end_bounds(o1, s, s, m.refs.len(), m.alts.len());
    assert(o1.subrange(s, k) =~= o2.subrange(s, k));
    assert(all_complete(o1, s, k) == all_complete(o2, s, k)) by {
        assert forall|x: int| s <= x < k implies #[trigger] observed_complete(o1[x])
            == observed_complete(o2[x]) by {
            assert(o1[x] == o2[x]);
        }
    }
}

/// Finds the first observation whose reference position is `pos`.
pub fn find_anchor(obs: &Vec<QueryBase>, pos: u32) -> (r: Option<usize>)
    ensures
        match r {
            Some(a) => anchor_from(obs@, pos as nat, 0) == Some(a as int),
            None => anchor_from(obs@, pos as nat, 0) is None,
        },
{
    let mut i: usize = 0;
    while i < obs.len()
        invariant
            i <= obs@.len(),
            anchor_from(obs@, pos as nat, 0) == anchor_from(obs@, pos as nat, i as int),
        decreases obs@.len() - i,
    {
        match obs[i].refpos {
            Some(p) => {
                if p == pos {
                    return Some(i);
                }
            },
            None => {},
        }
        i = i + 1;
    }
    None
}

proof fn lemma_walk_end_bounds(obs: Seq<QueryBase>, s: int, j: int, nref: nat, nalt: nat)
    requires
        0 <= j,
    ensures
        j < obs.len() ==> j < walk_end(obs, s, j, nref, nalt) <= obs.len(),
        j >= obs.len() ==> walk_end(obs, s, j, nref, nalt) == obs.len(),
    decreases obs.len() - j,
{
    if j < obs.len() && !stops_at(obs, s, j, nref, nalt) {
        lemma_walk_end_bounds(obs, s, j + 1, nref, nalt);
    }
}

/// A walk never ends inside a run of edits: it ends at the end of the
/// observations or just before a match.
proof fn lemma_walk_end_at_match(obs: Seq<QueryBase>, s: int, j: int, nref: nat, nalt: nat)
    requires
        0 <= j,
    ensures
        ({
            let k = walk_end(obs, s, j, nref, nalt);
            k >= obs.len() || obs[k].cigar == CigarOp::M
        }),
    decreases obs.len() - j,
{
    if j < obs.len() && !stops_at(obs, s, j, nref, nalt) {
        lemma_walk_end_at_match(obs, s, j + 1, nref, nalt);
    }
}

/// Gathers the observed reference and read bases from observation `s` on,
/// never stopping inside a run of edits. `None` when an observation lacks a
/// base it contributes before the walk ends.
pub fn walk(obs: &Vec<QueryBase>, s: usize, nref: usize, nalt: usize) -> (r: Option<Walk>)
    requires
        s <= obs@.len(),
    ensures
        r is Some ==> r->0.stop == walk_end(obs@, s as int, s as int, nref as nat, nalt as nat),
        r is Some ==> r->0.stop == obs@.len() || obs@[r->0.stop as int].cigar == CigarOp::M,
        r is Some ==> all_complete(obs@, s as int, r->0.stop as int),
        r is Some ==> r->0.rref@ == ref_seq(obs@.subrange(s as int, r->0.stop as int)),
        r is Some ==> r->0.ralt@ == alt_seq(obs@.subrange(s as int, r->0.stop as int)),
        r is None ==> !all_complete(
            obs@,
            s as int,
            walk_end(obs@, s as int, s as int, nref as nat, nalt as nat),
        ),
{
    let ghost k = walk_end(obs@, s as int, s as int, nref as nat, nalt as nat);
    proof {
        lemma_walk_end_bounds(obs@, s as int, s as int, nref as nat, nalt as nat);
        lemma_walk_end_at_match(obs@, s as int, s as int, nref as nat, nalt as nat);
    }
    let mut rref: Vec<Base> = Vec::new();
    let mut ralt: Vec<Base> = Vec::new();
    let mut i: usize = s;
    proof {
        assert(obs@.subrange(s as int, s as int) =~= Seq::<QueryBase>::empty());
    }
    while i < obs.len()
        invariant
            s <= i <= obs@.len(),
            k == walk_end(obs@, s as int, s as int, nref as nat, nalt as nat),
            k == walk_end(obs@, s as int, i as int, nref as nat, nalt as nat),
            k <= obs@.len(),
            k >= obs@.len() || obs@[k].cigar == CigarOp::M,
            all_complete(obs@, s as int, i as int),
            rref@ == ref_seq(obs@.subrange(s as int, i as int)),
            ralt@ == alt_seq(obs@.subrange(s as int, i as int)),
        decreases obs@.len() - i,
    {
        let q = obs[i];
        let ghost before = obs@.subrange(s as int, i as int);
        let ghost after = obs@.subrange(s as int, i + 1);
        proof {
            assert(after.drop_last() =~= before);
            assert(after.last() == q);
        }
        match q.cigar {
            CigarOp::I => {
                match q.a {
                    Some(b) => ralt.push(b),
                    None => {
                        proof {
                            lemma_walk_end_bounds(obs@, s as int, i as int, nref as nat, nalt as nat);
                            assert(!observed_complete(obs@[i as int]));
                        }
                        return None;
                    },
                }
            },
            CigarOp::D => {
                match q.r {
                    Some(b) => rref.push(b),
                    None => {
                        proof {
                            lemma_walk_end_bounds(obs@, s as int, i as int, nref as nat, nalt as nat);
                            assert(!observed_complete(obs@[i as int]));
                        }
                        return None;
                    },
                }
            },
            _ => {
                match (q.r, q.a) {
                    (Some(x), Some(y)) => {
                        rref.push(x);
                        ralt.push(y);
                    },
                    _ => {
                        proof {
                            lemma_walk_end_bounds(obs@, s as int, i as int, nref as nat, nalt as nat);
                            assert(!observed_complete(obs@[i as int]));
                        }
                        return None;
                    },
                }
            },
        }
        proof {
            assert(rref@ == ref_seq(after));
            assert(ralt@ == alt_seq(after));
            assert(observed_complete(obs@[i as int]));
            assert(all_complete(obs@, s as int, i + 1));
        }
        let next_is_match = i + 1 >= obs.len() || obs[i + 1].cigar == CigarOp::M;
        if next_is_match && (rref.len() >= nref || ralt.len() >= nalt) {
            return Some(Walk { rref, ralt, stop: i + 1 });
        }
        i = i + 1;
    }
    Some(Walk { rref, ralt, stop: i })
}

/// Applies the decision table to the gathered bases.
pub fn decide(var: &Variant, rref: &Vec<Base>, ralt: &Vec<Base>) -> (r: Support)
    ensures
        r == verdict(var@.refs, var@.alts, rref@, ralt@),
{
    let rc = var.ref_cmp(rref.as_slice());
    let ac = var.alt_cmp(ralt.as_slice());
    let equal = compare(rref.as_slice(), ralt.as_slice()) == Ordering::Equ;
    if rc == Ordering::Nul {
        Support::Oth
    } else if rc == Ordering::Equ && ac == Ordering::Equ {
        Support::Alt
    } else if rc == Ordering::Equ && equal {
        Support::Ref
    } else if rc == Ordering::Sub && equal {
        Support::Ree
    } else if equal {
        Support::Rep
    } else if rc == Ordering::Sub && ac == Ordering::Equ {
        Support::Ale
    } else if ac == Ordering::Sub {
        Support::Ale
    } else if ac == Ordering::Sup {
        Support::Alp
    } else {
        Support::Oth
    }
}

/// The query position of the last observation in `[a, k)` that has one, or 0.
fn last_query_pos(obs: &Vec<QueryBase>, a: usize, k: usize) -> (r: u32)
    requires
        a <= k <= obs@.len(),
    ensures
        r == last_query(obs@, a as int, k as int),
{
    let mut lq: u32 = 0;
    let mut x: usize = a;
    while x < k
        invariant
            a <= x <= k <= obs@.len(),
            lq == last_query(obs@, a as int, x as int),
        decreases k - x,
    {
        match obs[x].querypos {
            Some(q) => {
                lq = q;
            },
            None => {},
        }
        x = x + 1;
    }
    lq
}

/// Classifies one read against a variant, together with the distances that
/// the refiner needs.
///
/// An unmapped read, one whose span misses the variant, or one without an
/// observation at the variant's first position gives `Nul`; a read whose
/// observations are unavailable or lack a base gives `Unk`.
pub fn classify(read: &Read, var: &Variant) -> (r: Evidence)
    ensures
        r.support == read_support(*read, var@),
        r.support == Support::Alt ==> r.front == read_front(*read, var@) && r.end == read_end(
            *read,
            var@,
        ),
{
    let none = Evidence { support: Support::Nul, front: 0, end: 0 };
    if !read.mapped || read.start > var.end() || read.end < var.pos() {
        return none;
    }
    let obs = match &read.observations {
        Some(o) => o,
        None => {
            return Evidence { support: Support::Unk, front: 0, end: 0 };
        },
    };
    let a = match find_anchor(obs, var.pos()) {
        Some(a) => a,
        None => {
            return none;
        },
    };
    let n = obs.len();
    proof {
        lemma_anchor_bounds(obs@, var@.pos, 0);
        assert(a < n);
    }
    let s = if var.is_abbr_deletion() {
        a + 1
    } else {
        a
    };
    let w = match walk(obs, s, var.refs().len(), var.alts().len()) {
        Some(w) => w,
        None => {
            return Evidence { support: Support::Unk, front: 0, end: 0 };
        },
    };
    let support = decide(var, &w.rref, &w.ralt);
    proof {
        lemma_walk_end_bounds(obs@, s as int, s as int, var@.refs.len(), var@.alts.len());
    }
    let lq = last_query_pos(obs, a, w.stop);
    let end = if read.aligned_query_end >= lq {
        read.aligned_query_end - lq
    } else {
        0
    };
    Evidence { support, front: a, end }
}

/// Validation of alignment support for a variant.
pub trait VariantValidate {
    /// How `self` supports the variant `v`.
    spec fn support_for(&self, v: VariantModel) -> Support;

    /// Classifies `self` against `v`.
    fn validate(&self, v: &Variant) -> (r: Support)
        ensures
            r == self.support_for(v@),
    ;
}

impl VariantValidate for Read {
    open spec fn support_for(&self, v: VariantModel) -> Support {
        read_support(*self, v)
    }

    fn validate(&self, v: &Variant) -> (r: Support) {
        classify(self, v).support
    }
}

} // verus!
