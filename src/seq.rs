use vstd::prelude::*;
use vstd::string::*;

use crate::error::{err, Error, ErrorKind};

verus! {

/// Alignment operation of one observation.
///
/// `M` is a position where read and reference carry the same base, `X` one
/// where they differ, `I` a base present in the read only, `D` a base present
/// in the reference only and `S` a soft-clipped base.
#[derive(Clone, Copy, Debug, PartialEq, Eq, Structural)]
pub enum CigarOp {
    M,
    I,
    D,
    X,
    S,
}

/// A nucleotide; `N` stands for a base the sequencer could not call.
#[derive(Clone, Copy, Debug, PartialEq, Eq, Structural)]
pub enum Base {
    A,
    T,
    C,
    G,
    N,
}

/// The base that a byte denotes, in either case.
pub open spec fn base_of_byte(v: u8) -> Option<Base> {
    if v == 65 || v == 97 {
        Some(Base::A)
    } else if v == 84 || v == 116 {
        Some(Base::T)
    } else if v == 67 || v == 99 {
        Some(Base::C)
    } else if v == 71 || v == 103 {
        Some(Base::G)
    } else if v == 78 || v == 110 {
        Some(Base::N)
    } else {
        None
    }
}

/// The base that a character denotes, in either case.
pub open spec fn base_of_char(c: char) -> Option<Base> {
    if c == 'A' || c == 'a' {
        Some(Base::A)
    } else if c == 'T' || c == 't' {
        Some(Base::T)
    } else if c == 'C' || c == 'c' {
        Some(Base::C)
    } else if c == 'G' || c == 'g' {
        Some(Base::G)
    } else if c == 'N' || c == 'n' {
        Some(Base::N)
    } else {
        None
    }
}

/// The upper-case letter of a base.
pub open spec fn base_char(b: Base) -> char {
    match b {
        Base::A => 'A',
        Base::T => 'T',
        Base::C => 'C',
        Base::G => 'G',
        Base::N => 'N',
    }
}

/// The bases that a text spells: `-` is the empty sequence, otherwise every
/// character must be a base letter.
pub open spec fn token_bases(t: Seq<char>) -> Option<Seq<Base>> {
    if t == seq!['-'] {
        Some(Seq::empty())
    } else if forall|i: int| 0 <= i < t.len() ==> (#[trigger] base_of_char(t[i])) is Some {
        Some(t.map_values(|c: char| base_of_char(c)->0))
    } else {
        None
    }
}

/// `p` is a prefix of `s`.
pub open spec fn is_prefix(p: Seq<Base>, s: Seq<Base>) -> bool {
    p.len() <= s.len() && p == s.subrange(0, p.len() as int)
}

/// How an observed sequence `o` relates to an expected sequence `e`, the
/// first of these that holds: equal, one side empty, `o` a prefix of `e`,
/// `e` a prefix of `o`, none of them.
pub open spec fn ordering_of(e: Seq<Base>, o: Seq<Base>) -> Ordering {
    if e == o {
        Ordering::Equ
    } else if e.len() == 0 || o.len() == 0 {
        Ordering::Emp
    } else if is_prefix(o, e) {
        Ordering::Sup
    } else if is_prefix(e, o) {
        Ordering::Sub
    } else {
        Ordering::Nul
    }
}

impl Base {
    /// Parses a base sequence: `-` gives the empty sequence, any other text
    /// must consist of base letters only.
    pub fn try_parse(v: &str) -> (r: Result<Vec<Base>, Error>)
        ensures
            match r {
                Ok(bs) => token_bases(v@) == Some(bs@),
                Err(e) => token_bases(v@) is None && e.kind == ErrorKind::Parse,
            },
    {
        let n = v.unicode_len();
        if n == 1 && v.get_char(0) == '-' {
            proof {
                assert(v@ =~= seq!['-']);
            }
            return Ok(Vec::new());
        }
        proof {
            assert(v@ != seq!['-']) by {
                assert(seq!['-'][0] == '-');
                assert(seq!['-'].len() == 1);
            }
        }
        let mut r: Vec<Base> = Vec::new();
        let mut i: usize = 0;
        while i < n
            invariant
                v@ != seq!['-'],
                n == v@.len(),
                i <= n,
                r@.len() == i,
                forall|j: int| 0 <= j < i ==> base_of_char(#[trigger] v@[j]) == Some(r@[j]),
            decreases n - i,
        {
            let c = v.get_char(i);
            let b = if c == 'A' || c == 'a' {
                Base::A
            } else if c == 'T' || c == 't' {
                Base::T
            } else if c == 'C' || c == 'c' {
                Base::C
            } else if c == 'G' || c == 'g' {
                Base::G
            } else if c == 'N' || c == 'n' {
                Base::N
            } else {
                proof {
                    assert(base_of_char(v@[i as int]) is None);
                }
                return Err(err("Error parsing text as a base sequence."));
            };
            r.push(b);
            i = i + 1;
        }
        proof {
            assert(r@ =~= v@.map_values(|c: char| base_of_char(c)->0));
        }
        Ok(r)
    }

    /// The upper-case letter of this base as a string.
    pub fn stringify(&self) -> (r: String)
        ensures
            r@ == seq![base_char(*self)],
    {
        match self {
            Base::A => {
                proof {
                    reveal_strlit("A");
                }
                String::from_str("A")
            },
            Base::T => {
                proof {
                    reveal_strlit("T");
                }
                String::from_str("T")
            },
            Base::C => {
                proof {
                    reveal_strlit("C");
                }
                String::from_str("C")
            },
            Base::G => {
                proof {
                    reveal_strlit("G");
                }
                String::from_str("G")
            },
            Base::N => {
                proof {
                    reveal_strlit("N");
                }
                String::from_str("N")
            },
        }
    }

    /// Parses one byte as a base, in either case.
    pub fn from_byte(v: u8) -> (r: Result<Base, Error>)
        ensures
            match r {
                Ok(b) => base_of_byte(v) == Some(b),
                Err(e) => base_of_byte(v) is None && e.kind == ErrorKind::Parse,
            },
    {
        if v == 65 || v == 97 {
            Ok(Base::A)
        } else if v == 84 || v == 116 {
            Ok(Base::T)
        } else if v == 67 || v == 99 {
            Ok(Base::C)
        } else if v == 71 || v == 103 {
            Ok(Base::G)
        } else if v == 78 || v == 110 {
            Ok(Base::N)
        } else {
            Err(err("Error parsing byte as a valid base."))
        }
    }
}

/// One aligned position of a read: the reference base and the read's base,
/// where present, the alignment operation, the 1-based reference coordinate
/// (absent inside an insertion) and the query coordinate (absent inside a
/// deletion).
#[derive(Clone, Copy, Debug, PartialEq, Eq, Structural)]
pub struct QueryBase {
    pub r: Option<Base>,
    pub a: Option<Base>,
    pub cigar: CigarOp,
    pub refpos: Option<u32>,
    pub querypos: Option<u32>,
}

/// How one read supports one variant.
#[derive(Clone, Copy, Debug, PartialEq, Eq, Structural)]
pub enum Support {
    /// The reference allele is fully supported.
    Ref,
    /// The reference allele is partially supported.
    Rep,
    /// The reference allele is supported with excess bases.
    Ree,
    /// The alternate allele is fully supported.
    Alt,
    /// The alternate allele is partially supported.
    Alp,
    /// The alternate allele is supported with excess bases.
    Ale,
    /// Another allele, or a reference that disagrees with the variant's.
    Oth,
    /// The read's bases could not be extracted.
    Unk,
    /// The read is unmapped or does not reach the variant.
    Nul,
}

impl Support {
    /// Full reference support.
    pub fn is_ref(&self) -> (r: bool)
        ensures
            r == (*self is Ref),
    {
        matches!(self, Support::Ref)
    }

    /// Partial or excessive reference support.
    pub fn may_ref(&self) -> (r: bool)
        ensures
            r == (*self is Rep || *self is Ree),
    {
        matches!(self, Support::Rep | Support::Ree)
    }

    /// Reference support of any extent.
    pub fn any_ref(&self) -> (r: bool)
        ensures
            r == (*self is Ref || *self is Rep || *self is Ree),
    {
        self.is_ref() || self.may_ref()
    }

    /// Full alternate support.
    pub fn is_alt(&self) -> (r: bool)
        ensures
            r == (*self is Alt),
    {
        matches!(self, Support::Alt)
    }

    /// Partial or excessive alternate support.
    pub fn may_alt(&self) -> (r: bool)
        ensures
            r == (*self is Alp || *self is Ale),
    {
        matches!(self, Support::Alp | Support::Ale)
    }

    /// Alternate support of any extent.
    pub fn any_alt(&self) -> (r: bool)
        ensures
            r == (*self is Alt || *self is Alp || *self is Ale),
    {
        self.is_alt() || self.may_alt()
    }

    /// Another allele.
    pub fn is_oth(&self) -> (r: bool)
        ensures
            r == (*self is Oth),
    {
        matches!(self, Support::Oth)
    }

    /// No support at all.
    pub fn is_nul(&self) -> (r: bool)
        ensures
            r == (*self is Nul),
    {
        matches!(self, Support::Nul)
    }
}

/// How an observed sequence relates to an expected one.
#[derive(Clone, Copy, Debug, PartialEq, Eq, Structural)]
pub enum Ordering {
    /// Exactly one of the two is empty.
    Emp,
    /// The observed sequence is a proper prefix of the expected one.
    Sup,
    /// The two are equal.
    Equ,
    /// The expected sequence is a proper prefix of the observed one.
    Sub,
    /// None of the above.
    Nul,
}

/// Whether `s` starts with `p`.
fn starts_with(s: &[Base], p: &[Base]) -> (r: bool)
    ensures
        r == is_prefix(p@, s@),
{
    if p.len() > s.len() {
        return false;
    }
    let mut i: usize = 0;
    while i < p.len()
        invariant
            p@.len() <= s@.len(),
            i <= p@.len(),
            forall|j: int| 0 <= j < i ==> p@[j] == s@[j],
        decreases p@.len() - i,
    {
        if p[i] != s[i] {
            proof {
                assert(p@[i as int] != s@.subrange(0, p@.len() as int)[i as int]);
            }
            return false;
        }
        i = i + 1;
    }
    proof {
        assert(p@ =~= s@.subrange(0, p@.len() as int));
    }
    true
}

/// Compares an observed sequence `o` with an expected sequence `e`.
pub fn compare(e: &[Base], o: &[Base]) -> (r: Ordering)
    ensures
        r == ordering_of(e@, o@),
{
    let pre = starts_with(e, o);
    let post = starts_with(o, e);
    proof {
        if e@ == o@ {
            assert(e@.subrange(0, e@.len() as int) =~= e@);
        }
    }
    if pre && post {
        proof {
            assert(e@ =~= o@);
        }
        Ordering::Equ
    } else if e.len() == 0 || o.len() == 0 {
        Ordering::Emp
    } else if pre {
        Ordering::Sup
    } else if post {
        Ordering::Sub
    } else {
        Ordering::Nul
    }
}

} // verus!
