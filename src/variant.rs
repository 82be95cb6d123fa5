use vstd::prelude::*;
use vstd::string::*;

use crate::error::{err, Error, ErrorKind};
use crate::seq::{base_char, compare, ordering_of, token_bases, Base, Ordering};

verus! {

/// The mathematical content of a variant: chromosome name, 1-based start,
/// expected reference and alternate sequences.
pub struct VariantModel {
    pub chrom: Seq<char>,
    pub pos: nat,
    pub refs: Seq<Base>,
    pub alts: Seq<Base>,
}

/// Whether `c` belongs to the Unicode word class `\w`: the `Alphabetic` and
/// `Join_Control` properties and the `Decimal_Number`, `Mark` and
/// `Connector_Punctuation` general categories.
pub uninterp spec fn unicode_word(c: char) -> bool;

/// Relies on `regex_syntax::is_word_character`: whether `c` is in the Unicode
/// word class, the `\w` of a regular expression. It panics only without the
/// crate's `unicode-perl` feature, which its default features enable.
#[verifier::external_body]
fn word_class(c: char) -> (r: bool)
    ensures
        r == unicode_word(c),
{
    regex_syntax::is_word_character(c)
}

/// A character allowed in a chromosome name: a Unicode word character, `.`
/// or `-`. The separator `:` is never one.
pub open spec fn is_word_char(c: char) -> bool {
    (unicode_word(c) || c == '.' || c == '-') && c != ':'
}

pub open spec fn is_digit(c: char) -> bool {
    '0' <= c && c <= '9'
}

pub open spec fn digit_value(c: char) -> nat {
    ((c as u32) - 48) as nat
}

pub open spec fn digit_char(k: nat) -> char {
    ((k + 48) as u8) as char
}

/// A non-empty run of decimal digits.
pub open spec fn is_numeral(d: Seq<char>) -> bool {
    d.len() > 0 && forall|i: int| 0 <= i < d.len() ==> #[trigger] is_digit(d[i])
}

/// The number that a run of decimal digits denotes.
pub open spec fn decimal_value(d: Seq<char>) -> nat
    decreases d.len(),
{
    if d.len() == 0 {
        0
    } else {
        decimal_value(d.drop_last()) * 10 + digit_value(d.last())
    }
}

/// The decimal digits of `n`, without leading zeros.
pub open spec fn decimal(n: nat) -> Seq<char>
    decreases n,
{
    if n < 10 {
        seq![digit_char(n)]
    } else {
        decimal(n / 10).push(digit_char(n % 10))
    }
}

/// A non-empty run of name characters.
pub open spec fn is_name(c: Seq<char>) -> bool {
    c.len() > 0 && forall|i: int| 0 <= i < c.len() ==> #[trigger] is_word_char(c[i])
}

/// `t` is a non-empty allele text that spells `bs`.
pub open spec fn is_token(t: Seq<char>, bs: Seq<Base>) -> bool {
    t.len() > 0 && token_bases(t) == Some(bs)
}

/// The last reference position covered by a variant at `pos` with `n`
/// reference bases; a pure insertion covers its anchor and the next base.
pub open spec fn end_of(pos: nat, n: nat) -> nat {
    if n > 0 {
        (pos + n - 1) as nat
    } else {
        pos + 1
    }
}

/// A variant that the library can represent: a valid name, a positive start
/// and an end that fits in 32 bits.
pub open spec fn in_range(m: VariantModel) -> bool {
    is_name(m.chrom) && 1 <= m.pos && end_of(m.pos, m.refs.len()) <= u32::MAX
}

/// `s` is `CHROM:POS REF>ALT` split as `m.chrom`, `:`, `d`, `rt`, `>`, `at`.
pub open spec fn split_into(
    s: Seq<char>,
    m: VariantModel,
    d: Seq<char>,
    rt: Seq<char>,
    at: Seq<char>,
) -> bool {
    is_numeral(d) && decimal_value(d) == m.pos && is_token(rt, m.refs) && is_token(at, m.alts) && s
        == m.chrom + seq![':'] + d + rt + seq!['>'] + at
}

/// The text `s` is a variant in the form `CHROM:POS REF>ALT` that denotes `m`
/// (letters of either case, `-` for an empty allele).
pub open spec fn spells(s: Seq<char>, m: VariantModel) -> bool {
    is_name(m.chrom) && exists|d: Seq<char>, rt: Seq<char>, at: Seq<char>|
        split_into(s, m, d, rt, at)
}

/// The canonical text of an allele: upper-case letters, `-` when empty.
pub open spec fn token_text(bs: Seq<Base>) -> Seq<char> {
    if bs.len() == 0 {
        seq!['-']
    } else {
        bs.map_values(|b: Base| base_char(b))
    }
}

/// The canonical text of a variant.
pub open spec fn text_of(m: VariantModel) -> Seq<char> {
    m.chrom + seq![':'] + decimal(m.pos) + token_text(m.refs) + seq!['>'] + token_text(m.alts)
}

/// Where the parts of a variant text begin and end.
proof fn lemma_split_facts(
    s: Seq<char>,
    m: VariantModel,
    d: Seq<char>,
    rt: Seq<char>,
    at: Seq<char>,
)
    requires
        is_name(m.chrom),
        split_into(s, m, d, rt, at),
    ensures
        ({
            let c = m.chrom.len() as int;
            let j = c + 1 + d.len();
            let k = j + rt.len();
            &&& k + 1 < s.len()
            &&& forall|x: int| 0 <= x < c ==> #[trigger] is_word_char(s[x])
            &&& s[c] == ':'
            &&& forall|x: int| c + 1 <= x < j ==> #[trigger] is_digit(s[x])
            &&& !is_digit(s[j])
            &&& forall|x: int| j <= x < k ==> #[trigger] s[x] != '>'
            &&& s[k] == '>'
            &&& s.subrange(0, c) == m.chrom
            &&& s.subrange(c + 1, j) == d
            &&& s.subrange(j, k) == rt
            &&& s.subrange(k + 1, s.len() as int) == at
        }),
{
    let c = m.chrom.len() as int;
    let j = c + 1 + d.len();
    let k = j + rt.len();
    assert(s.subrange(0, c) =~= m.chrom);
    assert(s.subrange(c + 1, j) =~= d);
    assert(s.subrange(j, k) =~= rt);
    assert(s.subrange(k + 1, s.len() as int) =~= at);
    assert forall|x: int| 0 <= x < c implies #[trigger] is_word_char(s[x]) by {
        assert(s[x] == m.chrom[x]);
    }
    assert forall|x: int| c + 1 <= x < j implies #[trigger] is_digit(s[x]) by {
        assert(s[x] == d[x - c - 1]);
    }
    assert(s[j] == rt[0]);
    assert forall|x: int| j <= x < k implies #[trigger] s[x] != '>' by {
        assert(s[x] == rt[x - j]);
        if rt != seq!['-'] {
            lemma_base_letter(rt, x - j);
        }
    }
    if rt != seq!['-'] {
        lemma_base_letter(rt, 0);
    }
}

/// Every character of a non-dash allele text is a base letter.
proof fn lemma_base_letter(t: Seq<char>, i: int)
    requires
        t != seq!['-'],
        token_bases(t) is Some,
        0 <= i < t.len(),
    ensures
        t[i] != '>' && t[i] != ':' && !is_digit(t[i]),
{
    assert(crate::seq::base_of_char(t[i]) is Some);
}

/// Two splits of the same text denote the same variant.
proof fn lemma_split_unique(
    s: Seq<char>,
    m: VariantModel,
    d: Seq<char>,
    rt: Seq<char>,
    at: Seq<char>,
    n: VariantModel,
    e: Seq<char>,
    ru: Seq<char>,
    au: Seq<char>,
)
    requires
        is_name(m.chrom),
        split_into(s, m, d, rt, at),
        is_name(n.chrom),
        split_into(s, n, e, ru, au),
    ensures
        m == n,
{
    lemma_split_facts(s, m, d, rt, at);
    lemma_split_facts(s, n, e, ru, au);
    let c = m.chrom.len() as int;
    let c2 = n.chrom.len() as int;
    if c < c2 {
        assert(is_word_char(s[c]));
    }
    if c2 < c {
        assert(is_word_char(s[c2]));
    }
    let j = c + 1 + d.len();
    let j2 = c + 1 + e.len();
    if j < j2 {
        assert(is_digit(s[j]));
    }
    if j2 < j {
        assert(is_digit(s[j2]));
    }
    let k = j + rt.len();
    let k2 = j + ru.len();
    if k < k2 {
        assert(s[k] != '>');
    }
    if k2 < k {
        assert(s[k2] != '>');
    }
}

/// A text denotes at most one variant, so what a successful parse returns is
/// determined by the text alone.
pub proof fn lemma_spells_unique(s: Seq<char>, m: VariantModel, n: VariantModel)
    requires
        spells(s, m),
        spells(s, n),
    ensures
        m == n,
{
    let (d, rt, at) = choose|d: Seq<char>, rt: Seq<char>, at: Seq<char>|
        split_into(s, m, d, rt, at);
    let (e, ru, au) = choose|e: Seq<char>, ru: Seq<char>, au: Seq<char>|
        split_into(s, n, e, ru, au);
    lemma_split_unique(s, m, d, rt, at, n, e, ru, au);
}

/// The canonical digits of `n` denote `n`.
proof fn lemma_decimal(n: nat)
    ensures
        is_numeral(decimal(n)),
        decimal_value(decimal(n)) == n,
    decreases n,
{
    let d = decimal(n);
    if n >= 10 {
        lemma_decimal(n / 10);
        assert(d.drop_last() =~= decimal(n / 10));
        assert(digit_value(digit_char(n % 10)) == n % 10);
        assert(n == (n / 10) * 10 + n % 10);
        assert(d.last() == digit_char(n % 10));
        assert(decimal_value(d) == decimal_value(d.drop_last()) * 10 + digit_value(d.last()));
    } else {
        assert(d.drop_last() =~= Seq::<char>::empty());
        assert(decimal_value(Seq::<char>::empty()) == 0);
        assert(digit_value(digit_char(n)) == n);
        assert(decimal_value(d) == decimal_value(d.drop_last()) * 10 + digit_value(d.last()));
    }
    assert forall|i: int| 0 <= i < d.len() implies #[trigger] is_digit(d[i]) by {
        if n >= 10 && i < d.len() - 1 {
            assert(d[i] == decimal(n / 10)[i]);
        }
    }
}

/// The canonical text of an allele spells it.
proof fn lemma_token_text(bs: Seq<Base>)
    ensures
        is_token(token_text(bs), bs),
{
    if bs.len() > 0 {
        let t = token_text(bs);
        assert(t != seq!['-']) by {
            if t == seq!['-'] {
                assert(t[0] == '-');
            }
        }
        assert forall|i: int| 0 <= i < t.len() implies (#[trigger] crate::seq::base_of_char(
            t[i],
        )) is Some by {
            assert(t[i] == base_char(bs[i]));
        }
        assert(t.map_values(|c: char| crate::seq::base_of_char(c)->0) =~= bs);
    } else {
        assert(token_text(bs) == seq!['-']);
        assert(bs =~= Seq::<Base>::empty());
        assert(seq!['-'][0] == '-');
    }
}

/// Parsing the canonical text of a variant gives back that variant, and
/// nothing else: `parse(to_string(parse(s))) == parse(s)` for every text `s`
/// that parses.
pub proof fn lemma_round_trip(m: VariantModel)
    requires
        in_range(m),
    ensures
        spells(text_of(m), m),
        forall|n: VariantModel| spells(text_of(m), n) ==> n == m,
{
    let d = decimal(m.pos);
    let rt = token_text(m.refs);
    let at = token_text(m.alts);
    lemma_decimal(m.pos);
    lemma_token_text(m.refs);
    lemma_token_text(m.alts);
    let s = text_of(m);
    assert(split_into(s, m, d, rt, at));
    assert forall|n: VariantModel| spells(s, n) implies n == m by {
        lemma_spells_unique(s, m, n);
    }
}

/// A single-locus variant: chromosome, 1-based start, expected reference and
/// alternate sequences.
#[derive(Debug)]
pub struct Variant {
    chrom: String,
    pos: u32,
    refs: Vec<Base>,
    alts: Vec<Base>,
}

impl View for Variant {
    type V = VariantModel;

    closed spec fn view(&self) -> VariantModel {
        VariantModel {
            chrom: self.chrom@,
            pos: self.pos as nat,
            refs: self.refs@,
            alts: self.alts@,
        }
    }
}

impl PartialEq for Variant {
    fn eq(&self, o: &Variant) -> (r: bool) {
        self.chrom == o.chrom && self.pos == o.pos && compare(self.refs.as_slice(), o.refs.as_slice())
            == Ordering::Equ && compare(self.alts.as_slice(), o.alts.as_slice()) == Ordering::Equ
    }
}

impl vstd::std_specs::cmp::PartialEqSpecImpl for Variant {
    open spec fn obeys_eq_spec() -> bool {
        true
    }

    open spec fn eq_spec(&self, o: &Variant) -> bool {
        self@ == o@
    }
}

fn word_char(c: char) -> (r: bool)
    ensures
        r == is_word_char(c),
{
    (word_class(c) || c == '.' || c == '-') && c != ':'
}

/// The end of the run of name characters at the start of `v`.
fn name_end(v: &str) -> (i: usize)
    ensures
        i <= v@.len(),
        forall|x: int| 0 <= x < i ==> #[trigger] is_word_char(v@[x]),
        i == v@.len() || !is_word_char(v@[i as int]),
{
    let n = v.unicode_len();
    let mut i: usize = 0;
    while i < n && word_char(v.get_char(i))
        invariant
            n == v@.len(),
            i <= n,
            forall|x: int| 0 <= x < i ==> #[trigger] is_word_char(v@[x]),
        decreases n - i,
    {
        i = i + 1;
    }
    i
}

fn digit_char_test(c: char) -> (r: bool)
    ensures
        r == is_digit(c),
{
    '0' <= c && c <= '9'
}

/// The end of the run of digits in `v` that starts at `from`.
fn digits_end(v: &str, from: usize) -> (j: usize)
    requires
        from <= v@.len(),
    ensures
        from <= j <= v@.len(),
        forall|x: int| from <= x < j ==> #[trigger] is_digit(v@[x]),
        j == v@.len() || !is_digit(v@[j as int]),
{
    let n = v.unicode_len();
    let mut j: usize = from;
    while j < n && digit_char_test(v.get_char(j))
        invariant
            n == v@.len(),
            from <= j <= n,
            forall|x: int| from <= x < j ==> #[trigger] is_digit(v@[x]),
        decreases n - j,
    {
        j = j + 1;
    }
    j
}

/// The first `>` in `v` at or after `from`, or the length of `v`.
fn find_gt(v: &str, from: usize) -> (k: usize)
    requires
        from <= v@.len(),
    ensures
        from <= k <= v@.len(),
        forall|x: int| from <= x < k ==> #[trigger] v@[x] != '>',
        k == v@.len() || v@[k as int] == '>',
{
    let n = v.unicode_len();
    let mut k: usize = from;
    while k < n && v.get_char(k) != '>'
        invariant
            n == v@.len(),
            from <= k <= n,
            forall|x: int| from <= x < k ==> #[trigger] v@[x] != '>',
        decreases n - k,
    {
        k = k + 1;
    }
    k
}

/// The value of the digits `v[from..to]`, or `2^32` when it exceeds `u32::MAX`.
fn numeral_value(v: &str, from: usize, to: usize) -> (r: u64)
    requires
        from <= to <= v@.len(),
        forall|x: int| from <= x < to ==> #[trigger] is_digit(v@[x]),
    ensures
        decimal_value(v@.subrange(from as int, to as int)) <= u32::MAX ==> r == decimal_value(
            v@.subrange(from as int, to as int),
        ),
        decimal_value(v@.subrange(from as int, to as int)) > u32::MAX ==> r == 4294967296,
{
    let mut acc: u64 = 0;
    let mut x: usize = from;
    proof {
        assert(v@.subrange(from as int, from as int) =~= Seq::<char>::empty());
    }
    while x < to
        invariant
            from <= x <= to <= v@.len(),
            forall|y: int| from <= y < to ==> #[trigger] is_digit(v@[y]),
            decimal_value(v@.subrange(from as int, x as int)) <= u32::MAX ==> acc == decimal_value(
                v@.subrange(from as int, x as int),
            ),
            decimal_value(v@.subrange(from as int, x as int)) > u32::MAX ==> acc == 4294967296,
        decreases to - x,
    {
        let c = v.get_char(x);
        proof {
            assert(is_digit(v@[x as int]));
        }
        let dgt = ((c as u32) - 48) as u64;
        proof {
            let p = v@.subrange(from as int, x as int + 1);
            assert(p.drop_last() =~= v@.subrange(from as int, x as int));
            assert(p.last() == c);
        }
        if acc <= 4294967295 {
            let t = acc * 10 + dgt;
            acc = if t > 4294967295 {
                4294967296
            } else {
                t
            };
        }
        x = x + 1;
    }
    acc
}

/// Appends the decimal digits of `n` to `s`.
fn push_decimal(s: &mut String, n: u32)
    ensures
        final(s)@ == old(s)@ + decimal(n as nat),
    decreases n,
{
    if n >= 10 {
        push_decimal(s, n / 10);
    }
    let d = n % 10;
    let digits = "0123456789";
    proof {
        reveal_strlit("0123456789");
    }
    let t = digits.substring_char(d as usize, d as usize + 1);
    proof {
        assert(digits@[d as int] == digit_char(d as nat));
        assert(t@ =~= seq![digit_char(d as nat)]);
    }
    s.append(t);
    proof {
        if n >= 10 {
            assert(decimal(n as nat) == decimal((n / 10) as nat).push(digit_char(d as nat)));
        }
        assert(final(s)@ =~= old(s)@ + decimal(n as nat));
    }
}

/// The canonical text of an allele.
fn allele_text(bs: &Vec<Base>) -> (r: String)
    ensures
        r@ == token_text(bs@),
{
    if bs.len() == 0 {
        proof {
            reveal_strlit("-");
        }
        return String::from_str("-");
    }
    let mut s = String::new();
    let mut i: usize = 0;
    while i < bs.len()
        invariant
            i <= bs@.len(),
            s@ == bs@.subrange(0, i as int).map_values(|b: Base| base_char(b)),
        decreases bs@.len() - i,
    {
        let t = bs[i].stringify();
        s.append(t.as_str());
        proof {
            assert(bs@.subrange(0, i + 1).map_values(|b: Base| base_char(b)) =~= bs@.subrange(
                0,
                i as int,
            ).map_values(|b: Base| base_char(b)) + seq![base_char(bs@[i as int])]);
        }
        i = i + 1;
    }
    proof {
        assert(bs@.subrange(0, bs@.len() as int) =~= bs@);
    }
    s
}

impl Variant {
    #[verifier::type_invariant]
    spec fn well_formed(self) -> bool {
        in_range(self@)
    }

    /// Parses a variant written `CHROM:POS REF>ALT`, for example
    /// `chr1:12345AT>G` or `1:100A>-`.
    ///
    /// Fails with a parse error when the text is not of that form, or when the
    /// position is zero or the variant's end does not fit in 32 bits.
    pub fn try_parse(v: &str) -> (r: Result<Variant, Error>)
        ensures
            match r {
                Ok(x) => spells(v@, x@) && in_range(x@),
                Err(e) => e.kind == ErrorKind::Parse && forall|m: VariantModel|
                    spells(v@, m) ==> !in_range(m),
            },
    {
        let n = v.unicode_len();
        let i = name_end(v);
        if i == 0 || i >= n || v.get_char(i) != ':' {
            proof {
                assert forall|m: VariantModel| spells(v@, m) implies !in_range(m) by {
                    let (d, rt, at) = choose|d: Seq<char>, rt: Seq<char>, at: Seq<char>|
                        split_into(v@, m, d, rt, at);
                    lemma_split_facts(v@, m, d, rt, at);
                    let c = m.chrom.len() as int;
                    if (i as int) < c {
                        assert(is_word_char(v@[i as int]));
                    }
                    if c < i {
                        assert(is_word_char(v@[c]));
                    }
                }
            }
            return Err(err("Error parsing variant: expected a chromosome name and `:`."));
        }
        let j = digits_end(v, i + 1);
        proof {
            assert forall|m: VariantModel| spells(v@, m) implies m.chrom.len() == i by {
                let (d, rt, at) = choose|d: Seq<char>, rt: Seq<char>, at: Seq<char>|
                    split_into(v@, m, d, rt, at);
                lemma_split_facts(v@, m, d, rt, at);
                let c = m.chrom.len() as int;
                if (i as int) < c {
                    assert(is_word_char(v@[i as int]));
                }
                if c < i {
                    assert(is_word_char(v@[c]));
                }
            }
        }
        if j == i + 1 || j >= n {
            proof {
                assert forall|m: VariantModel| spells(v@, m) implies !in_range(m) by {
                    let (d, rt, at) = choose|d: Seq<char>, rt: Seq<char>, at: Seq<char>|
                        split_into(v@, m, d, rt, at);
                    lemma_split_facts(v@, m, d, rt, at);
                    let e = i + 1 + d.len();
                    if (j as int) < e {
                        assert(is_digit(v@[j as int]));
                    }
                    if e < j {
                        assert(is_digit(v@[e]));
                    }
                }
            }
            return Err(err("Error parsing variant: expected a position."));
        }
        let k = find_gt(v, j);
        if k == j || n - k <= 1 {
            proof {
                assert forall|m: VariantModel| spells(v@, m) implies !in_range(m) by {
                    let (d, rt, at) = choose|d: Seq<char>, rt: Seq<char>, at: Seq<char>|
                        split_into(v@, m, d, rt, at);
                    lemma_split_facts(v@, m, d, rt, at);
                    let e = j + rt.len();
                    if (k as int) < e {
                        assert(v@[k as int] != '>');
                    }
                    if e < k {
                        assert(v@[e] != '>');
                    }
                }
            }
            return Err(err("Error parsing variant: expected `REF>ALT`."));
        }
        proof {
            assert forall|m: VariantModel| spells(v@, m) implies m.chrom.len() == i
                && split_into(
                v@,
                m,
                v@.subrange(i + 1, j as int),
                v@.subrange(j as int, k as int),
                v@.subrange(k + 1, n as int),
            ) by {
                let (d, rt, at) = choose|d: Seq<char>, rt: Seq<char>, at: Seq<char>|
                    split_into(v@, m, d, rt, at);
                lemma_split_facts(v@, m, d, rt, at);
                let e = j + rt.len();
                if (k as int) < e {
                    assert(v@[k as int] != '>');
                }
                if e < k {
                    assert(v@[e] != '>');
                }
            }
        }
        let refs = match Base::try_parse(v.substring_char(j, k)) {
            Ok(b) => b,
            Err(_) => {
                return Err(err("Error parsing variant: invalid reference allele."));
            },
        };
        let alts = match Base::try_parse(v.substring_char(k + 1, n)) {
            Ok(b) => b,
            Err(_) => {
                return Err(err("Error parsing variant: invalid alternate allele."));
            },
        };
        let value = numeral_value(v, i + 1, j);
        let fits = if refs.len() > 0 {
            1 <= value && value <= 4294967295 && (refs.len() as u64) - 1 <= 4294967295 - value
        } else {
            1 <= value && value + 1 <= 4294967295
        };
        if !fits {
            return Err(err("Error parsing variant: position out of range."));
        }
        let chrom = String::from_str(v.substring_char(0, i));
        let r = Variant { chrom, pos: value as u32, refs, alts };
        proof {
            let d = v@.subrange(i + 1, j as int);
            let rt = v@.subrange(j as int, k as int);
            let at = v@.subrange(k + 1, n as int);
            assert(v@ =~= r@.chrom + seq![':'] + d + rt + seq!['>'] + at);
            assert(split_into(v@, r@, d, rt, at));
        }
        Ok(r)
    }

    /// Reference chromosome.
    pub fn chrom(&self) -> (r: &String)
        ensures
            r@ == self@.chrom,
    {
        &self.chrom
    }

    /// Reference start position, 1-based.
    pub fn pos(&self) -> (r: u32)
        ensures
            r == self@.pos,
            r >= 1,
    {
        proof {
            use_type_invariant(self);
        }
        self.pos
    }

    /// The last reference position the variant covers.
    pub fn end(&self) -> (r: u32)
        ensures
            r == end_of(self@.pos, self@.refs.len()),
    {
        proof {
            use_type_invariant(self);
        }
        if self.refs.len() > 0 {
            self.pos + ((self.refs.len() - 1) as u32)
        } else {
            self.pos + 1
        }
    }

    /// Expected reference sequence.
    pub fn refs(&self) -> (r: &Vec<Base>)
        ensures
            r@ == self@.refs,
    {
        &self.refs
    }

    /// Expected alternate sequence.
    pub fn alts(&self) -> (r: &Vec<Base>)
        ensures
            r@ == self@.alts,
    {
        &self.alts
    }

    /// Reference sequence as text, `-` when empty.
    pub fn ref_str(&self) -> (r: String)
        ensures
            r@ == token_text(self@.refs),
    {
        allele_text(&self.refs)
    }

    /// Alternate sequence as text, `-` when empty.
    pub fn alt_str(&self) -> (r: String)
        ensures
            r@ == token_text(self@.alts),
    {
        allele_text(&self.alts)
    }

    /// Whether the variant is a deletion written with an empty alternate.
    pub fn is_abbr_deletion(&self) -> (r: bool)
        ensures
            r == (self@.alts.len() == 0),
    {
        self.alts.len() == 0
    }

    /// How an observed reference sequence relates to the expected one.
    pub fn ref_cmp(&self, v: &[Base]) -> (r: Ordering)
        ensures
            r == ordering_of(self@.refs, v@),
    {
        compare(self.refs.as_slice(), v)
    }

    /// How an observed alternate sequence relates to the expected one.
    pub fn alt_cmp(&self, v: &[Base]) -> (r: Ordering)
        ensures
            r == ordering_of(self@.alts, v@),
    {
        compare(self.alts.as_slice(), v)
    }

    /// The canonical text `CHROM:POS REF>ALT` of the variant.
    pub fn to_string(&self) -> (r: String)
        ensures
            r@ == text_of(self@),
    {
        let mut s = self.chrom.clone();
        proof {
            reveal_strlit(":");
            reveal_strlit(">");
        }
        s.append(":");
        push_decimal(&mut s, self.pos);
        let rt = self.ref_str();
        s.append(rt.as_str());
        s.append(">");
        let at = self.alt_str();
        s.append(at.as_str());
        s
    }
}

} // verus!
