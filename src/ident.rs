//! Job identifiers: 128-bit values whose text form is the canonical
//! hyphenated lower-case hexadecimal form.
use vstd::prelude::*;

verus! {

/// The four bits of `x` at hexadecimal digit `k`, counted from the most
/// significant digit.
pub open spec fn nibble(x: u128, k: int) -> u128 {
    (x >> ((4 * (31 - k)) as u128)) & 15u128
}

/// The lower-case hexadecimal digit of `v`, below sixteen.
pub open spec fn hex_char(v: u128) -> char {
    seq!['0', '1', '2', '3', '4', '5', '6', '7', '8', '9', 'a', 'b', 'c', 'd', 'e', 'f'][v as int]
}

/// How many hyphens stand before position `p` of the hyphenated form.
pub open spec fn hyphens_before(p: int) -> int {
    if p < 8 {
        0
    } else if p < 13 {
        1
    } else if p < 18 {
        2
    } else if p < 23 {
        3
    } else {
        4
    }
}

/// Whether position `p` of the hyphenated form holds a hyphen.
pub open spec fn is_hyphen_position(p: int) -> bool {
    p == 8 || p == 13 || p == 18 || p == 23
}

/// The canonical text of an identifier: its 32 hexadecimal digits, most
/// significant first, in groups of 8, 4, 4, 4 and 12 joined by hyphens.
pub open spec fn hyphenated(x: u128) -> Seq<char> {
    Seq::new(
        36,
        |p: int|
            if is_hyphen_position(p) {
                '-'
            } else {
                hex_char(nibble(x, p - hyphens_before(p)))
            },
    )
}

/// What the identifier parser makes of a text that is not a canonical form.
pub uninterp spec fn parsed_uuid(s: Seq<char>) -> Option<u128>;

/// The identifier that a text denotes: the value whose canonical form it is,
/// and otherwise whatever the identifier parser accepts it as.
pub open spec fn job_id_of(s: Seq<char>) -> Option<u128> {
    if exists|x: u128| hyphenated(x) == s {
        Some(choose|x: u128| hyphenated(x) == s)
    } else {
        parsed_uuid(s)
    }
}

proof fn lemma_nibbles_determine(x: u128, y: u128)
    requires
        forall|k: int| 0 <= k < 32 ==> nibble(x, k) == nibble(y, k),
    ensures
        x == y,
{
    assert(nibble(x, 0) == nibble(y, 0));
    assert(nibble(x, 1) == nibble(y, 1));
    assert(nibble(x, 2) == nibble(y, 2));
    assert(nibble(x, 3) == nibble(y, 3));
    assert(nibble(x, 4) == nibble(y, 4));
    assert(nibble(x, 5) == nibble(y, 5));
    assert(nibble(x, 6) == nibble(y, 6));
    assert(nibble(x, 7) == nibble(y, 7));
    assert(nibble(x, 8) == nibble(y, 8));
    assert(nibble(x, 9) == nibble(y, 9));
    assert(nibble(x, 10) == nibble(y, 10));
    assert(nibble(x, 11) == nibble(y, 11));
    assert(nibble(x, 12) == nibble(y, 12));
    assert(nibble(x, 13) == nibble(y, 13));
    assert(nibble(x, 14) == nibble(y, 14));
    assert(nibble(x, 15) == nibble(y, 15));
    assert(nibble(x, 16) == nibble(y, 16));
    assert(nibble(x, 17) == nibble(y, 17));
    assert(nibble(x, 18) == nibble(y, 18));
    assert(nibble(x, 19) == nibble(y, 19));
    assert(nibble(x, 20) == nibble(y, 20));
    assert(nibble(x, 21) == nibble(y, 21));
    assert(nibble(x, 22) == nibble(y, 22));
    assert(nibble(x, 23) == nibble(y, 23));
    assert(nibble(x, 24) == nibble(y, 24));
    assert(nibble(x, 25) == nibble(y, 25));
    assert(nibble(x, 26) == nibble(y, 26));
    assert(nibble(x, 27) == nibble(y, 27));
    assert(nibble(x, 28) == nibble(y, 28));
    assert(nibble(x, 29) == nibble(y, 29));
    assert(nibble(x, 30) == nibble(y, 30));
    assert(nibble(x, 31) == nibble(y, 31));
    assert(x == y) by (bit_vector)
        requires
            (x >> 124u128) & 15u128 == (y >> 124u128) & 15u128,
            (x >> 120u128) & 15u128 == (y >> 120u128) & 15u128,
            (x >> 116u128) & 15u128 == (y >> 116u128) & 15u128,
            (x >> 112u128) & 15u128 == (y >> 112u128) & 15u128,
            (x >> 108u128) & 15u128 == (y >> 108u128) & 15u128,
            (x >> 104u128) & 15u128 == (y >> 104u128) & 15u128,
            (x >> 100u128) & 15u128 == (y >> 100u128) & 15u128,
            (x >> 96u128) & 15u128 == (y >> 96u128) & 15u128,
            (x >> 92u128) & 15u128 == (y >> 92u128) & 15u128,
            (x >> 88u128) & 15u128 == (y >> 88u128) & 15u128,
            (x >> 84u128) & 15u128 == (y >> 84u128) & 15u128,
            (x >> 80u128) & 15u128 == (y >> 80u128) & 15u128,
            (x >> 76u128) & 15u128 == (y >> 76u128) & 15u128,
            (x >> 72u128) & 15u128 == (y >> 72u128) & 15u128,
            (x >> 68u128) & 15u128 == (y >> 68u128) & 15u128,
            (x >> 64u128) & 15u128 == (y >> 64u128) & 15u128,
            (x >> 60u128) & 15u128 == (y >> 60u128) & 15u128,
            (x >> 56u128) & 15u128 == (y >> 56u128) & 15u128,
            (x >> 52u128) & 15u128 == (y >> 52u128) & 15u128,
            (x >> 48u128) & 15u128 == (y >> 48u128) & 15u128,
            (x >> 44u128) & 15u128 == (y >> 44u128) & 15u128,
            (x >> 40u128) & 15u128 == (y >> 40u128) & 15u128,
            (x >> 36u128) & 15u128 == (y >> 36u128) & 15u128,
            (x >> 32u128) & 15u128 == (y >> 32u128) & 15u128,
            (x >> 28u128) & 15u128 == (y >> 28u128) & 15u128,
            (x >> 24u128) & 15u128 == (y >> 24u128) & 15u128,
            (x >> 20u128) & 15u128 == (y >> 20u128) & 15u128,
            (x >> 16u128) & 15u128 == (y >> 16u128) & 15u128,
            (x >> 12u128) & 15u128 == (y >> 12u128) & 15u128,
            (x >> 8u128) & 15u128 == (y >> 8u128) & 15u128,
            (x >> 4u128) & 15u128 == (y >> 4u128) & 15u128,
            (x >> 0u128) & 15u128 == (y >> 0u128) & 15u128,
    ;
}

proof fn lemma_low_bits(v: u128)
    ensures
        v & 15u128 < 16,
{
    assert(v & 15u128 < 16) by (bit_vector);
}

/// Two identifiers with the same canonical text are equal.
pub proof fn lemma_hyphenated_injective(x: u128, y: u128)
    requires
        hyphenated(x) == hyphenated(y),
    ensures
        x == y,
{
    assert forall|k: int| 0 <= k < 32 implies nibble(x, k) == nibble(y, k) by {
        let p = if k < 8 {
            k
        } else if k < 12 {
            k + 1
        } else if k < 16 {
            k + 2
        } else if k < 20 {
            k + 3
        } else {
            k + 4
        };
        assert(hyphenated(x)[p] == hyphenated(y)[p]);
        assert(0 <= p < 36);
        assert(p - hyphens_before(p) == k);
        assert(!is_hyphen_position(p));
        assert(hyphenated(x)[p] == hex_char(nibble(x, k)));
        assert(hyphenated(y)[p] == hex_char(nibble(y, k)));
        lemma_low_bits(x >> ((4 * (31 - k)) as u128));
        lemma_low_bits(y >> ((4 * (31 - k)) as u128));
        lemma_hex_char_injective(nibble(x, k), nibble(y, k));
    }
    lemma_nibbles_determine(x, y);
}

proof fn lemma_hex_char_injective(a: u128, b: u128)
    requires
        a < 16,
        b < 16,
        hex_char(a) == hex_char(b),
    ensures
        a == b,
{
    let t = seq!['0', '1', '2', '3', '4', '5', '6', '7', '8', '9', 'a', 'b', 'c', 'd', 'e', 'f'];
    assert(forall|i: int, j: int| 0 <= i < 16 && 0 <= j < 16 && i != j ==> t[i] != t[j]);
}

/// The canonical text denotes the identifier it was made from.
pub proof fn lemma_job_id_of_hyphenated(x: u128)
    ensures
        job_id_of(hyphenated(x)) == Some(x),
{
    let s = hyphenated(x);
    assert(exists|y: u128| hyphenated(y) == s);
    let y = choose|y: u128| hyphenated(y) == s;
    lemma_hyphenated_injective(x, y);
}

/// Relies on uuid's `Uuid::from_u128` and its hyphenated `to_string`: the
/// value's sixteen bytes, most significant first, as hexadecimal digits in
/// the canonical groups.
#[verifier::external_body]
pub fn job_id_text(id: u128) -> (r: String)
    ensures
        r@ == hyphenated(id),
{
    uuid::Uuid::from_u128(id).hyphenated().to_string()
}

/// Relies on uuid's `Uuid::parse_str` and `as_u128`: a canonical text parses
/// to the value it was made from, and the outcome depends on the text alone.
#[verifier::external_body]
pub fn parse_job_id(s: &str) -> (r: Option<u128>)
    ensures
        (exists|x: u128| hyphenated(x) == s@) ==> r == Some(choose|x: u128| hyphenated(x) == s@),
        !(exists|x: u128| hyphenated(x) == s@) ==> r == parsed_uuid(s@),
{
    match uuid::Uuid::parse_str(s) {
        Ok(u) => Some(u.as_u128()),
        Err(_) => None,
    }
}

} // verus!
