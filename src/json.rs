//! The pieces of JSON text that the wire format is made of: literal tokens,
//! strings and unsigned integers, each with an encoder, a decoder, and the
//! proof that decoding what was encoded gives the value back.
use vstd::prelude::*;
use vstd::utf8::*;

verus! {

broadcast use {vstd::utf8::encode_utf8_valid_utf8, vstd::utf8::encode_utf8_decode_utf8};

pub const QUOTE: u8 = 34;

pub const BACKSLASH: u8 = 92;

/// Whether `b` holds `lit` from position `i` on.
pub open spec fn holds_at(b: Seq<u8>, i: int, lit: Seq<u8>) -> bool {
    0 <= i && i + lit.len() <= b.len() && b.subrange(i, i + lit.len()) == lit
}

/// The position after `lit`, if `b` holds it at `i`.
pub open spec fn skip(b: Seq<u8>, i: int, lit: Seq<u8>) -> Option<int> {
    if holds_at(b, i, lit) {
        Some(i + lit.len())
    } else {
        None
    }
}

pub proof fn lemma_holds_at_index(b: Seq<u8>, i: int, lit: Seq<u8>, k: int)
    requires
        holds_at(b, i, lit),
        0 <= k < lit.len(),
    ensures
        b[i + k] == lit[k],
{
    assert(b.subrange(i, i + lit.len())[k] == lit[k]);
}

pub proof fn lemma_holds_at_concat(b: Seq<u8>, i: int, x: Seq<u8>, y: Seq<u8>)
    ensures
        holds_at(b, i, x + y) <==> (holds_at(b, i, x) && holds_at(b, i + x.len(), y)),
{
    if holds_at(b, i, x + y) {
        assert forall|k: int| 0 <= k < x.len() implies b.subrange(i, i + x.len())[k] == x[k] by {
            lemma_holds_at_index(b, i, x + y, k);
        }
        assert(b.subrange(i, i + x.len()) =~= x);
        assert forall|k: int| 0 <= k < y.len() implies b.subrange(
            i + x.len(),
            i + x.len() + y.len(),
        )[k] == y[k] by {
            lemma_holds_at_index(b, i, x + y, x.len() + k);
        }
        assert(b.subrange(i + x.len(), i + x.len() + y.len()) =~= y);
    }
    if holds_at(b, i, x) && holds_at(b, i + x.len(), y) {
        assert forall|k: int| 0 <= k < (x + y).len() implies b.subrange(
            i,
            i + (x + y).len(),
        )[k] == (x + y)[k] by {
            if k < x.len() {
                lemma_holds_at_index(b, i, x, k);
            } else {
                lemma_holds_at_index(b, i + x.len(), y, k - x.len());
            }
        }
        assert(b.subrange(i, i + (x + y).len()) =~= x + y);
    }
}

/// The position after `lit`, if `b` holds it at `i`.
pub fn expect(b: &[u8], i: usize, lit: &[u8]) -> (r: Option<usize>)
    ensures
        match r {
            Some(j) => skip(b@, i as int, lit@) == Some(j as int),
            None => skip(b@, i as int, lit@) is None,
        },
{
    if i > b.len() || lit.len() > b.len() - i {
        return None;
    }
    let mut k: usize = 0;
    while k < lit.len()
        invariant
            k <= lit.len(),
            i + lit.len() <= b.len(),
            forall|m: int| 0 <= m < k ==> b@[i + m] == lit@[m],
        decreases lit.len() - k,
    {
        if b[i + k] != lit[k] {
            proof {
                assert(b@.subrange(i as int, i + lit@.len())[k as int] == b@[i + k]);
            }
            return None;
        }
        k = k + 1;
    }
    proof {
        assert(b@.subrange(i as int, i + lit@.len()) =~= lit@);
    }
    Some(i + lit.len())
}

/// The position after the byte `c`, if `b` holds it at `i`.
pub fn expect_byte(b: &[u8], i: usize, c: u8) -> (r: Option<usize>)
    ensures
        match r {
            Some(j) => skip(b@, i as int, seq![c]) == Some(j as int),
            None => skip(b@, i as int, seq![c]) is None,
        },
{
    if i < b.len() && b[i] == c {
        proof {
            assert(b@.subrange(i as int, i + 1) =~= seq![c]);
        }
        Some(i + 1)
    } else {
        proof {
            if holds_at(b@, i as int, seq![c]) {
                lemma_holds_at_index(b@, i as int, seq![c], 0);
            }
        }
        None
    }
}

/// Appends `lit` to `out`.
pub fn push_all(out: &mut Vec<u8>, lit: &[u8])
    ensures
        final(out)@ == old(out)@ + lit@,
{
    let mut k: usize = 0;
    while k < lit.len()
        invariant
            k <= lit.len(),
            out@ == old(out)@ + lit@.subrange(0, k as int),
        decreases lit.len() - k,
    {
        out.push(lit[k]);
        proof {
            assert(lit@.subrange(0, k + 1) =~= lit@.subrange(0, k as int).push(lit@[k as int]));
        }
        k = k + 1;
    }
    proof {
        assert(lit@.subrange(0, lit@.len() as int) =~= lit@);
    }
}

/// The lower-case hexadecimal digit of `v`, below sixteen.
pub open spec fn hex_digit(v: u8) -> u8 {
    if v < 10 {
        (48 + v) as u8
    } else {
        (87 + v) as u8
    }
}

/// The value of a hexadecimal digit of either case.
pub open spec fn hex_value(c: u8) -> Option<u8> {
    if 48 <= c <= 57 {
        Some((c - 48) as u8)
    } else if 97 <= c <= 102 {
        Some((c - 87) as u8)
    } else if 65 <= c <= 70 {
        Some((c - 55) as u8)
    } else {
        None
    }
}

/// How one byte of a string's UTF-8 encoding is written between quotes:
/// quote and backslash behind a backslash, the usual short escapes, the other
/// control bytes as `\u00xx`, and every other byte as itself.
pub open spec fn escape_byte(c: u8) -> Seq<u8> {
    if c == QUOTE {
        seq![BACKSLASH, QUOTE]
    } else if c == BACKSLASH {
        seq![BACKSLASH, BACKSLASH]
    } else if c == 8 {
        seq![BACKSLASH, 98u8]
    } else if c == 9 {
        seq![BACKSLASH, 116u8]
    } else if c == 10 {
        seq![BACKSLASH, 110u8]
    } else if c == 12 {
        seq![BACKSLASH, 102u8]
    } else if c == 13 {
        seq![BACKSLASH, 114u8]
    } else if c < 32 {
        seq![BACKSLASH, 117u8, 48u8, 48u8, hex_digit(c / 16), hex_digit(c % 16)]
    } else {
        seq![c]
    }
}

/// The escaped form of a byte string.
pub open spec fn escape(s: Seq<u8>) -> Seq<u8>
    decreases s.len(),
{
    if s.len() == 0 {
        Seq::empty()
    } else {
        escape_byte(s[0]) + escape(s.drop_first())
    }
}

/// A string as JSON text: its UTF-8 bytes, escaped, between quotes.
pub open spec fn enc_text(t: Seq<char>) -> Seq<u8> {
    seq![QUOTE] + escape(encode_utf8(t)) + seq![QUOTE]
}

/// The byte that the escape sequence at `i` stands for, and the position after it.
pub open spec fn unescape_at(b: Seq<u8>, i: int) -> Option<(u8, int)> {
    if i < 0 || i + 1 >= b.len() || b[i] != BACKSLASH {
        None
    } else {
        let e = b[i + 1];
        if e == QUOTE || e == BACKSLASH || e == 47 {
            Some((e, i + 2))
        } else if e == 98 {
            Some((8u8, i + 2))
        } else if e == 116 {
            Some((9u8, i + 2))
        } else if e == 110 {
            Some((10u8, i + 2))
        } else if e == 102 {
            Some((12u8, i + 2))
        } else if e == 114 {
            Some((13u8, i + 2))
        } else if e == 117 && i + 5 < b.len() && b[i + 2] == 48 && b[i + 3] == 48 && 48 <= b[i
            + 4] <= 55 && hex_value(b[i + 5]) is Some {
            Some((((b[i + 4] - 48) * 16 + hex_value(b[i + 5])->0) as u8, i + 6))
        } else {
            None
        }
    }
}

/// The bytes of the string body that starts at `i`, up to its closing quote,
/// and the position after that quote.
pub open spec fn body_at(b: Seq<u8>, i: int) -> Option<(Seq<u8>, int)>
    decreases b.len() - i,
{
    if i < 0 || i >= b.len() {
        None
    } else if b[i] == QUOTE {
        Some((Seq::empty(), i + 1))
    } else if b[i] == BACKSLASH {
        match unescape_at(b, i) {
            Some((c, j)) => if j > i {
                match body_at(b, j) {
                    Some((r, k)) => Some((seq![c] + r, k)),
                    None => None,
                }
            } else {
                None
            },
            None => None,
        }
    } else if b[i] < 32 {
        None
    } else {
        match body_at(b, i + 1) {
            Some((r, k)) => Some((seq![b[i]] + r, k)),
            None => None,
        }
    }
}

/// The string whose JSON text starts at `i`, and the position after it.
pub open spec fn text_at(b: Seq<u8>, i: int) -> Option<(Seq<char>, int)> {
    match skip(b, i, seq![QUOTE]) {
        Some(j) => match body_at(b, j) {
            Some((c, k)) => if valid_utf8(c) {
                Some((decode_utf8(c), k))
            } else {
                None
            },
            None => None,
        },
        None => None,
    }
}

pub proof fn lemma_escape_push(s: Seq<u8>, c: u8)
    ensures
        escape(s.push(c)) == escape(s) + escape_byte(c),
    decreases s.len(),
{
    if s.len() == 0 {
        let sp = s.push(c);
        assert(sp.drop_first() =~= Seq::<u8>::empty());
        assert(sp[0] == c);
        assert(escape(sp.drop_first()) == Seq::<u8>::empty());
        assert(escape(sp) == escape_byte(c) + escape(sp.drop_first()));
        assert(escape(sp) =~= escape(s) + escape_byte(c));
    } else {
        let sp = s.push(c);
        assert(sp.drop_first() =~= s.drop_first().push(c));
        assert(sp[0] == s[0]);
        lemma_escape_push(s.drop_first(), c);
        assert(escape(sp) == escape_byte(s[0]) + escape(sp.drop_first()));
        assert(escape(s) == escape_byte(s[0]) + escape(s.drop_first()));
        assert(escape(sp) =~= escape(s) + escape_byte(c));
    }
}

proof fn lemma_escape_byte_decodes(b: Seq<u8>, i: int, c: u8, rest: Seq<u8>)
    requires
        holds_at(b, i, escape_byte(c) + rest),
    ensures
        c == QUOTE || c == BACKSLASH || c < 32 ==> b[i] == BACKSLASH && unescape_at(b, i) == Some(
            (c, i + escape_byte(c).len()),
        ),
        !(c == QUOTE || c == BACKSLASH || c < 32) ==> b[i] == c && escape_byte(c).len() == 1,
        escape_byte(c).len() > 0,
{
    lemma_holds_at_concat(b, i, escape_byte(c), rest);
    let e = escape_byte(c);
    assert forall|k: int| 0 <= k < e.len() implies b[i + k] == e[k] by {
        lemma_holds_at_index(b, i, e, k);
    }
    lemma_holds_at_index(b, i, e, 0);
    if c < 32 && c != 8 && c != 9 && c != 10 && c != 12 && c != 13 {
        assert(c / 16 < 2);
        assert(hex_value(hex_digit(c % 16)) == Some((c % 16) as u8));
        assert((c / 16) * 16 + c % 16 == c);
    }
}

/// Decoding the escaped bytes of `s` followed by a quote gives `s` back.
pub proof fn lemma_body_round_trip(b: Seq<u8>, i: int, s: Seq<u8>)
    requires
        holds_at(b, i, escape(s) + seq![QUOTE]),
    ensures
        body_at(b, i) == Some((s, i + escape(s).len() + 1)),
    decreases s.len(),
{
    if s.len() == 0 {
        lemma_holds_at_index(b, i, escape(s) + seq![QUOTE], 0);
    } else {
        let c = s[0];
        let t = s.drop_first();
        assert(escape(s) + seq![QUOTE] =~= escape_byte(c) + (escape(t) + seq![QUOTE]));
        lemma_escape_byte_decodes(b, i, c, escape(t) + seq![QUOTE]);
        lemma_holds_at_concat(b, i, escape_byte(c), escape(t) + seq![QUOTE]);
        lemma_body_round_trip(b, i + escape_byte(c).len(), t);
        assert(seq![c] + t =~= s);
    }
}

/// Decoding the JSON text of a string gives the string back.
pub proof fn lemma_text_round_trip(b: Seq<u8>, i: int, t: Seq<char>)
    requires
        holds_at(b, i, enc_text(t)),
    ensures
        text_at(b, i) == Some((t, i + enc_text(t).len())),
{
    let e = escape(encode_utf8(t));
    lemma_holds_at_concat(b, i, seq![QUOTE], e + seq![QUOTE]);
    assert(enc_text(t) =~= seq![QUOTE] + (e + seq![QUOTE]));
    lemma_body_round_trip(b, i + 1, encode_utf8(t));
}

/// Relies on `String::from_utf8`: it accepts exactly the valid UTF-8 byte
/// strings, and the string it returns has those bytes.
#[verifier::external_body]
fn text_from_utf8(bytes: Vec<u8>) -> (r: Option<String>)
    ensures
        match r {
            Some(s) => valid_utf8(bytes@) && s@ == decode_utf8(bytes@),
            None => !valid_utf8(bytes@),
        },
{
    String::from_utf8(bytes).ok()
}

fn hex_char(v: u8) -> (r: u8)
    requires
        v < 16,
    ensures
        r == hex_digit(v),
{
    if v < 10 {
        48 + v
    } else {
        87 + v
    }
}

fn hex_val(c: u8) -> (r: Option<u8>)
    ensures
        r == hex_value(c),
{
    if 48 <= c && c <= 57 {
        Some(c - 48)
    } else if 97 <= c && c <= 102 {
        Some(c - 87)
    } else if 65 <= c && c <= 70 {
        Some(c - 55)
    } else {
        None
    }
}

/// Appends the escaped form of the byte `c`.
pub fn push_escaped_byte(out: &mut Vec<u8>, c: u8)
    ensures
        final(out)@ == old(out)@ + escape_byte(c),
{
    if c == QUOTE || c == BACKSLASH {
        out.push(BACKSLASH);
        out.push(c);
    } else if c == 8 {
        out.push(BACKSLASH);
        out.push(98);
    } else if c == 9 {
        out.push(BACKSLASH);
        out.push(116);
    } else if c == 10 {
        out.push(BACKSLASH);
        out.push(110);
    } else if c == 12 {
        out.push(BACKSLASH);
        out.push(102);
    } else if c == 13 {
        out.push(BACKSLASH);
        out.push(114);
    } else if c < 32 {
        out.push(BACKSLASH);
        out.push(117);
        out.push(48);
        out.push(48);
        out.push(hex_char(c / 16));
        out.push(hex_char(c % 16));
    } else {
        out.push(c);
    }
    proof {
        assert(final(out)@ =~= old(out)@ + escape_byte(c));
    }
}

/// Appends the JSON text of the string `s`.
pub fn push_text(out: &mut Vec<u8>, s: &str)
    ensures
        final(out)@ == old(out)@ + enc_text(s@),
{
    let bytes = s.as_bytes();
    proof {
        assert(bytes@ == encode_utf8(s@));
    }
    out.push(QUOTE);
    let mut k: usize = 0;
    while k < bytes.len()
        invariant
            k <= bytes@.len(),
            bytes@ == encode_utf8(s@),
            out@ == old(out)@ + seq![QUOTE] + escape(bytes@.subrange(0, k as int)),
        decreases bytes.len() - k,
    {
        push_escaped_byte(out, bytes[k]);
        proof {
            assert(bytes@.subrange(0, k + 1) =~= bytes@.subrange(0, k as int).push(bytes@[k as int]));
            lemma_escape_push(bytes@.subrange(0, k as int), bytes@[k as int]);
        }
        k = k + 1;
    }
    out.push(QUOTE);
    proof {
        assert(bytes@.subrange(0, bytes@.len() as int) =~= bytes@);
        assert(final(out)@ =~= old(out)@ + enc_text(s@));
    }
}

fn unescape(b: &[u8], i: usize) -> (r: Option<(u8, usize)>)
    ensures
        r == (match unescape_at(b@, i as int) {
            Some((c, j)) => Some((c, j as usize)),
            None => None,
        }),
{
    if i >= b.len() || b.len() - i < 2 || b[i] != BACKSLASH {
        return None;
    }
    let e = b[i + 1];
    if e == QUOTE || e == BACKSLASH || e == 47 {
        Some((e, i + 2))
    } else if e == 98 {
        Some((8, i + 2))
    } else if e == 116 {
        Some((9, i + 2))
    } else if e == 110 {
        Some((10, i + 2))
    } else if e == 102 {
        Some((12, i + 2))
    } else if e == 114 {
        Some((13, i + 2))
    } else if e == 117 && b.len() - i > 5 && b[i + 2] == 48 && b[i + 3] == 48 && 48 <= b[i + 4]
        && b[i + 4] <= 55 {
        match hex_val(b[i + 5]) {
            Some(v) => Some(((b[i + 4] - 48) * 16 + v, i + 6)),
            None => None,
        }
    } else {
        None
    }
}

/// `acc` put in front of the bytes of a body result.
pub open spec fn prefixed(acc: Seq<u8>, r: Option<(Seq<u8>, int)>) -> Option<(Seq<u8>, int)> {
    match r {
        Some((s, k)) => Some((acc + s, k)),
        None => None,
    }
}

proof fn lemma_prefixed_step(acc: Seq<u8>, c: u8, r: Option<(Seq<u8>, int)>)
    ensures
        prefixed(acc, prefixed(seq![c], r)) == prefixed(acc.push(c), r),
{
    if let Some((s, k)) = r {
        assert(acc + (seq![c] + s) =~= acc.push(c) + s);
    }
}

/// The string whose JSON text starts at `i`, and the position after it.
pub fn read_text(b: &[u8], i: usize) -> (r: Option<(String, usize)>)
    ensures
        match r {
            Some((s, j)) => text_at(b@, i as int) == Some((s@, j as int)),
            None => text_at(b@, i as int) is None,
        },
{
    let start = match expect_byte(b, i, QUOTE) {
        Some(j) => j,
        None => return None,
    };
    let mut j: usize = start;
    let mut acc: Vec<u8> = Vec::new();
    proof {
        assert(skip(b@, i as int, seq![QUOTE]) == Some(start as int));
        assert(acc@ + Seq::<u8>::empty() =~= acc@);
        match body_at(b@, start as int) {
            Some((s, k)) => assert(Seq::<u8>::empty() + s =~= s),
            None => {},
        }
    }
    while j < b.len()
        invariant
            start <= j,
            skip(b@, i as int, seq![QUOTE]) == Some(start as int),
            prefixed(acc@, body_at(b@, j as int)) == body_at(b@, start as int),
        decreases b.len() - j,
    {
        let c = b[j];
        if c == QUOTE {
            let bytes = acc;
            proof {
                assert(body_at(b@, j as int) == Some((Seq::<u8>::empty(), j + 1)));
                assert(bytes@ + Seq::<u8>::empty() =~= bytes@);
                assert(body_at(b@, start as int) == Some((bytes@, j + 1)));
            }
            return match text_from_utf8(bytes) {
                Some(s) => Some((s, j + 1)),
                None => None,
            };
        } else if c == BACKSLASH {
            match unescape(b, j) {
                Some((d, k)) => {
                    proof {
                        lemma_prefixed_step(acc@, d, body_at(b@, k as int));
                    }
                    acc.push(d);
                    j = k;
                },
                None => return None,
            }
        } else if c < 32 {
            proof {
                assert(body_at(b@, j as int) is None);
            }
            return None;
        } else {
            proof {
                lemma_prefixed_step(acc@, c, body_at(b@, j + 1));
            }
            acc.push(c);
            j = j + 1;
        }
    }
    None
}

pub open spec fn is_digit(c: u8) -> bool {
    48 <= c <= 57
}

/// The decimal digits of `n`, without leading zeros.
pub open spec fn digits(n: nat) -> Seq<u8>
    decreases n,
{
    if n < 10 {
        seq![(48 + n) as u8]
    } else {
        digits(n / 10).push((48 + n % 10) as u8)
    }
}

/// The number that a run of decimal digits writes.
pub open spec fn digits_value(s: Seq<u8>) -> nat
    decreases s.len(),
{
    if s.len() == 0 {
        0
    } else {
        digits_value(s.drop_last()) * 10 + (s.last() - 48) as nat
    }
}

/// Where the run of digits that starts at `i` ends.
pub open spec fn digit_run_end(b: Seq<u8>, i: int) -> int
    decreases b.len() - i,
{
    if 0 <= i < b.len() && is_digit(b[i]) {
        digit_run_end(b, i + 1)
    } else {
        i
    }
}

/// The unsigned integer written at `i`, and the position after it.
pub open spec fn number_at(b: Seq<u8>, i: int) -> Option<(u64, int)> {
    let e = digit_run_end(b, i);
    if 0 <= i && e > i && digits_value(b.subrange(i, e)) <= u64::MAX {
        Some((digits_value(b.subrange(i, e)) as u64, e))
    } else {
        None
    }
}

pub open spec fn null_text() -> Seq<u8> {
    seq![110u8, 117u8, 108u8, 108u8]
}

/// An optional unsigned integer: `null` or its digits.
pub open spec fn enc_opt_number(v: Option<u64>) -> Seq<u8> {
    match v {
        Some(n) => digits(n as nat),
        None => null_text(),
    }
}

pub open spec fn opt_number_at(b: Seq<u8>, i: int) -> Option<(Option<u64>, int)> {
    if holds_at(b, i, null_text()) {
        Some((None, i + 4))
    } else {
        match number_at(b, i) {
            Some((n, j)) => Some((Some(n), j)),
            None => None,
        }
    }
}

proof fn lemma_digits(n: nat)
    ensures
        digits_value(digits(n)) == n,
        digits(n).len() > 0,
        forall|k: int| 0 <= k < digits(n).len() ==> is_digit(#[trigger] digits(n)[k]),
    decreases n,
{
    if n >= 10 {
        lemma_digits(n / 10);
        let d = digits(n / 10).push((48 + n % 10) as u8);
        assert(d == digits(n));
        assert(d.drop_last() =~= digits(n / 10));
        assert(d.last() == (48 + n % 10) as u8);
        assert(digits_value(d) == digits_value(digits(n / 10)) * 10 + (n % 10));
        assert(forall|k: int| 0 <= k < digits(n / 10).len() ==> d[k] == digits(n / 10)[k]);
    } else {
        let d = seq![(48 + n) as u8];
        assert(d == digits(n));
        assert(d.drop_last() =~= Seq::<u8>::empty());
        assert(digits_value(d) == digits_value(d.drop_last()) * 10 + n);
    }
}

proof fn lemma_run_end(b: Seq<u8>, i: int, e: int)
    requires
        0 <= i <= e <= b.len(),
        forall|k: int| i <= k < e ==> is_digit(b[k]),
        e == b.len() || !is_digit(b[e]),
    ensures
        digit_run_end(b, i) == e,
    decreases e - i,
{
    if i < e {
        lemma_run_end(b, i + 1, e);
    }
}

proof fn lemma_value_grows(s: Seq<u8>, m: int)
    requires
        0 <= m <= s.len(),
        forall|k: int| 0 <= k < s.len() ==> is_digit(s[k]),
    ensures
        digits_value(s.subrange(0, m)) <= digits_value(s),
    decreases s.len() - m,
{
    if m < s.len() {
        let t = s.drop_last();
        assert(t.subrange(0, m) =~= s.subrange(0, m));
        lemma_value_grows(t, m);
    } else {
        assert(s.subrange(0, m) =~= s);
    }
}

/// Decoding the digits of `n`, followed by a byte that is no digit, gives `n` back.
pub proof fn lemma_number_round_trip(b: Seq<u8>, i: int, n: u64)
    requires
        holds_at(b, i, digits(n as nat)),
        i + digits(n as nat).len() == b.len() || !is_digit(b[i + digits(n as nat).len()]),
    ensures
        number_at(b, i) == Some((n, i + digits(n as nat).len())),
{
    lemma_digits(n as nat);
    let d = digits(n as nat);
    let e = i + d.len();
    assert forall|k: int| i <= k < e implies is_digit(b[k]) by {
        lemma_holds_at_index(b, i, d, k - i);
    }
    lemma_run_end(b, i, e);
}

pub proof fn lemma_opt_number_round_trip(b: Seq<u8>, i: int, v: Option<u64>)
    requires
        holds_at(b, i, enc_opt_number(v)),
        i + enc_opt_number(v).len() == b.len() || !is_digit(b[i + enc_opt_number(v).len()]),
    ensures
        opt_number_at(b, i) == Some((v, i + enc_opt_number(v).len())),
{
    match v {
        Some(n) => {
            lemma_digits(n as nat);
            lemma_holds_at_index(b, i, digits(n as nat), 0);
            if holds_at(b, i, null_text()) {
                lemma_holds_at_index(b, i, null_text(), 0);
            }
            lemma_number_round_trip(b, i, n);
        },
        None => {},
    }
}

/// Appends the digits of `n`.
pub fn push_number(out: &mut Vec<u8>, n: u64)
    ensures
        final(out)@ == old(out)@ + digits(n as nat),
    decreases n,
{
    if n >= 10 {
        push_number(out, n / 10);
    }
    out.push(48 + (n % 10) as u8);
    proof {
        assert(final(out)@ =~= old(out)@ + digits(n as nat));
    }
}

/// Appends `null` or the digits of the number.
pub fn push_opt_number(out: &mut Vec<u8>, v: Option<u64>)
    ensures
        final(out)@ == old(out)@ + enc_opt_number(v),
{
    match v {
        Some(n) => push_number(out, n),
        None => {
            out.push(110);
            out.push(117);
            out.push(108);
            out.push(108);
            proof {
                assert(final(out)@ =~= old(out)@ + null_text());
            }
        },
    }
}

/// The unsigned integer written at `i`, and the position after it.
pub fn read_number(b: &[u8], i: usize) -> (r: Option<(u64, usize)>)
    ensures
        match r {
            Some((n, j)) => number_at(b@, i as int) == Some((n, j as int)),
            None => number_at(b@, i as int) is None,
        },
{
    let mut j: usize = i;
    let mut v: u64 = 0;
    if i > b.len() {
        return None;
    }
    while j < b.len() && 48 <= b[j] && b[j] <= 57
        invariant
            i <= j <= b.len(),
            forall|k: int| i <= k < j ==> is_digit(b@[k]),
            v as nat == digits_value(b@.subrange(i as int, j as int)),
            digit_run_end(b@, i as int) == digit_run_end(b@, j as int),
        decreases b.len() - j,
    {
        let d = b[j] - 48;
        let ghost next = b@.subrange(i as int, j + 1);
        proof {
            assert(next.drop_last() =~= b@.subrange(i as int, j as int));
        }
        if v > (u64::MAX - d as u64) / 10 {
            proof {
                assert(v * 10 + d > u64::MAX) by (nonlinear_arith)
                    requires
                        v > (u64::MAX - d as u64) / 10,
                        d < 10,
                ;
                let e = digit_run_end(b@, i as int);
                assert(digit_run_end(b@, j as int) == digit_run_end(b@, j + 1));
                lemma_run_end_bounds(b@, j + 1);
                assert forall|k: int| 0 <= k < e - i implies is_digit(
                    b@.subrange(i as int, e)[k],
                ) by {
                    if i + k >= j {
                        lemma_run_end_digits(b@, j as int, i + k);
                    }
                }
                assert(b@.subrange(i as int, e).subrange(0, j + 1 - i) =~= next);
                lemma_value_grows(b@.subrange(i as int, e), j + 1 - i);
            }
            return None;
        }
        v = v * 10 + d as u64;
        j = j + 1;
    }
    proof {
        lemma_run_end(b@, j as int, j as int);
    }
    if j == i {
        return None;
    }
    Some((v, j))
}

proof fn lemma_run_end_bounds(b: Seq<u8>, i: int)
    requires
        0 <= i <= b.len(),
    ensures
        i <= digit_run_end(b, i) <= b.len(),
    decreases b.len() - i,
{
    if i < b.len() && is_digit(b[i]) {
        lemma_run_end_bounds(b, i + 1);
    }
}

proof fn lemma_run_end_digits(b: Seq<u8>, i: int, k: int)
    requires
        0 <= i <= k < digit_run_end(b, i),
    ensures
        is_digit(b[k]),
    decreases b.len() - i,
{
    if i < b.len() && is_digit(b[i]) {
        if k > i {
            lemma_run_end_digits(b, i + 1, k);
        }
    }
}

/// Reads `null` or an unsigned integer.
pub fn read_opt_number(b: &[u8], i: usize) -> (r: Option<(Option<u64>, usize)>)
    ensures
        match r {
            Some((v, j)) => opt_number_at(b@, i as int) == Some((v, j as int)),
            None => opt_number_at(b@, i as int) is None,
        },
{
    let null: Vec<u8> = vec![110u8, 117u8, 108u8, 108u8];
    match expect(b, i, null.as_slice()) {
        Some(j) => Some((None, j)),
        None => match read_number(b, i) {
            Some((n, j)) => Some((Some(n), j)),
            None => None,
        },
    }
}

pub const COMMA: u8 = 44;

pub const OPEN_BRACKET: u8 = 91;

pub const CLOSE_BRACKET: u8 = 93;

/// Encoded elements, separated by commas.
pub open spec fn join(es: Seq<Seq<u8>>) -> Seq<u8>
    decreases es.len(),
{
    if es.len() == 0 {
        Seq::empty()
    } else if es.len() == 1 {
        es[0]
    } else {
        es[0] + seq![COMMA] + join(es.drop_first())
    }
}

/// Encoded elements as a JSON array.
pub open spec fn enc_array(es: Seq<Seq<u8>>) -> Seq<u8> {
    seq![OPEN_BRACKET] + join(es) + seq![CLOSE_BRACKET]
}

pub proof fn lemma_join_push(es: Seq<Seq<u8>>, e: Seq<u8>)
    ensures
        join(es.push(e)) == (if es.len() == 0 {
            e
        } else {
            join(es) + seq![COMMA] + e
        }),
    decreases es.len(),
{
    let ep = es.push(e);
    if es.len() == 0 {
        assert(ep[0] == e);
    } else if es.len() == 1 {
        assert(ep.drop_first() =~= seq![e]);
        assert(join(seq![e]) == e);
        assert(ep[0] == es[0]);
    } else {
        assert(ep.drop_first() =~= es.drop_first().push(e));
        lemma_join_push(es.drop_first(), e);
        assert(ep[0] == es[0]);
        assert(join(ep) =~= join(es) + seq![COMMA] + e);
    }
}

/// The encoded elements of a list of strings.
pub open spec fn text_elems(ts: Seq<Seq<char>>) -> Seq<Seq<u8>> {
    ts.map_values(|t: Seq<char>| enc_text(t))
}

/// A list of strings as a JSON array.
pub open spec fn enc_texts(ts: Seq<Seq<char>>) -> Seq<u8> {
    enc_array(text_elems(ts))
}

/// The strings of the non-empty array body that starts at `j`, and the
/// position after the closing bracket.
pub open spec fn text_items_at(b: Seq<u8>, j: int) -> Option<(Seq<Seq<char>>, int)>
    decreases b.len() - j,
{
    match text_at(b, j) {
        Some((t, k)) => if k <= j {
            None
        } else if holds_at(b, k, seq![COMMA]) {
            match text_items_at(b, k + 1) {
                Some((ts, m)) => Some((seq![t] + ts, m)),
                None => None,
            }
        } else if holds_at(b, k, seq![CLOSE_BRACKET]) {
            Some((seq![t], k + 1))
        } else {
            None
        },
        None => None,
    }
}

/// The list of strings whose JSON array starts at `i`, and the position after it.
pub open spec fn texts_at(b: Seq<u8>, i: int) -> Option<(Seq<Seq<char>>, int)> {
    if holds_at(b, i, seq![OPEN_BRACKET]) {
        if holds_at(b, i + 1, seq![CLOSE_BRACKET]) {
            Some((Seq::empty(), i + 2))
        } else {
            text_items_at(b, i + 1)
        }
    } else {
        None
    }
}

proof fn lemma_text_items_round_trip(b: Seq<u8>, j: int, ts: Seq<Seq<char>>)
    requires
        ts.len() > 0,
        holds_at(b, j, join(text_elems(ts)) + seq![CLOSE_BRACKET]),
    ensures
        text_items_at(b, j) == Some((ts, j + join(text_elems(ts)).len() + 1)),
    decreases ts.len(),
{
    let es = text_elems(ts);
    let t = ts[0];
    let e = enc_text(t);
    assert(es[0] == e);
    if ts.len() == 1 {
        lemma_holds_at_concat(b, j, e, seq![CLOSE_BRACKET]);
        lemma_text_round_trip(b, j, t);
        lemma_holds_at_index(b, j + e.len(), seq![CLOSE_BRACKET], 0);
        assert(!holds_at(b, j + e.len(), seq![COMMA])) by {
            if holds_at(b, j + e.len(), seq![COMMA]) {
                lemma_holds_at_index(b, j + e.len(), seq![COMMA], 0);
            }
        }
        assert(seq![t] =~= ts);
    } else {
        let rest = ts.drop_first();
        assert(es.drop_first() =~= text_elems(rest));
        let tail = join(text_elems(rest)) + seq![CLOSE_BRACKET];
        assert(join(es) + seq![CLOSE_BRACKET] =~= e + (seq![COMMA] + tail));
        lemma_holds_at_concat(b, j, e, seq![COMMA] + tail);
        lemma_holds_at_concat(b, j + e.len(), seq![COMMA], tail);
        lemma_text_round_trip(b, j, t);
        lemma_text_items_round_trip(b, j + e.len() + 1, rest);
        assert(seq![t] + rest =~= ts);
    }
}

/// Decoding the JSON array of a list of strings gives the list back.
pub proof fn lemma_texts_round_trip(b: Seq<u8>, i: int, ts: Seq<Seq<char>>)
    requires
        holds_at(b, i, enc_texts(ts)),
    ensures
        texts_at(b, i) == Some((ts, i + enc_texts(ts).len())),
{
    let es = text_elems(ts);
    assert(enc_texts(ts) =~= seq![OPEN_BRACKET] + (join(es) + seq![CLOSE_BRACKET]));
    lemma_holds_at_concat(b, i, seq![OPEN_BRACKET], join(es) + seq![CLOSE_BRACKET]);
    if ts.len() == 0 {
        assert(join(es) + seq![CLOSE_BRACKET] =~= seq![CLOSE_BRACKET]);
    } else {
        assert(es[0] == enc_text(ts[0]));
        assert(enc_text(ts[0])[0] == QUOTE);
        assert(join(es).len() > 0 && join(es)[0] == QUOTE) by {
            if ts.len() == 1 {
                assert(join(es) == es[0]);
            } else {
                assert(join(es) == es[0] + seq![COMMA] + join(es.drop_first()));
            }
        }
        lemma_holds_at_concat(b, i + 1, join(es), seq![CLOSE_BRACKET]);
        lemma_holds_at_index(b, i + 1, join(es), 0);
        if holds_at(b, i + 1, seq![CLOSE_BRACKET]) {
            lemma_holds_at_index(b, i + 1, seq![CLOSE_BRACKET], 0);
        }
        lemma_text_items_round_trip(b, i + 1, ts);
    }
}

/// Appends the JSON array of a list of strings.
pub fn push_texts(out: &mut Vec<u8>, v: &Vec<String>)
    ensures
        final(out)@ == old(out)@ + enc_texts(crate::job::texts(v@)),
{
    let ghost ts = crate::job::texts(v@);
    out.push(OPEN_BRACKET);
    let mut k: usize = 0;
    while k < v.len()
        invariant
            k <= v@.len(),
            ts == crate::job::texts(v@),
            out@ == old(out)@ + seq![OPEN_BRACKET] + join(text_elems(ts.subrange(0, k as int))),
        decreases v.len() - k,
    {
        proof {
            assert(text_elems(ts.subrange(0, k + 1)) =~= text_elems(ts.subrange(0, k as int)).push(
                enc_text(v@[k as int]@),
            ));
            lemma_join_push(text_elems(ts.subrange(0, k as int)), enc_text(v@[k as int]@));
        }
        if k > 0 {
            out.push(COMMA);
        }
        push_text(out, v[k].as_str());
        k = k + 1;
    }
    out.push(CLOSE_BRACKET);
    proof {
        assert(ts.subrange(0, ts.len() as int) =~= ts);
        assert(final(out)@ =~= old(out)@ + enc_texts(ts));
    }
}

fn read_text_items(b: &[u8], j: usize) -> (r: Option<(Vec<String>, usize)>)
    ensures
        match r {
            Some((v, m)) => text_items_at(b@, j as int) == Some((crate::job::texts(v@), m as int)),
            None => text_items_at(b@, j as int) is None,
        },
    decreases b.len() - j,
{
    match read_text(b, j) {
        Some((t, k)) => {
            if k <= j {
                return None;
            }
            match expect_byte(b, k, COMMA) {
                Some(k1) => {
                    if k1 > b.len() {
                        return None;
                    }
                    match read_text_items(b, k1) {
                        Some((v, m)) => {
                            let mut v = v;
                            let ghost before = v@;
                            v.insert(0, t);
                            proof {
                                assert(crate::job::texts(v@) =~= seq![t@] + crate::job::texts(
                                    before,
                                ));
                            }
                            Some((v, m))
                        },
                        None => None,
                    }
                },
                None => match expect_byte(b, k, CLOSE_BRACKET) {
                    Some(k1) => {
                        let mut v: Vec<String> = Vec::new();
                        v.push(t);
                        proof {
                            assert(crate::job::texts(v@) =~= seq![t@]);
                        }
                        Some((v, k1))
                    },
                    None => None,
                },
            }
        },
        None => None,
    }
}

/// The list of strings whose JSON array starts at `i`, and the position after it.
pub fn read_texts(b: &[u8], i: usize) -> (r: Option<(Vec<String>, usize)>)
    ensures
        match r {
            Some((v, m)) => texts_at(b@, i as int) == Some((crate::job::texts(v@), m as int)),
            None => texts_at(b@, i as int) is None,
        },
{
    match expect_byte(b, i, OPEN_BRACKET) {
        Some(j) => match expect_byte(b, j, CLOSE_BRACKET) {
            Some(k) => {
                let v: Vec<String> = Vec::new();
                proof {
                    assert(crate::job::texts(v@) =~= Seq::<Seq<char>>::empty());
                }
                Some((v, k))
            },
            None => read_text_items(b, j),
        },
        None => None,
    }
}

} // verus!
