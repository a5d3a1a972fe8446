use vstd::prelude::*;
use vstd::string::*;
use vstd::utf8::decode_utf8;
use vstd::utf8::encode_utf8;
use vstd::utf8::valid_utf8;

use crate::schema::Link;

verus! {

/// Why a textual field could not be decoded.
#[derive(Clone, Debug, PartialEq, Eq)]
pub enum CodecError {
    /// A key is not an even number of hex digits; carries the hex decoder's description.
    InvalidHex(String),
    /// A link text holds no `@`.
    MissingSeparator,
    /// The part of a link after its first `@` is not a decimal `u64`.
    InvalidSeq,
    /// A payload is not valid UTF-8.
    InvalidUtf8,
    /// A payload is not a JSON document.
    InvalidJson,
    /// The length-delimited framing of a payload is broken; carries the
    /// decoder's description.
    Envelope(String),
}

// ---------------------------------------------------------------- decimal

/// Whether `c` is one of `0` to `9`.
pub open spec fn is_digit(c: char) -> bool {
    48 <= c as u32 <= 57
}

/// The decimal digit for `d < 10`.
pub open spec fn digit_char(d: nat) -> char {
    seq!['0', '1', '2', '3', '4', '5', '6', '7', '8', '9'][d as int]
}

/// The decimal text of `n`, without sign or leading zeros.
pub open spec fn decimal(n: nat) -> Seq<char>
    decreases n,
{
    if n < 10 {
        seq![digit_char(n)]
    } else {
        decimal(n / 10).push(digit_char(n % 10))
    }
}

/// The number that a sequence of decimal digits denotes.
pub open spec fn digits_value(s: Seq<char>) -> nat
    decreases s.len(),
{
    if s.len() == 0 {
        0
    } else {
        digits_value(s.drop_last()) * 10 + (s.last() as u32 - 48) as nat
    }
}

/// `s` is one or more decimal digits whose value fits a `u64`.
pub open spec fn is_decimal(s: Seq<char>) -> bool {
    &&& s.len() > 0
    &&& forall|i: int| 0 <= i < s.len() ==> is_digit(#[trigger] s[i])
    &&& digits_value(s) <= u64::MAX
}

/// Relies on the `Display` impl of `u64` (through `to_string`): the decimal
/// form of the number.
#[verifier::external_body]
pub(crate) fn u64_to_text(n: u64) -> (r: String)
    ensures
        r@ == decimal(n as nat),
{
    n.to_string()
}

proof fn lemma_digits_prefix(s: Seq<char>, k: int)
    requires
        0 <= k <= s.len(),
    ensures
        digits_value(s.take(k)) <= digits_value(s),
    decreases s.len(),
{
    if k < s.len() {
        lemma_digits_prefix(s.drop_last(), k);
        assert(s.drop_last().take(k) =~= s.take(k));
    } else {
        assert(s.take(k) =~= s);
    }
}

/// The digits of an unsigned number's text: without its one leading `+`, if any.
pub open spec fn unsigned_digits(s: Seq<char>) -> Seq<char> {
    if s.len() > 0 && s[0] == '+' {
        s.drop_first()
    } else {
        s
    }
}

/// `s` is a decimal `u64`, digits only, with at most one leading `+`.
pub open spec fn is_unsigned_text(s: Seq<char>) -> bool {
    is_decimal(unsigned_digits(s))
}

/// Reads a `u64` written as decimal digits, with at most one leading `+`
/// (the forms that `str::parse::<u64>` takes).
pub fn parse_decimal(s: &str) -> (r: Option<u64>)
    ensures
        r == (if is_unsigned_text(s@) {
            Some(digits_value(unsigned_digits(s@)) as u64)
        } else {
            None::<u64>
        }),
{
    let n = s.unicode_len();
    if n > 0 && s.get_char(0) == '+' {
        let digits = s.substring_char(1, n);
        assert(digits@ =~= s@.drop_first());
        parse_digits(digits)
    } else {
        parse_digits(s)
    }
}

/// Reads a `u64` written as decimal digits only.
fn parse_digits(s: &str) -> (r: Option<u64>)
    ensures
        r == (if is_decimal(s@) {
            Some(digits_value(s@) as u64)
        } else {
            None::<u64>
        }),
{
    let n = s.unicode_len();
    if n == 0 {
        return None;
    }
    let mut v: u64 = 0;
    let mut i: usize = 0;
    while i < n
        invariant
            i <= n,
            n == s@.len(),
            forall|j: int| 0 <= j < i ==> is_digit(#[trigger] s@[j]),
            v as nat == digits_value(s@.take(i as int)),
        decreases n - i,
    {
        let c = s.get_char(i);
        let u = c as u32;
        if u < 48 || u > 57 {
            return None;
        }
        let d = (u - 48) as u64;
        assert(s@.take(i + 1).drop_last() =~= s@.take(i as int));
        if v > (u64::MAX - d) / 10 {
            proof {
                lemma_digits_prefix(s@, i + 1);
            }
            return None;
        }
        v = v * 10 + d;
        i = i + 1;
    }
    assert(s@.take(n as int) =~= s@);
    Some(v)
}

proof fn lemma_digit_char(d: nat)
    requires
        d < 10,
    ensures
        is_digit(digit_char(d)),
        digit_char(d) as u32 - 48 == d,
{
    let t = seq!['0', '1', '2', '3', '4', '5', '6', '7', '8', '9'];
    assert(t[0] == '0' && t[1] == '1' && t[2] == '2' && t[3] == '3' && t[4] == '4');
    assert(t[5] == '5' && t[6] == '6' && t[7] == '7' && t[8] == '8' && t[9] == '9');
}

proof fn lemma_decimal(n: nat)
    ensures
        decimal(n).len() > 0,
        forall|i: int| 0 <= i < decimal(n).len() ==> is_digit(#[trigger] decimal(n)[i]),
        digits_value(decimal(n)) == n,
    decreases n,
{
    if n < 10 {
        lemma_digit_char(n);
        assert(decimal(n).drop_last() =~= Seq::<char>::empty());
        assert(digits_value(Seq::<char>::empty()) == 0);
        assert(decimal(n).last() == digit_char(n));
    } else {
        lemma_decimal(n / 10);
        lemma_digit_char(n % 10);
        assert(decimal(n).drop_last() =~= decimal(n / 10));
        assert(decimal(n).last() == digit_char(n % 10));
        assert((n / 10) * 10 + n % 10 == n) by (nonlinear_arith);
        let s = decimal(n);
        assert forall|i: int| 0 <= i < s.len() implies is_digit(#[trigger] s[i]) by {
            if i < s.len() - 1 {
                assert(s[i] == decimal(n / 10)[i]);
            }
        }
    }
}

// ---------------------------------------------------------------- hex

/// The lowercase hex digit for `d < 16`.
pub open spec fn hex_digit(d: nat) -> char {
    seq!['0', '1', '2', '3', '4', '5', '6', '7', '8', '9', 'a', 'b', 'c', 'd', 'e', 'f'][d as int]
}

/// The value of a hex digit of either case, or -1.
pub open spec fn hex_value(c: char) -> int {
    let u = c as u32;
    if 48 <= u <= 57 {
        u - 48
    } else if 97 <= u <= 102 {
        u - 87
    } else if 65 <= u <= 70 {
        u - 55
    } else {
        -1
    }
}

/// Whether `c` is one of `0` to `9` or `a` to `f`.
pub open spec fn is_lower_hex_digit(c: char) -> bool {
    48 <= c as u32 <= 57 || 97 <= c as u32 <= 102
}

/// `s` is an even number of lowercase hex digits.
pub open spec fn is_lower_hex(s: Seq<char>) -> bool {
    &&& s.len() % 2 == 0
    &&& forall|i: int| 0 <= i < s.len() ==> is_lower_hex_digit(#[trigger] s[i])
}

/// Lowercase hex text of `b`: two digits per byte, high nibble first.
pub open spec fn hex_text(b: Seq<u8>) -> Seq<char>
    decreases b.len(),
{
    if b.len() == 0 {
        seq![]
    } else {
        hex_text(b.drop_last()) + seq![
            hex_digit(b.last() as nat / 16),
            hex_digit(b.last() as nat % 16),
        ]
    }
}

/// `s` is an even number of hex digits (of either case).
pub open spec fn is_hex(s: Seq<char>) -> bool {
    &&& s.len() % 2 == 0
    &&& forall|i: int| 0 <= i < s.len() ==> hex_value(#[trigger] s[i]) >= 0
}

/// The bytes that hex text `s` denotes, pair by pair.
pub open spec fn hex_bytes(s: Seq<char>) -> Seq<u8>
    decreases s.len(),
{
    if s.len() < 2 {
        seq![]
    } else {
        hex_bytes(s.take(s.len() - 2)).push(
            (16 * hex_value(s[s.len() - 2]) + hex_value(s[s.len() - 1])) as u8,
        )
    }
}

/// Relies on hex::encode: each byte becomes two lowercase hex digits, high
/// nibble first.
#[verifier::external_body]
fn hex_encode(b: &[u8]) -> (r: String)
    ensures
        r@ == hex_text(b@),
{
    hex::encode(b)
}

/// Relies on hex::decode: it succeeds exactly on an even number of hex digits
/// of either case and then yields one byte per pair; the error is rendered
/// with its `Display` text.
#[verifier::external_body]
fn hex_decode(s: &str) -> (r: Result<Vec<u8>, String>)
    ensures
        r is Ok <==> is_hex(s@),
        r matches Ok(b) ==> b@ == hex_bytes(s@),
{
    hex::decode(s).map_err(|e| e.to_string())
}

proof fn lemma_hex_digit(d: nat)
    requires
        d < 16,
    ensures
        hex_value(hex_digit(d)) == d,
        is_lower_hex_digit(hex_digit(d)),
{
    let t = seq!['0', '1', '2', '3', '4', '5', '6', '7', '8', '9', 'a', 'b', 'c', 'd', 'e', 'f'];
    assert(t[0] == '0' && t[1] == '1' && t[2] == '2' && t[3] == '3' && t[4] == '4');
    assert(t[5] == '5' && t[6] == '6' && t[7] == '7' && t[8] == '8' && t[9] == '9');
    assert(t[10] == 'a' && t[11] == 'b' && t[12] == 'c' && t[13] == 'd' && t[14] == 'e');
    assert(t[15] == 'f');
}

/// Hex text made by `hex_text` is valid and decodes to the bytes it was made from.
pub proof fn lemma_hex_round_trip(b: Seq<u8>)
    ensures
        is_hex(hex_text(b)),
        is_lower_hex(hex_text(b)),
        hex_text(b).len() == 2 * b.len(),
        hex_bytes(hex_text(b)) == b,
    decreases b.len(),
{
    if b.len() > 0 {
        let x = b.last() as nat;
        lemma_hex_round_trip(b.drop_last());
        lemma_hex_digit(x / 16);
        lemma_hex_digit(x % 16);
        let s = hex_text(b);
        let p = hex_text(b.drop_last());
        assert(s.take(s.len() - 2) =~= p);
        assert forall|i: int| 0 <= i < s.len() implies hex_value(#[trigger] s[i]) >= 0
            && is_lower_hex_digit(s[i]) by {
            if i < p.len() {
                assert(s[i] == p[i]);
            }
        }
        assert(b.drop_last().push(b.last()) =~= b);
    } else {
        assert(hex_text(b) =~= Seq::<char>::empty());
        assert(b =~= Seq::<u8>::empty());
    }
}

/// The structured form of an optional key: lowercase hex, or absent.
pub fn as_hex(key: &Option<Vec<u8>>) -> (r: Option<String>)
    ensures
        r is None <==> key is None,
        key matches Some(b) ==> (r matches Some(s) && s@ == hex_text(b@)),
{
    match key {
        Some(b) => Some(hex_encode(b.as_slice())),
        None => None,
    }
}

/// Reads an optional key from its structured form.
pub fn from_hex(text: Option<&str>) -> (r: Result<Option<Vec<u8>>, CodecError>)
    ensures
        text is None ==> r == Ok::<Option<Vec<u8>>, CodecError>(None),
        text matches Some(s) ==> (r is Ok <==> is_hex(s@)),
        text matches Some(s) ==> (r matches Ok(k) ==> (k matches Some(b) && b@ == hex_bytes(s@))),
        r matches Err(e) ==> e is InvalidHex,
{
    match text {
        None => Ok(None),
        Some(s) => match hex_decode(s) {
            Ok(b) => Ok(Some(b)),
            Err(e) => Err(CodecError::InvalidHex(e)),
        },
    }
}

// ---------------------------------------------------------------- link

/// The text form of a link: hex of the key, `@`, decimal sequence number.
pub open spec fn link_text(key: Seq<u8>, seq: u64) -> Seq<char> {
    hex_text(key) + seq!['@'] + decimal(seq as nat)
}

/// `s` splits at its `@` at index `p` into a lowercase hex key and a
/// sequence number.
pub open spec fn link_split_at(s: Seq<char>, p: int) -> bool {
    &&& 0 <= p < s.len()
    &&& s[p] == '@'
    &&& is_lower_hex(s.take(p))
    &&& is_unsigned_text(s.skip(p + 1))
}

/// The key and sequence number that the text `s` denotes, if it is a link.
pub open spec fn parse_link(s: Seq<char>) -> Option<(Seq<u8>, u64)> {
    if exists|p: int| link_split_at(s, p) {
        let p = choose|p: int| link_split_at(s, p);
        Some((hex_bytes(s.take(p)), digits_value(unsigned_digits(s.skip(p + 1))) as u64))
    } else {
        None
    }
}

/// The sequence-number part of a link holds no `@`.
proof fn lemma_unsigned_text_has_no_at(t: Seq<char>, i: int)
    requires
        is_unsigned_text(t),
        0 <= i < t.len(),
    ensures
        t[i] != '@',
{
    if t.len() > 0 && t[0] == '+' {
        if i > 0 {
            assert(t[i] == unsigned_digits(t)[i - 1]);
            assert(is_digit(unsigned_digits(t)[i - 1]));
        }
    } else {
        assert(is_digit(unsigned_digits(t)[i]));
    }
}

/// A link text splits at one place only: neither part can hold an `@`.
proof fn lemma_link_split_unique(s: Seq<char>, a: int, b: int)
    requires
        link_split_at(s, a),
        link_split_at(s, b),
    ensures
        a == b,
{
    if a < b {
        assert(s.take(b)[a] == '@');
        assert(!is_lower_hex_digit(s.take(b)[a]));
    } else if b < a {
        assert(s.take(a)[b] == '@');
        assert(!is_lower_hex_digit(s.take(a)[b]));
    }
}

/// Decoding the text of a link gives back its key and sequence number.
pub proof fn lemma_link_round_trip(key: Seq<u8>, seq: u64)
    ensures
        parse_link(link_text(key, seq)) == Some((key, seq)),
{
    let s = link_text(key, seq);
    let p = hex_text(key).len() as int;
    lemma_hex_round_trip(key);
    lemma_decimal(seq as nat);
    assert(s.take(p) =~= hex_text(key));
    assert(s.skip(p + 1) =~= decimal(seq as nat));
    assert(is_digit(decimal(seq as nat)[0]));
    assert(unsigned_digits(decimal(seq as nat)) == decimal(seq as nat));
    assert(s[p] == '@');
    assert(link_split_at(s, p));
    let q = choose|q: int| link_split_at(s, q);
    lemma_link_split_unique(s, p, q);
}

/// A text with no `@`, or with two or more, is not a link.
pub proof fn lemma_link_needs_one_separator(s: Seq<char>)
    requires
        (forall|i: int| 0 <= i < s.len() ==> s[i] != '@') || (exists|i: int, j: int|
            0 <= i < j < s.len() && s[i] == '@' && s[j] == '@'),
    ensures
        parse_link(s) is None,
{
    if exists|p: int| link_split_at(s, p) {
        let p = choose|p: int| link_split_at(s, p);
        if !(forall|i: int| 0 <= i < s.len() ==> s[i] != '@') {
            let (i, j) = choose|i: int, j: int| 0 <= i < j < s.len() && s[i] == '@' && s[j] == '@';
            if i < p {
                assert(s.take(p)[i] == '@');
                assert(!is_lower_hex_digit(s.take(p)[i]));
            } else if i > p {
                lemma_unsigned_text_has_no_at(s.skip(p + 1), i - p - 1);
            } else {
                lemma_unsigned_text_has_no_at(s.skip(p + 1), j - p - 1);
            }
        }
    }
}

/// Whether every character of `s` is a lowercase hex digit.
fn all_lower_hex_digits(s: &str) -> (r: bool)
    ensures
        r == (forall|i: int| 0 <= i < s@.len() ==> is_lower_hex_digit(#[trigger] s@[i])),
{
    let n = s.unicode_len();
    let mut i: usize = 0;
    while i < n
        invariant
            i <= n,
            n == s@.len(),
            forall|j: int| 0 <= j < i ==> is_lower_hex_digit(#[trigger] s@[j]),
        decreases n - i,
    {
        let u = s.get_char(i) as u32;
        if !((48 <= u && u <= 57) || (97 <= u && u <= 102)) {
            return false;
        }
        i = i + 1;
    }
    true
}

/// The text form of a link.
pub fn encode_link(link: &Link) -> (r: String)
    ensures
        r@ == link_text(link.key@, link.seq),
{
    let mut r = hex_encode(link.key.as_slice());
    r.append("@");
    let seq = u64_to_text(link.seq);
    r.append(seq.as_str());
    proof {
        reveal_strlit("@");
    }
    assert(r@ =~= link_text(link.key@, link.seq));
    r
}

/// Reads a link from its text form.
pub fn decode_link(text: &str) -> (r: Result<Link, CodecError>)
    ensures
        r is Ok <==> parse_link(text@) is Some,
        r matches Ok(l) ==> parse_link(text@) == Some((l.key@, l.seq)),
        (forall|i: int| 0 <= i < text@.len() ==> text@[i] != '@') ==> (r matches Err(e)
            && e is MissingSeparator),
{
    let n = text.unicode_len();
    let mut p: usize = 0;
    let mut found = false;
    while p < n && !found
        invariant
            p <= n,
            n == text@.len(),
            forall|j: int| 0 <= j < p ==> text@[j] != '@',
            found ==> p < n && text@[p as int] == '@',
        decreases n - p + (if found { 0int } else { 1int }),
    {
        if text.get_char(p) == '@' {
            found = true;
        } else {
            p = p + 1;
        }
    }
    if !found {
        assert forall|q: int| !link_split_at(text@, q) by {
            if 0 <= q < text@.len() {
                assert(text@[q] != '@');
            }
        }
        return Err(CodecError::MissingSeparator);
    }
    let key_text = text.substring_char(0, p);
    let seq_text = text.substring_char(p + 1, n);
    assert(key_text@ =~= text@.take(p as int));
    assert(seq_text@ =~= text@.skip(p + 1));
    proof {
        assert forall|q: int| #[trigger] link_split_at(text@, q) implies q == p by {
            if q < p {
                assert(text@[q] != '@');
            } else if q > p {
                assert(text@.take(q)[p as int] == '@');
                assert(!is_lower_hex_digit(text@.take(q)[p as int]));
            }
        }
    }
    if !all_lower_hex_digits(key_text) {
        return Err(CodecError::InvalidHex("a link key takes lowercase hex digits only".to_string()));
    }
    let key = match hex_decode(key_text) {
        Ok(k) => k,
        Err(e) => {
            return Err(CodecError::InvalidHex(e));
        },
    };
    let seq = match parse_decimal(seq_text) {
        Some(v) => v,
        None => {
            return Err(CodecError::InvalidSeq);
        },
    };
    assert(link_split_at(text@, p as int));
    Ok(Link { key, seq })
}

// ---------------------------------------------------------------- timestamp

/// A timestamp from the unsigned reading of a JSON number (`None` when the
/// field is absent, negative or not an integer). A value beyond the `u32`
/// range is dropped: it becomes absent rather than an error.
pub fn u32_from_integer(n: Option<u64>) -> (r: Option<u32>)
    ensures
        r == (match n {
            Some(v) => if v <= u32::MAX {
                Some(v as u32)
            } else {
                None::<u32>
            },
            None => None::<u32>,
        }),
{
    match n {
        Some(v) => if v <= u32::MAX as u64 {
            Some(v as u32)
        } else {
            None
        },
        None => None,
    }
}

// ---------------------------------------------------------------- embedded JSON

/// Field number of the payload inside the envelope of an embedded JSON value.
pub const VALUE_TAG: u32 = 1;

/// The text that stands for an absent payload.
pub open spec fn null_text() -> Seq<char> {
    seq!['n', 'u', 'l', 'l']
}

/// The base-128 varint encoding of `v`, low group first.
pub open spec fn varint(v: nat) -> Seq<u8>
    decreases v,
{
    if v < 128 {
        seq![v as u8]
    } else {
        seq![(v % 128 + 128) as u8] + varint(v / 128)
    }
}

/// A length-delimited field: key, length, then the bytes themselves.
pub open spec fn delimited_field(tag: nat, value: Seq<u8>) -> Seq<u8> {
    varint(tag * 8 + 2) + varint(value.len()) + value
}

/// The number of bytes that the encoding of a length-delimited field takes.
pub open spec fn delimited_field_len(tag: nat, len: nat) -> nat {
    varint(tag * 8).len() + varint(len).len() + len
}

/// The result of parsing `s` as one JSON document.
pub uninterp spec fn is_json_text(s: Seq<char>) -> bool;

/// Different JSON texts embed as different byte strings, so they are never
/// equal as `Json` values, even where they mean the same document.
pub proof fn lemma_distinct_texts_differ(t1: Seq<char>, t2: Seq<char>)
    requires
        t1 != t2,
    ensures
        encode_utf8(t1) != encode_utf8(t2),
{
    vstd::utf8::encode_utf8_decode_utf8(t1);
    vstd::utf8::encode_utf8_decode_utf8(t2);
}

/// Text of odd length, or holding a character that is no hex digit, is not a key.
pub proof fn lemma_key_rejects(s: Seq<char>)
    requires
        s.len() % 2 == 1 || exists|i: int| 0 <= i < s.len() && hex_value(s[i]) < 0,
    ensures
        !is_hex(s),
{
}


/// Relies on serde_json::from_str into a borrowed `RawValue`: whether `s`
/// holds exactly one JSON document, surrounding whitespace allowed.
#[verifier::external_body]
fn json_text_valid(s: &str) -> (r: bool)
    ensures
        r == is_json_text(s@),
        s@.len() == 0 ==> !r,
{
    serde_json::from_str::<&serde_json::value::RawValue>(s).is_ok()
}

/// Relies on String::from_utf8: it succeeds exactly on valid UTF-8 and then
/// holds the decoded characters; the error gives the bytes back.
#[verifier::external_body]
fn utf8_to_text(b: Vec<u8>) -> (r: Result<String, Vec<u8>>)
    ensures
        r is Ok <==> valid_utf8(b@),
        r matches Ok(s) ==> s@ == decode_utf8(b@),
{
    String::from_utf8(b).map_err(|e| e.into_bytes())
}

/// Relies on prost::encoding::bytes::encode: appends the field's key
/// (`tag << 3 | 2`), the length and the bytes, each varint in base 128.
#[verifier::external_body]
fn put_delimited_field(tag: u32, value: &Vec<u8>, out: &mut Vec<u8>)
    requires
        1 <= tag <= 0x1FFF_FFFF,
        old(out)@.len() + value@.len() + 20 <= isize::MAX,
    ensures
        final(out)@ == old(out)@ + delimited_field(tag as nat, value@),
{
    prost::encoding::bytes::encode(tag, value, out)
}

/// Relies on prost::encoding::bytes::encoded_len: the varint length of
/// `tag << 3`, plus that of the byte count, plus the byte count.
#[verifier::external_body]
fn delimited_len(tag: u32, value: &Vec<u8>) -> (r: usize)
    requires
        1 <= tag <= 0x1FFF_FFFF,
        value@.len() + 20 <= usize::MAX,
    ensures
        r == delimited_field_len(tag as nat, value@.len()),
{
    prost::encoding::bytes::encoded_len(tag, value)
}

/// `input` starts with the canonical varint of `n`, followed by at least `n` bytes.
pub open spec fn canonical_frame(input: Seq<u8>, n: nat) -> bool {
    varint(n).len() + n <= input.len() && input.take(varint(n).len() as int) == varint(n)
}

/// The `n` bytes that follow the varint of `n` at the start of `input`.
pub open spec fn frame_payload(input: Seq<u8>, n: nat) -> Seq<u8> {
    input.subrange(varint(n).len() as int, (varint(n).len() + n) as int)
}

/// A payload that `Json` takes: none at all, or UTF-8 text of one JSON document.
pub open spec fn payload_accepted(p: Seq<u8>) -> bool {
    p.len() == 0 || valid_utf8(p) && is_json_text(decode_utf8(p))
}

/// A payload read from its framing, and the number of input bytes after it.
type Framed = (Vec<u8>, usize);

/// The wire type of a length-delimited field.
pub const LENGTH_DELIMITED: u64 = 2;

/// Relies on prost::encoding::bytes::merge, after WireType::try_from: the
/// wire type must be length-delimited; it reads a varint length `n` of at
/// most ten bytes, then `n` bytes, and reports how many input bytes follow
/// them; a length in canonical form that the input can hold always succeeds.
/// The error is rendered with its `Display` text.
#[verifier::external_body]
fn take_delimited(wire_type: u64, input: &[u8]) -> (r: Result<Framed, String>)
    ensures
        r matches Ok((v, left)) ==> wire_type == LENGTH_DELIMITED && exists|k: int|
            1 <= k <= 10 && k + v@.len() + left == input@.len() && v@ == #[trigger] input@.subrange(
                k,
                k + v@.len(),
            ),
        r is Err ==> wire_type != LENGTH_DELIMITED || forall|n: nat| !canonical_frame(input@, n),
        r matches Ok((v, left)) ==> forall|n: nat|
            canonical_frame(input@, n) ==> v@ == #[trigger] frame_payload(input@, n) && left
                == input@.len() - varint(n).len() - n,
{
    let mut buf = input;
    let mut value = Vec::new();
    let ctx = prost::encoding::DecodeContext::default();
    prost::encoding::WireType::try_from(wire_type)
        .and_then(|wire| prost::encoding::bytes::merge(wire, &mut value, &mut buf, ctx))
        .map(|()| (value, buf.len()))
        .map_err(|e| e.to_string())
}

/// Relies on prost::encoding::skip_field, after WireType::try_from: it
/// passes over one field's value and reports how many input bytes follow
/// it. Wire types above 5, and an end-group marker, fail; a fixed 32- or
/// 64-bit value takes 4 or 8 bytes; a length-delimited value in canonical
/// form that the input can hold is passed over whole. The error is rendered
/// with its `Display` text.
#[verifier::external_body]
fn skip_value(wire_type: u64, tag: u32, input: &[u8]) -> (r: Result<usize, String>)
    ensures
        r matches Ok(left) ==> left <= input@.len(),
        r is Err ==> wire_type != 1 && wire_type != 5 && wire_type != LENGTH_DELIMITED || (
        wire_type == 1 && input@.len() < 8) || (wire_type == 5 && input@.len() < 4) || (wire_type
            == LENGTH_DELIMITED && forall|n: nat| !canonical_frame(input@, n)),
        r matches Ok(left) ==> wire_type <= 5 && wire_type != 4 && (wire_type == 1 ==> left
            == input@.len() - 8) && (wire_type == 5 ==> left == input@.len() - 4),
        r matches Ok(left) ==> forall|n: nat|
            wire_type == LENGTH_DELIMITED && #[trigger] canonical_frame(input@, n) ==> left
                == input@.len() - varint(n).len() - n,
{
    let mut buf = input;
    let ctx = prost::encoding::DecodeContext::default();
    prost::encoding::WireType::try_from(wire_type)
        .and_then(|wire| prost::encoding::skip_field(wire, tag, &mut buf, ctx))
        .map(|()| buf.len())
        .map_err(|e| e.to_string())
}

/// An embedded JSON document, kept as the exact bytes it arrived as.
/// Equality is byte equality: two texts that mean the same JSON but differ
/// in spelling are different values.
#[derive(Debug)]
pub struct Json {
    buf: Vec<u8>,
    text: String,
}

impl View for Json {
    type V = Seq<u8>;

    /// The payload bytes; empty when no payload is present.
    closed spec fn view(&self) -> Seq<u8> {
        self.buf@
    }
}

impl Json {
    #[verifier::type_invariant]
    spec fn inv(&self) -> bool {
        &&& self.buf@ == encode_utf8(self.text@) || self.buf@.len() == 0 && self.text@
            == null_text()
        &&& self.buf@.len() > 0 ==> is_json_text(self.text@)
    }

    /// The JSON text that `get` returns.
    pub closed spec fn text_spec(&self) -> Seq<char> {
        self.text@
    }

    /// Embeds the JSON text `text` as it stands, without re-serialising it.
    pub fn from_raw(text: String) -> (r: Result<Json, CodecError>)
        ensures
            r is Ok <==> is_json_text(text@),
            r matches Ok(j) ==> j.text_spec() == text@ && j@ == encode_utf8(text@),
            r matches Err(e) ==> e is InvalidJson,
    {
        if json_text_valid(text.as_str()) {
            let buf = text.as_str().as_bytes_vec();
            Ok(Json { buf, text })
        } else {
            Err(CodecError::InvalidJson)
        }
    }

    /// Reads the payload bytes of an envelope; no bytes means no payload.
    pub fn from_bytes(buf: Vec<u8>) -> (r: Result<Json, CodecError>)
        ensures
            buf@.len() == 0 ==> (r matches Ok(j) && j@.len() == 0 && j.text_spec() == null_text()),
            buf@.len() > 0 ==> (r is Ok <==> valid_utf8(buf@) && is_json_text(decode_utf8(buf@))),
            buf@.len() > 0 ==> (r matches Ok(j) ==> j@ == buf@ && j.text_spec() == decode_utf8(buf@)),
            buf@.len() > 0 && !valid_utf8(buf@) ==> (r matches Err(e) && e is InvalidUtf8),
    {
        if buf.len() == 0 {
            return Ok(Json::default());
        }
        let ghost bytes = buf@;
        match utf8_to_text(buf) {
            Ok(text) => {
                if json_text_valid(text.as_str()) {
                    let b = text.as_str().as_bytes_vec();
                    proof {
                        vstd::utf8::decode_utf8_encode_utf8(bytes);
                    }
                    Ok(Json { buf: b, text })
                } else {
                    Err(CodecError::InvalidJson)
                }
            },
            Err(_) => Err(CodecError::InvalidUtf8),
        }
    }

    /// Reads the payload field's value: a length-prefixed payload (what
    /// follows the field key in the envelope). Returns it with the number of
    /// input bytes that follow it.
    pub fn read_payload(wire_type: u64, input: &[u8]) -> (r: Result<(Json, usize), CodecError>)
        ensures
            wire_type != LENGTH_DELIMITED ==> (r matches Err(e) && e is Envelope),
            r matches Ok((j, left)) ==> exists|k: int|
                1 <= k <= 10 && k + j@.len() + left == input@.len() && j@ == #[trigger] input@.subrange(
                    k,
                    k + j@.len(),
                ),
            forall|n: nat|
                wire_type == LENGTH_DELIMITED && #[trigger] canonical_frame(input@, n) ==> ({
                    let payload = frame_payload(input@, n);
                    (r is Ok <==> payload_accepted(payload)) && (r matches Ok((j, left)) ==> j@
                        == payload && left == input@.len() - varint(n).len() - n)
                }),
    {
        match take_delimited(wire_type, input) {
            Ok((v, left)) => {
                let ghost bytes = v@;
                let ghost k = choose|k: int|
                    1 <= k <= 10 && k + bytes.len() + left == input@.len() && bytes
                        == #[trigger] input@.subrange(k, k + bytes.len());
                match Json::from_bytes(v) {
                    Ok(j) => {
                        assert(j@ =~= bytes);
                        let res = Ok((j, left));
                        assert(res matches Ok((p, _)) && p@ == input@.subrange(k, k + p@.len()));
                        res
                    },
                    Err(e) => Err(e),
                }
            },
            Err(e) => Err(CodecError::Envelope(e)),
        }
    }

    /// Takes one field of the envelope, whose key gave `tag` and
    /// `wire_type`: the payload field replaces the payload, any other field
    /// is passed over. Returns the number of input bytes after the field.
    pub fn merge_field(&mut self, tag: u32, wire_type: u64, input: &[u8]) -> (r: Result<usize, CodecError>)
        ensures
            tag != VALUE_TAG || r is Err ==> final(self)@ == old(self)@ && final(self).text_spec()
                == old(self).text_spec(),
            r matches Ok(left) ==> left <= input@.len(),
            tag == VALUE_TAG && wire_type != LENGTH_DELIMITED ==> r is Err,
            forall|n: nat|
                tag == VALUE_TAG && wire_type == LENGTH_DELIMITED && #[trigger] canonical_frame(
                    input@,
                    n,
                ) ==> ({
                    let payload = frame_payload(input@, n);
                    (r is Ok <==> payload_accepted(payload)) && (r matches Ok(left) ==> final(self)@
                        == payload && left == input@.len() - varint(n).len() - n)
                }),
            forall|n: nat|
                tag != VALUE_TAG && wire_type == LENGTH_DELIMITED && #[trigger] canonical_frame(
                    input@,
                    n,
                ) ==> r == Ok::<usize, CodecError>((input@.len() - varint(n).len() - n) as usize),
    {
        if tag == VALUE_TAG {
            match Json::read_payload(wire_type, input) {
                Ok((j, left)) => {
                    *self = j;
                    Ok(left)
                },
                Err(e) => Err(e),
            }
        } else {
            match skip_value(wire_type, tag, input) {
                Ok(left) => Ok(left),
                Err(e) => Err(CodecError::Envelope(e)),
            }
        }
    }

    /// The JSON text, exactly as it was embedded.
    pub fn get(&self) -> (r: &str)
        ensures
            r@ == self.text_spec(),
    {
        self.text.as_str()
    }

    /// The payload bytes.
    pub fn as_bytes(&self) -> (r: &[u8])
        ensures
            r@ == self@,
            payload_accepted(self@),
    {
        proof {
            use_type_invariant(self);
            vstd::utf8::encode_utf8_valid_utf8(self.text@);
            vstd::utf8::encode_utf8_decode_utf8(self.text@);
        }
        self.buf.as_slice()
    }

    /// Size of the envelope that `encode_raw` writes.
    pub fn encoded_len(&self) -> (r: usize)
        requires
            self@.len() + 20 <= usize::MAX,
        ensures
            r == (if self@.len() == 0 {
                0
            } else {
                delimited_field_len(VALUE_TAG as nat, self@.len())
            }),
    {
        if self.buf.len() == 0 {
            0
        } else {
            delimited_len(VALUE_TAG, &self.buf)
        }
    }

    /// Appends the envelope: one length-delimited field holding the payload,
    /// or nothing when there is no payload.
    pub fn encode_raw(&self, out: &mut Vec<u8>)
        requires
            old(out)@.len() + self@.len() + 20 <= isize::MAX,
        ensures
            final(out)@ == (if self@.len() == 0 {
                old(out)@
            } else {
                old(out)@ + delimited_field(VALUE_TAG as nat, self@)
            }),
            payload_accepted(self@),
    {
        proof {
            use_type_invariant(self);
            vstd::utf8::encode_utf8_valid_utf8(self.text@);
            vstd::utf8::encode_utf8_decode_utf8(self.text@);
        }
        if self.buf.len() != 0 {
            put_delimited_field(VALUE_TAG, &self.buf, out);
        }
    }

    /// Drops the payload.
    pub fn clear(&mut self)
        ensures
            final(self)@.len() == 0,
            final(self).text_spec() == null_text(),
    {
        *self = Json::default();
    }
}

/// What `encode_raw` writes for a payload reads back: after the one-byte
/// field key, the length is in canonical form and frames exactly the payload,
/// which `read_payload` then accepts.
pub proof fn lemma_envelope_reads_back(payload: Seq<u8>, rest: Seq<u8>)
    requires
        payload_accepted(payload),
    ensures
        canonical_frame((delimited_field(VALUE_TAG as nat, payload) + rest).skip(1), payload.len()),
        frame_payload((delimited_field(VALUE_TAG as nat, payload) + rest).skip(1), payload.len())
            == payload,
{
    let n = payload.len();
    let f = (delimited_field(VALUE_TAG as nat, payload) + rest).skip(1);
    assert(varint(10) =~= seq![10u8]);
    assert(f =~= varint(n) + payload + rest);
    assert(f.take(varint(n).len() as int) =~= varint(n));
    assert(frame_payload(f, n) =~= payload);
}

/// Whether two byte sequences are equal.
fn bytes_equal(a: &[u8], b: &[u8]) -> (r: bool)
    ensures
        r == (a@ == b@),
{
    if a.len() != b.len() {
        return false;
    }
    let mut i: usize = 0;
    while i < a.len()
        invariant
            i <= a@.len(),
            a@.len() == b@.len(),
            forall|j: int| 0 <= j < i ==> a@[j] == b@[j],
        decreases a@.len() - i,
    {
        if a[i] != b[i] {
            return false;
        }
        i = i + 1;
    }
    assert(a@ =~= b@);
    true
}

impl Default for Json {
    /// No payload: empty bytes, read as `null`.
    fn default() -> (r: Json)
        ensures
            r@.len() == 0,
            r.text_spec() == null_text(),
    {
        let text = "null".to_string();
        proof {
            reveal_strlit("null");
            assert(text@ =~= null_text());
        }
        Json { buf: Vec::new(), text }
    }
}

impl Clone for Json {
    fn clone(&self) -> (r: Json)
        ensures
            r@ == self@,
            r.text_spec() == self.text_spec(),
    {
        proof {
            use_type_invariant(self);
        }
        let text = self.text.as_str().to_string();
        let buf = vstd::slice::slice_to_vec(self.buf.as_slice());
        Json { buf, text }
    }
}

impl PartialEq for Json {
    fn eq(&self, other: &Json) -> (r: bool) {
        bytes_equal(self.buf.as_slice(), other.buf.as_slice())
    }
}

impl vstd::std_specs::cmp::PartialEqSpecImpl for Json {
    open spec fn obeys_eq_spec() -> bool {
        true
    }

    open spec fn eq_spec(&self, other: &Json) -> bool {
        self@ == other@
    }
}

} // verus!
