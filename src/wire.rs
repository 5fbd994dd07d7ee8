use vstd::prelude::*;
use vstd::utf8::valid_utf8;
use crate::errors::{command_argument_error, CommandArgumentError, ExecutionError};
use crate::layout::PrimitiveArgumentLayout;

verus! {

/// The longest sequence the wire format admits.
pub const MAX_SEQUENCE_LENGTH: u64 = 2147483647;

/// A value of a primitive layout, as the wire format carries it.
pub enum WireValue {
    Bool(bool),
    /// A fixed-width integer or an address, as its little-endian bytes.
    Fixed(Seq<u8>),
    /// The bytes of an ASCII or UTF-8 string.
    Text(Seq<u8>),
    Vector(WireList),
    OptNone,
    OptSome(Box<WireValue>),
}

/// The elements of a vector value, first to last.
pub enum WireList {
    Nil,
    Cons(Box<WireValue>, Box<WireList>),
}

pub open spec fn list_len(vs: WireList) -> nat
    decreases vs,
{
    match vs {
        WireList::Nil => 0,
        WireList::Cons(_, rest) => 1 + list_len(*rest),
    }
}

/// Number of bytes of a fixed-width layout.
pub open spec fn fixed_width(l: PrimitiveArgumentLayout) -> Option<nat> {
    match l {
        PrimitiveArgumentLayout::U8 => Some(1),
        PrimitiveArgumentLayout::U16 => Some(2),
        PrimitiveArgumentLayout::U32 => Some(4),
        PrimitiveArgumentLayout::U64 => Some(8),
        PrimitiveArgumentLayout::U128 => Some(16),
        PrimitiveArgumentLayout::U256 => Some(32),
        PrimitiveArgumentLayout::Address => Some(32),
        _ => None,
    }
}

pub open spec fn is_ascii_bytes(b: Seq<u8>) -> bool {
    forall|i: int| 0 <= i < b.len() ==> b[i] < 128
}

/// Which byte strings are the contents of a string of layout `l`.
pub open spec fn text_ok(l: PrimitiveArgumentLayout, b: Seq<u8>) -> bool {
    match l {
        PrimitiveArgumentLayout::Ascii => is_ascii_bytes(b),
        _ => valid_utf8(b),
    }
}

/// Canonical unsigned LEB128 encoding.
pub open spec fn uleb_encode(n: nat) -> Seq<u8>
    decreases n,
{
    if n < 128 {
        seq![n as u8]
    } else {
        seq![(n % 128 + 128) as u8] + uleb_encode(n / 128)
    }
}

/// Reads LEB128 digits from the front of `s`, at most `budget` of them; the last
/// digit may be zero only when it is the first. Gives the value and the bytes read.
pub open spec fn uleb_digits(s: Seq<u8>, budget: nat, first: bool) -> Option<(nat, nat)>
    decreases budget,
{
    if budget == 0 || s.len() == 0 {
        None
    } else if s[0] < 128 {
        if !first && s[0] == 0 {
            None
        } else {
            Some((s[0] as nat, 1))
        }
    } else {
        match uleb_digits(s.drop_first(), (budget - 1) as nat, false) {
            Some((v, k)) => Some((((s[0] - 128) + 128 * v) as nat, k + 1)),
            None => None,
        }
    }
}

/// A sequence length at the front of `s`: a canonical LEB128 number of at most
/// five bytes, no larger than `MAX_SEQUENCE_LENGTH`.
pub open spec fn parse_length(s: Seq<u8>) -> Option<(nat, nat)> {
    match uleb_digits(s, 5, true) {
        Some((v, k)) => if v <= MAX_SEQUENCE_LENGTH as nat {
            Some((v, k))
        } else {
            None
        },
        None => None,
    }
}

/// Decodes a value of layout `l` from the front of `s`: the value and the number
/// of bytes it takes.
pub open spec fn parse(l: PrimitiveArgumentLayout, s: Seq<u8>) -> Option<(WireValue, nat)>
    decreases l, 0nat, 0nat,
{
    match l {
        PrimitiveArgumentLayout::Bool => if s.len() >= 1 && s[0] <= 1 {
            Some((WireValue::Bool(s[0] == 1), 1))
        } else {
            None
        },
        PrimitiveArgumentLayout::Option(inner) => if s.len() >= 1 && s[0] == 0 {
            Some((WireValue::OptNone, 1))
        } else if s.len() >= 1 && s[0] == 1 {
            match parse(*inner, s.drop_first()) {
                Some((v, k)) => Some((WireValue::OptSome(Box::new(v)), k + 1)),
                None => None,
            }
        } else {
            None
        },
        PrimitiveArgumentLayout::Vector(inner) => match parse_length(s) {
            Some((n, k)) => match parse_list(*inner, n, s.skip(k as int)) {
                Some((vs, j)) => Some((WireValue::Vector(vs), k + j)),
                None => None,
            },
            None => None,
        },
        PrimitiveArgumentLayout::Ascii | PrimitiveArgumentLayout::UTF8 => match parse_length(
            s,
        ) {
            Some((n, k)) => if k + n <= s.len() && text_ok(l, s.subrange(k as int, (k + n) as int)) {
                Some((WireValue::Text(s.subrange(k as int, (k + n) as int)), k + n))
            } else {
                None
            },
            None => None,
        },
        _ => {
            let w = fixed_width(l).unwrap();
            if s.len() >= w {
                Some((WireValue::Fixed(s.take(w as int)), w))
            } else {
                None
            }
        },
    }
}

/// Decodes `n` values of layout `l`, one after another, from the front of `s`.
pub open spec fn parse_list(l: PrimitiveArgumentLayout, n: nat, s: Seq<u8>) -> Option<(WireList, nat)>
    decreases l, 1nat, n,
{
    if n == 0 {
        Some((WireList::Nil, 0))
    } else {
        match parse(l, s) {
            Some((v, k)) => match parse_list(l, (n - 1) as nat, s.skip(k as int)) {
                Some((vs, j)) => Some((WireList::Cons(Box::new(v), Box::new(vs)), k + j)),
                None => None,
            },
            None => None,
        }
    }
}

/// The bytes are exactly one value of layout `l`, with nothing left over.
pub open spec fn valid_encoding(l: PrimitiveArgumentLayout, s: Seq<u8>) -> bool {
    match parse(l, s) {
        Some((_, k)) => k == s.len(),
        None => false,
    }
}

pub open spec fn consumed(p: Option<(WireValue, nat)>) -> Option<nat> {
    match p {
        Some((_, k)) => Some(k),
        None => None,
    }
}

pub open spec fn consumed_list(p: Option<(WireList, nat)>) -> Option<nat> {
    match p {
        Some((_, k)) => Some(k),
        None => None,
    }
}

/// The bytes of a value.
pub open spec fn encode(v: WireValue) -> Seq<u8>
    decreases v,
{
    match v {
        WireValue::Bool(b) => seq![if b { 1u8 } else { 0u8 }],
        WireValue::Fixed(bytes) => bytes,
        WireValue::Text(bytes) => uleb_encode(bytes.len()) + bytes,
        WireValue::Vector(vs) => uleb_encode(list_len(vs)) + encode_list(vs),
        WireValue::OptNone => seq![0u8],
        WireValue::OptSome(x) => seq![1u8] + encode(*x),
    }
}

/// The bytes of the elements of a vector, one after another.
pub open spec fn encode_list(vs: WireList) -> Seq<u8>
    decreases vs,
{
    match vs {
        WireList::Nil => Seq::empty(),
        WireList::Cons(v, rest) => encode(*v) + encode_list(*rest),
    }
}

/// `v` is a value of layout `l`: widths match, strings are well formed, and
/// sequences are no longer than the format admits.
pub open spec fn has_layout(v: WireValue, l: PrimitiveArgumentLayout) -> bool
    decreases v,
{
    match v {
        WireValue::Bool(_) => l is Bool,
        WireValue::Fixed(bytes) => fixed_width(l) == Some(bytes.len()),
        WireValue::Text(bytes) => (l is Ascii || l is UTF8) && bytes.len() <= MAX_SEQUENCE_LENGTH
            && text_ok(l, bytes),
        WireValue::Vector(vs) => match l {
            PrimitiveArgumentLayout::Vector(inner) => list_len(vs) <= MAX_SEQUENCE_LENGTH
                && list_has_layout(vs, *inner),
            _ => false,
        },
        WireValue::OptNone => l is Option,
        WireValue::OptSome(x) => match l {
            PrimitiveArgumentLayout::Option(inner) => has_layout(*x, *inner),
            _ => false,
        },
    }
}

pub open spec fn list_has_layout(vs: WireList, l: PrimitiveArgumentLayout) -> bool
    decreases vs,
{
    match vs {
        WireList::Nil => true,
        WireList::Cons(v, rest) => has_layout(*v, l) && list_has_layout(*rest, l),
    }
}

proof fn lemma_uleb_len(n: nat, k: nat)
    requires
        k >= 1,
        n < pow128(k),
    ensures
        uleb_encode(n).len() <= k,
    decreases n,
{
    if n >= 128 {
        if k == 1 {
            assert(pow128(1) == 128) by {
                reveal_with_fuel(pow128, 2);
            }
        }
        let p = pow128((k - 1) as nat);
        assert(n / 128 < p) by (nonlinear_arith)
            requires
                n < 128 * p,
        ;
        lemma_uleb_len(n / 128, (k - 1) as nat);
    }
}

proof fn lemma_uleb_digits_round_trip(n: nat, rest: Seq<u8>, budget: nat, first: bool)
    requires
        uleb_encode(n).len() <= budget,
        first || n > 0,
    ensures
        uleb_digits(uleb_encode(n) + rest, budget, first) == Some((n, uleb_encode(n).len())),
    decreases n,
{
    let s = uleb_encode(n) + rest;
    if n < 128 {
        assert(s[0] == n as u8);
    } else {
        lemma_uleb_digits_round_trip(n / 128, rest, (budget - 1) as nat, false);
        assert(s.drop_first() =~= uleb_encode(n / 128) + rest);
        assert(s[0] == (n % 128 + 128) as u8);
    }
}

proof fn lemma_uleb_digits_sound(s: Seq<u8>, budget: nat, first: bool)
    ensures
        uleb_digits(s, budget, first) matches Some((v, k)) ==> k <= s.len() && s.take(k as int)
            == uleb_encode(v) && (!first ==> v > 0),
    decreases budget,
{
    if budget > 0 && s.len() > 0 {
        if s[0] < 128 {
            assert(s.take(1) =~= seq![s[0]]);
        } else {
            lemma_uleb_digits_sound(s.drop_first(), (budget - 1) as nat, false);
            if let Some((w, j)) = uleb_digits(s.drop_first(), (budget - 1) as nat, false) {
                let v: nat = ((s[0] - 128) + 128 * w) as nat;
                assert(v % 128 == s[0] - 128 && v / 128 == w) by (nonlinear_arith)
                    requires
                        v == (s[0] - 128) + 128 * w,
                        0 <= s[0] - 128 < 128,
                ;
                assert(s.take((j + 1) as int) =~= seq![s[0]] + s.drop_first().take(j as int));
            }
        }
    }
}

/// A length read from the front of `s` is the canonical encoding of that length.
pub(crate) proof fn lemma_length_sound(s: Seq<u8>)
    ensures
        parse_length(s) matches Some((n, k)) ==> k <= s.len() && s.take(k as int) == uleb_encode(n)
            && n <= MAX_SEQUENCE_LENGTH,
{
    lemma_uleb_digits_sound(s, 5, true);
}

pub(crate) proof fn lemma_length_round_trip(n: nat, rest: Seq<u8>)
    requires
        n <= MAX_SEQUENCE_LENGTH,
    ensures
        parse_length(uleb_encode(n) + rest) == Some((n, uleb_encode(n).len())),
{
    assert(pow128(5) == 34359738368) by {
        reveal_with_fuel(pow128, 6);
    }
    lemma_uleb_len(n, 5);
    lemma_uleb_digits_round_trip(n, rest, 5, true);
}

/// Decoding the bytes of a value followed by any other bytes gives the value
/// back and reads exactly its own bytes, leaving the rest unread.
pub proof fn lemma_round_trip_rest(v: WireValue, l: PrimitiveArgumentLayout, rest: Seq<u8>)
    requires
        has_layout(v, l),
    ensures
        parse(l, encode(v) + rest) == Some((v, encode(v).len())),
    decreases v,
{
    let s = encode(v) + rest;
    match v {
        WireValue::Bool(b) => {
            assert(s[0] == if b { 1u8 } else { 0u8 });
        },
        WireValue::Fixed(bytes) => {
            assert(s.take(bytes.len() as int) =~= bytes);
        },
        WireValue::Text(bytes) => {
            let u = uleb_encode(bytes.len());
            assert(s =~= u + (bytes + rest));
            lemma_length_round_trip(bytes.len(), bytes + rest);
            assert(s.subrange(u.len() as int, (u.len() + bytes.len()) as int) =~= bytes);
        },
        WireValue::Vector(vs) => {
            if let PrimitiveArgumentLayout::Vector(inner) = l {
                let u = uleb_encode(list_len(vs));
                assert(s =~= u + (encode_list(vs) + rest));
                lemma_length_round_trip(list_len(vs), encode_list(vs) + rest);
                assert(s.skip(u.len() as int) =~= encode_list(vs) + rest);
                lemma_round_trip_list(vs, *inner, rest);
            }
        },
        WireValue::OptNone => {},
        WireValue::OptSome(x) => {
            if let PrimitiveArgumentLayout::Option(inner) = l {
                assert(s.drop_first() =~= encode(*x) + rest);
                lemma_round_trip_rest(*x, *inner, rest);
            }
        },
    }
}

proof fn lemma_round_trip_list(vs: WireList, l: PrimitiveArgumentLayout, rest: Seq<u8>)
    requires
        list_has_layout(vs, l),
    ensures
        parse_list(l, list_len(vs), encode_list(vs) + rest) == Some((vs, encode_list(vs).len())),
    decreases vs,
{
    if let WireList::Cons(v, tail) = vs {
        let s = encode_list(vs) + rest;
        assert(s =~= encode(*v) + (encode_list(*tail) + rest));
        lemma_round_trip_rest(*v, l, encode_list(*tail) + rest);
        assert(s.skip(encode(*v).len() as int) =~= encode_list(*tail) + rest);
        lemma_round_trip_list(*tail, l, rest);
    }
}

/// Decoding the bytes of a value against its own layout gives that value back,
/// using all the bytes.
pub proof fn lemma_round_trip(v: WireValue, l: PrimitiveArgumentLayout)
    requires
        has_layout(v, l),
    ensures
        parse(l, encode(v)) == Some((v, encode(v).len())),
        valid_encoding(l, encode(v)),
{
    lemma_round_trip_rest(v, l, Seq::empty());
    assert(encode(v) + Seq::empty() =~= encode(v));
}

proof fn lemma_parse_sound(l: PrimitiveArgumentLayout, s: Seq<u8>)
    ensures
        parse(l, s) matches Some((v, k)) ==> k <= s.len() && has_layout(v, l) && encode(v) == s.take(
            k as int,
        ),
    decreases l, 0nat, 0nat,
{
    match l {
        PrimitiveArgumentLayout::Bool => {
            if s.len() >= 1 && s[0] <= 1 {
                assert(s.take(1) =~= seq![if s[0] == 1 { 1u8 } else { 0u8 }]);
            }
        },
        PrimitiveArgumentLayout::Option(inner) => {
            if s.len() >= 1 && s[0] == 0 {
                assert(s.take(1) =~= seq![0u8]);
            } else if s.len() >= 1 && s[0] == 1 {
                lemma_parse_sound(*inner, s.drop_first());
                if let Some((v, k)) = parse(*inner, s.drop_first()) {
                    assert(s.take((k + 1) as int) =~= seq![1u8] + s.drop_first().take(k as int));
                }
            }
        },
        PrimitiveArgumentLayout::Vector(inner) => {
            lemma_length_sound(s);
            if let Some((n, k)) = parse_length(s) {
                lemma_list_sound(*inner, n, s.skip(k as int));
                if let Some((vs, j)) = parse_list(*inner, n, s.skip(k as int)) {
                    assert(s.take((k + j) as int) =~= s.take(k as int) + s.skip(k as int).take(
                        j as int,
                    ));
                }
            }
        },
        PrimitiveArgumentLayout::Ascii | PrimitiveArgumentLayout::UTF8 => {
            lemma_length_sound(s);
            if let Some((n, k)) = parse_length(s) {
                if k + n <= s.len() {
                    let sub = s.subrange(k as int, (k + n) as int);
                    assert(s.take((k + n) as int) =~= s.take(k as int) + sub);
                }
            }
        },
        _ => {},
    }
}

proof fn lemma_list_sound(l: PrimitiveArgumentLayout, n: nat, s: Seq<u8>)
    ensures
        parse_list(l, n, s) matches Some((vs, k)) ==> k <= s.len() && list_has_layout(vs, l)
            && list_len(vs) == n && encode_list(vs) == s.take(k as int),
    decreases l, 1nat, n,
{
    if n == 0 {
        assert(s.take(0) =~= Seq::<u8>::empty());
    } else {
        lemma_parse_sound(l, s);
        if let Some((v, k)) = parse(l, s) {
            lemma_list_sound(l, (n - 1) as nat, s.skip(k as int));
            if let Some((vs, j)) = parse_list(l, (n - 1) as nat, s.skip(k as int)) {
                assert(s.take((k + j) as int) =~= s.take(k as int) + s.skip(k as int).take(j as int));
            }
        }
    }
}

/// The bytes that the validator accepts for a layout are exactly the
/// encodings of the values of that layout.
pub proof fn lemma_valid_iff_encoding(l: PrimitiveArgumentLayout, s: Seq<u8>)
    ensures
        valid_encoding(l, s) <==> exists|v: WireValue| has_layout(v, l) && encode(v) == s,
{
    lemma_parse_sound(l, s);
    if let Some((v, k)) = parse(l, s) {
        if k == s.len() {
            assert(s.take(k as int) =~= s);
        }
    }
    if exists|v: WireValue| has_layout(v, l) && encode(v) == s {
        let v = choose|v: WireValue| has_layout(v, l) && encode(v) == s;
        lemma_round_trip(v, l);
    }
}

/// Relies on bcs::to_bytes for a `bool`: one byte, 1 for true and 0 for false.
#[verifier::external_body]
pub(crate) fn bcs_bool(b: bool) -> (r: Vec<u8>)
    ensures
        r@ == encode(WireValue::Bool(b)),
{
    bcs::to_bytes(&b).unwrap()
}

/// The number the bytes of `b` stand for, least significant first.
pub open spec fn le_value(b: Seq<u8>) -> nat
    decreases b.len(),
{
    if b.len() == 0 {
        0
    } else {
        b[0] as nat + 256 * le_value(b.drop_first())
    }
}

/// Relies on bcs::from_bytes for a `u64`: exactly eight bytes, little-endian.
#[verifier::external_body]
pub(crate) fn bcs_u64(b: &Vec<u8>) -> (r: Option<u64>)
    ensures
        r is Some <==> b@.len() == 8,
        r matches Some(n) ==> n as nat == le_value(b@),
{
    bcs::from_bytes::<u64>(b).ok()
}

/// Relies on leb128::write::unsigned: appends the LEB128 encoding of `n` to a
/// `Vec`, which cannot fail.
#[verifier::external_body]
pub(crate) fn write_uleb128(out: &mut Vec<u8>, n: u64)
    ensures
        final(out)@ == old(out)@ + uleb_encode(n as nat),
{
    leb128::write::unsigned(out, n).unwrap();
}

/// Relies on std::str::from_utf8: it succeeds exactly on well-formed UTF-8.
#[verifier::external_body]
fn utf8_ok(b: &Vec<u8>, start: usize, end: usize) -> (r: bool)
    requires
        start <= end <= b@.len(),
    ensures
        r == valid_utf8(b@.subrange(start as int, end as int)),
{
    std::str::from_utf8(&b[start..end]).is_ok()
}

fn read_uleb_digits(b: &Vec<u8>, pos: usize, budget: u64, first: bool) -> (r: Option<(u64, usize)>)
    requires
        pos <= b@.len(),
        budget <= 5,
    ensures
        match uleb_digits(b@.skip(pos as int), budget as nat, first) {
            Some((v, k)) => r matches Some((m, q)) && m == v && q == pos + k && q <= b@.len() && v
                < pow128(budget as nat),
            None => r is None,
        },
    decreases budget,
{
    proof {
        lemma_uleb_digits_bound(b@.skip(pos as int), budget as nat, first);
    }
    if budget == 0 || pos >= b.len() {
        return None;
    }
    let byte = b[pos];
    if byte < 128 {
        if !first && byte == 0 {
            None
        } else {
            Some((byte as u64, pos + 1))
        }
    } else {
        assert(b@.skip(pos as int).drop_first() =~= b@.skip(pos + 1));
        match read_uleb_digits(b, pos + 1, budget - 1, false) {
            Some((v, p)) => {
                proof {
                    lemma_pow128_le5((budget - 1) as nat);
                }
                Some(((byte - 128) as u64 + 128 * v, p))
            },
            None => None,
        }
    }
}

pub open spec fn pow128(n: nat) -> nat
    decreases n,
{
    if n == 0 {
        1
    } else {
        128 * pow128((n - 1) as nat)
    }
}

proof fn lemma_pow128_le5(n: nat)
    requires
        n <= 4,
    ensures
        pow128(n) <= 268435456,
{
    reveal_with_fuel(pow128, 5);
}

proof fn lemma_uleb_digits_bound(s: Seq<u8>, budget: nat, first: bool)
    ensures
        uleb_digits(s, budget, first) matches Some((v, k)) ==> v < pow128(budget) && 1 <= k
            <= budget && k <= s.len(),
    decreases budget,
{
    if budget > 0 && s.len() > 0 && s[0] >= 128 {
        lemma_uleb_digits_bound(s.drop_first(), (budget - 1) as nat, false);
        if let Some((v, k)) = uleb_digits(s.drop_first(), (budget - 1) as nat, false) {
            let p = pow128((budget - 1) as nat);
            assert((s[0] - 128) + 128 * v < 128 * p) by (nonlinear_arith)
                requires
                    v < p,
                    s[0] - 128 < 128,
            ;
        }
    } else if budget > 0 && s.len() > 0 {
        assert(pow128(budget) >= 128) by {
            lemma_pow128_ge1((budget - 1) as nat);
        }
    }
}

proof fn lemma_pow128_ge1(n: nat)
    ensures
        pow128(n) >= 1,
    decreases n,
{
    if n > 0 {
        lemma_pow128_ge1((n - 1) as nat);
    }
}

/// Reads a sequence length at `pos`; gives the length and the position after it.
pub(crate) fn read_length(b: &Vec<u8>, pos: usize) -> (r: Option<(u64, usize)>)
    requires
        pos <= b@.len(),
    ensures
        match parse_length(b@.skip(pos as int)) {
            Some((n, k)) => r matches Some((m, q)) && m == n && q == pos + k && q <= b@.len(),
            None => r is None,
        },
{
    proof {
        lemma_uleb_digits_bound(b@.skip(pos as int), 5, true);
        reveal_with_fuel(pow128, 6);
    }
    match read_uleb_digits(b, pos, 5, true) {
        Some((v, p)) => if v <= MAX_SEQUENCE_LENGTH {
            Some((v, p))
        } else {
            None
        },
        None => None,
    }
}

fn all_ascii(b: &Vec<u8>, start: usize, end: usize) -> (r: bool)
    requires
        start <= end <= b@.len(),
    ensures
        r == is_ascii_bytes(b@.subrange(start as int, end as int)),
{
    let mut i = start;
    while i < end
        invariant
            start <= i <= end <= b@.len(),
            forall|j: int| start <= j < i ==> b@[j] < 128,
        decreases end - i,
    {
        if b[i] >= 128 {
            assert(b@.subrange(start as int, end as int)[i - start] >= 128);
            return false;
        }
        i += 1;
    }
    assert forall|j: int| 0 <= j < end - start implies b@.subrange(
        start as int,
        end as int,
    )[j] < 128 by {
        assert(b@.subrange(start as int, end as int)[j] == b@[start + j]);
    }
    true
}

/// Walks one value of layout `l` starting at `pos`; gives the position after it.
fn validate_at(l: &PrimitiveArgumentLayout, b: &Vec<u8>, pos: usize) -> (r: Option<usize>)
    requires
        pos <= b@.len(),
    ensures
        match consumed(parse(*l, b@.skip(pos as int))) {
            Some(k) => r matches Some(q) && q == pos + k,
            None => r is None,
        },
    decreases l, 0nat, 0nat,
{
    let ghost s = b@.skip(pos as int);
    proof {
        lemma_parse_within(*l, s);
    }
    match l {
        PrimitiveArgumentLayout::Bool => {
            if pos < b.len() && b[pos] <= 1 {
                Some(pos + 1)
            } else {
                None
            }
        },
        PrimitiveArgumentLayout::Option(inner) => {
            if pos < b.len() && b[pos] == 0 {
                Some(pos + 1)
            } else if pos < b.len() && b[pos] == 1 {
                assert(s.drop_first() =~= b@.skip(pos + 1));
                validate_at(inner, b, pos + 1)
            } else {
                None
            }
        },
        PrimitiveArgumentLayout::Vector(inner) => {
            match read_length(b, pos) {
                Some((n, p0)) => {
                    assert(s.skip(p0 - pos) =~= b@.skip(p0 as int));
                    validate_list(inner, n, b, p0)
                },
                None => None,
            }
        },
        PrimitiveArgumentLayout::Ascii | PrimitiveArgumentLayout::UTF8 => {
            match read_length(b, pos) {
                Some((n, p0)) => {
                    if n as usize > b.len() - p0 {
                        return None;
                    }
                    let end = p0 + n as usize;
                    assert(s.subrange(p0 - pos, end - pos) =~= b@.subrange(p0 as int, end as int));
                    let ok = match l {
                        PrimitiveArgumentLayout::Ascii => all_ascii(b, p0, end),
                        _ => utf8_ok(b, p0, end),
                    };
                    if ok {
                        Some(end)
                    } else {
                        None
                    }
                },
                None => None,
            }
        },
        _ => {
            let w: usize = match l {
                PrimitiveArgumentLayout::U8 => 1,
                PrimitiveArgumentLayout::U16 => 2,
                PrimitiveArgumentLayout::U32 => 4,
                PrimitiveArgumentLayout::U64 => 8,
                PrimitiveArgumentLayout::U128 => 16,
                _ => 32,
            };
            if w <= b.len() - pos {
                Some(pos + w)
            } else {
                None
            }
        },
    }
}

/// Walks `n` values of layout `l` starting at `pos`.
fn validate_list(l: &PrimitiveArgumentLayout, n: u64, b: &Vec<u8>, pos: usize) -> (r: Option<usize>)
    requires
        pos <= b@.len(),
    ensures
        match consumed_list(parse_list(*l, n as nat, b@.skip(pos as int))) {
            Some(k) => r matches Some(q) && q == pos + k,
            None => r is None,
        },
    decreases l, 1nat, n,
{
    let mut i: u64 = 0;
    let mut p = pos;
    while i < n
        invariant
            pos <= p <= b@.len(),
            i <= n,
            consumed_list(parse_list(*l, n as nat, b@.skip(pos as int))) == match consumed_list(
                parse_list(*l, (n - i) as nat, b@.skip(p as int)),
            ) {
                Some(j) => Some((j + (p - pos)) as nat),
                None => None,
            },
        decreases n - i,
    {
        proof {
            lemma_parse_within(*l, b@.skip(p as int));
        }
        match validate_at(l, b, p) {
            Some(q) => {
                assert(b@.skip(p as int).skip(q - p) =~= b@.skip(q as int));
                p = q;
                i += 1;
            },
            None => {
                return None;
            },
        }
    }
    proof {
        lemma_list_within(*l, n as nat, b@.skip(pos as int));
    }
    Some(p)
}

proof fn lemma_parse_within(l: PrimitiveArgumentLayout, s: Seq<u8>)
    ensures
        parse(l, s) matches Some((_, k)) ==> k <= s.len(),
    decreases l, 0nat, 0nat,
{
    match l {
        PrimitiveArgumentLayout::Option(inner) => {
            if s.len() >= 1 {
                lemma_parse_within(*inner, s.drop_first());
            }
        },
        PrimitiveArgumentLayout::Vector(inner) => {
            lemma_uleb_digits_bound(s, 5, true);
            if let Some((n, k)) = parse_length(s) {
                lemma_list_within(*inner, n, s.skip(k as int));
            }
        },
        _ => {},
    }
}

proof fn lemma_list_within(l: PrimitiveArgumentLayout, n: nat, s: Seq<u8>)
    ensures
        parse_list(l, n, s) matches Some((_, k)) ==> k <= s.len(),
    decreases l, 1nat, n,
{
    if n > 0 {
        lemma_parse_within(l, s);
        if let Some((v, k)) = parse(l, s) {
            lemma_list_within(l, (n - 1) as nat, s.skip(k as int));
        }
    }
}

/// Checks that `bytes` hold exactly one value of `layout`. It does not build the
/// value, it only walks the bytes.
pub fn bcs_argument_validate(bytes: &Vec<u8>, idx: u16, layout: PrimitiveArgumentLayout) -> (r:
    Result<(), ExecutionError>)
    ensures
        valid_encoding(layout, bytes@) ==> r == Ok::<(), ExecutionError>(()),
        !valid_encoding(layout, bytes@) ==> r == Err::<(), ExecutionError>(
            command_argument_error(CommandArgumentError::InvalidBCSBytes, idx),
        ),
{
    assert(bytes@.skip(0) =~= bytes@);
    match validate_at(&layout, bytes, 0) {
        Some(end) => if end == bytes.len() {
            Ok(())
        } else {
            Err(ExecutionError::command_argument(CommandArgumentError::InvalidBCSBytes, idx))
        },
        None => Err(ExecutionError::command_argument(CommandArgumentError::InvalidBCSBytes, idx)),
    }
}

} // verus!
