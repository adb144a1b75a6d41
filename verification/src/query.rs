//! The pull interface: identifier filters written as text, and the answer
//! to a query over the history.

use vstd::prelude::*;
use vstd::string::StringSliceAdditionalSpecFns;
use vstd::utf8::encode_utf8;
use crate::history::{selected, HistoryStore};
use crate::message::{all_wf, views, CanMessage};

verus! {

/// The byte `0`.
pub const BYTE_ZERO: u8 = 48;

/// The byte `9`.
pub const BYTE_NINE: u8 = 57;

/// The byte `A`.
pub const BYTE_UPPER_A: u8 = 65;

/// The byte `F`.
pub const BYTE_UPPER_F: u8 = 70;

/// The byte `a`.
pub const BYTE_LOWER_A: u8 = 97;

/// The byte `f`.
pub const BYTE_LOWER_F: u8 = 102;

/// The byte `x`.
pub const BYTE_LOWER_X: u8 = 120;

/// The value of `byte` read as a digit of the base `radix` (ten or
/// sixteen), if it is one.
pub open spec fn digit_value(byte: u8, radix: nat) -> Option<nat> {
    if BYTE_ZERO <= byte <= BYTE_NINE {
        Some((byte - BYTE_ZERO) as nat)
    } else if radix == 16 && BYTE_LOWER_A <= byte <= BYTE_LOWER_F {
        Some((byte - BYTE_LOWER_A + 10) as nat)
    } else if radix == 16 && BYTE_UPPER_A <= byte <= BYTE_UPPER_F {
        Some((byte - BYTE_UPPER_A + 10) as nat)
    } else {
        None
    }
}

/// Whether every byte of `digits` is a digit of the base `radix`.
pub open spec fn all_digits(digits: Seq<u8>, radix: nat) -> bool {
    forall|i: int| 0 <= i < digits.len() ==> digit_value(#[trigger] digits[i], radix) is Some
}

/// The number that `digits` writes in the base `radix`, most significant
/// digit first.
pub open spec fn number(digits: Seq<u8>, radix: nat) -> nat
    decreases digits.len(),
{
    if digits.len() == 0 {
        0
    } else {
        number(digits.drop_last(), radix) * radix + match digit_value(digits.last(), radix) {
            Some(d) => d,
            None => 0,
        }
    }
}

/// Whether `text` begins with `0x`.
pub open spec fn has_hex_prefix(text: Seq<u8>) -> bool {
    text.len() >= 2 && text[0] == BYTE_ZERO && text[1] == BYTE_LOWER_X
}

/// The identifier that `text` writes: hexadecimal digits after `0x`,
/// decimal digits otherwise; at least one digit, nothing else, and a value
/// that fits 32 bits.
pub open spec fn parse_id_spec(text: Seq<u8>) -> Option<u32> {
    let radix: nat = if has_hex_prefix(text) {
        16
    } else {
        10
    };
    let digits = if has_hex_prefix(text) {
        text.skip(2)
    } else {
        text
    };
    if digits.len() > 0 && all_digits(digits, radix) && number(digits, radix) <= u32::MAX {
        Some(number(digits, radix) as u32)
    } else {
        None
    }
}

/// A number is never smaller than what its leading digits write.
proof fn lemma_prefix_number(digits: Seq<u8>, radix: nat, k: int)
    requires
        0 <= k <= digits.len(),
        radix >= 1,
    ensures
        number(digits.take(k), radix) <= number(digits, radix),
    decreases digits.len(),
{
    if k < digits.len() {
        lemma_prefix_number(digits.drop_last(), radix, k);
        assert(digits.drop_last().take(k) =~= digits.take(k));
        let shorter = number(digits.drop_last(), radix);
        assert(shorter * radix >= shorter) by (nonlinear_arith)
            requires
                radix >= 1,
                shorter >= 0,
        ;
    } else {
        assert(digits.take(k) =~= digits);
    }
}

/// Reads one digit of the base `radix`.
fn read_digit(byte: u8, radix: u32) -> (r: Option<u32>)
    requires
        radix == 10 || radix == 16,
    ensures
        match r {
            Some(d) => digit_value(byte, radix as nat) == Some(d as nat) && d < radix,
            None => digit_value(byte, radix as nat) is None,
        },
{
    if BYTE_ZERO <= byte && byte <= BYTE_NINE {
        Some((byte - BYTE_ZERO) as u32)
    } else if radix == 16 && BYTE_LOWER_A <= byte && byte <= BYTE_LOWER_F {
        Some((byte - BYTE_LOWER_A + 10) as u32)
    } else if radix == 16 && BYTE_UPPER_A <= byte && byte <= BYTE_UPPER_F {
        Some((byte - BYTE_UPPER_A + 10) as u32)
    } else {
        None
    }
}

/// Reads an identifier from the bytes of its text.
pub fn parse_id_bytes(text: &[u8]) -> (r: Option<u32>)
    ensures
        r == parse_id_spec(text@),
{
    let n = text.len();
    let hex = n >= 2 && text[0] == BYTE_ZERO && text[1] == BYTE_LOWER_X;
    let radix: u32 = if hex {
        16
    } else {
        10
    };
    let start: usize = if hex {
        2
    } else {
        0
    };
    if start == n {
        return None;
    }
    let ghost digits = if hex {
        text@.skip(2)
    } else {
        text@
    };
    let mut value: u64 = 0;
    let mut i: usize = start;
    assert(digits.take(0) =~= Seq::<u8>::empty());
    while i < n
        invariant
            start <= i <= n,
            n == text@.len(),
            hex == has_hex_prefix(text@),
            radix == if hex { 16u32 } else { 10u32 },
            start == if hex { 2usize } else { 0usize },
            digits == if hex { text@.skip(2) } else { text@ },
            all_digits(digits.take(i - start), radix as nat),
            value == number(digits.take(i - start), radix as nat),
            value <= u32::MAX,
        decreases n - i,
    {
        let ghost k = i - start;
        proof {
            assert(digits.take(k + 1).drop_last() =~= digits.take(k));
            assert(digits.take(k + 1).last() == text@[i as int]);
        }
        match read_digit(text[i], radix) {
            None => {
                assert(!all_digits(digits, radix as nat)) by {
                    assert(digit_value(digits[k], radix as nat) is None);
                }
                return None;
            },
            Some(d) => {
                assert(value * radix + d <= 0xFFFF_FFFF * 16 + 15) by (nonlinear_arith)
                    requires
                        value <= 0xFFFF_FFFF,
                        radix <= 16,
                        d <= 15,
                ;
                let next: u64 = value * (radix as u64) + (d as u64);
                assert(next == number(digits.take(k + 1), radix as nat));
                if next > 0xFFFF_FFFF {
                    proof {
                        lemma_prefix_number(digits, radix as nat, k + 1);
                    }
                    return None;
                }
                assert(all_digits(digits.take(k + 1), radix as nat)) by {
                    assert forall|j: int| 0 <= j < digits.take(k + 1).len() implies digit_value(
                        #[trigger] digits.take(k + 1)[j],
                        radix as nat,
                    ) is Some by {
                        if j < k {
                            assert(digits.take(k)[j] == digits.take(k + 1)[j]);
                        }
                    }
                }
                value = next;
            },
        }
        i += 1;
    }
    assert(digits.take(n - start) =~= digits);
    Some(value as u32)
}

/// Reads an identifier filter as a consumer writes it: decimal, or
/// hexadecimal after `0x`. Anything else is no identifier.
pub fn parse_filter_id(text: &str) -> (r: Option<u32>)
    ensures
        r == parse_id_spec(text.spec_bytes()),
{
    parse_id_bytes(text.as_bytes())
}

/// Whether `key` is the name under which a query carries a filter.
pub open spec fn is_filter_key(key: Seq<char>) -> bool {
    key == "filter_id"@
}

/// The identifiers that the parameters of a query ask for: of every
/// parameter named `filter_id` the value, where it writes an identifier,
/// in the order of the parameters.
pub open spec fn filter_ids(params: Seq<(String, String)>) -> Seq<u32>
    decreases params.len(),
{
    if params.len() == 0 {
        Seq::empty()
    } else {
        let earlier = filter_ids(params.drop_last());
        let (key, value) = params.last();
        match parse_id_spec(encode_utf8(value@)) {
            Some(id) => if is_filter_key(key@) {
                earlier.push(id)
            } else {
                earlier
            },
            None => earlier,
        }
    }
}

/// Collects the identifier filters from the parameters of a query. A
/// parameter of another name, or a value that writes no identifier, is
/// passed over.
pub fn collect_filter_ids(params: &Vec<(String, String)>) -> (ids: Vec<u32>)
    ensures
        ids@ == filter_ids(params@),
{
    let wanted: String = "filter_id".to_owned();
    let mut ids: Vec<u32> = Vec::new();
    let mut i: usize = 0;
    assert(params@.take(0) =~= Seq::<(String, String)>::empty());
    while i < params.len()
        invariant
            i <= params.len(),
            wanted@ == "filter_id"@,
            ids@ == filter_ids(params@.take(i as int)),
        decreases params.len() - i,
    {
        proof {
            assert(params@.take(i + 1).drop_last() =~= params@.take(i as int));
            assert(params@.take(i + 1).last() == params@[i as int]);
        }
        let pair = &params[i];
        if pair.0 == wanted {
            match parse_filter_id(pair.1.as_str()) {
                Some(id) => {
                    ids.push(id);
                },
                None => {},
            }
        }
        i += 1;
    }
    assert(params@.take(i as int) =~= params@);
    ids
}

/// The answer to a query.
#[derive(Debug)]
pub enum QueryResult {
    /// The history holds nothing at all.
    NoMessages,
    /// The records that pass the filter; none where no record does.
    Messages(Vec<CanMessage>),
}

/// Answers a query from the history as it stands: an empty history is
/// told apart from a filter that nothing passes. The answer holds no more
/// records than the history can, each of them well formed.
pub fn query(store: &HistoryStore, filter: &[u32]) -> (r: QueryResult)
    ensures
        match r {
            QueryResult::NoMessages => store@.len() == 0,
            QueryResult::Messages(list) => {
                &&& store@.len() > 0
                &&& views(list@) == selected(store@, filter@)
                &&& list@.len() <= store.capacity_spec()
                &&& all_wf(views(list@))
            },
        },
{
    if store.is_empty() {
        QueryResult::NoMessages
    } else {
        QueryResult::Messages(store.snapshot(filter))
    }
}

/// Answers a query given by its parameters: the filters are collected
/// from them, and the history is read once.
pub fn answer_query(store: &HistoryStore, params: &Vec<(String, String)>) -> (r: QueryResult)
    ensures
        match r {
            QueryResult::NoMessages => store@.len() == 0,
            QueryResult::Messages(list) => {
                &&& store@.len() > 0
                &&& views(list@) == selected(store@, filter_ids(params@))
                &&& list@.len() <= store.capacity_spec()
                &&& all_wf(views(list@))
            },
        },
{
    let ids = collect_filter_ids(params);
    query(store, ids.as_slice())
}

} // verus!
