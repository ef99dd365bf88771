//! Decoders: from a raw payload to the value a price is made of.
//!
//! A kline message yields the text of its close price, which spells a
//! floating-point number; a swap log yields its square-root price as an
//! integer. Turning either into a number with a fraction is left to the
//! caller.

use crate::literal::is_float_literal;
use crate::literal::is_float_text;
use ethabi::ParamType;
use ethabi::Token;
use vstd::prelude::*;
use vstd::utf8::encode_utf8;

verus! {

/// The string that a JSON text holds under `outer`, then `inner`: `Some` when
/// the text parses, its root is an object whose member `outer` is an object
/// whose member `inner` is a string.
pub uninterp spec fn json_string_at(payload: Seq<char>, outer: Seq<char>, inner: Seq<char>) -> Option<Seq<char>>;

/// Parses `payload` with `serde_json::from_str` and reads the string at
/// `[outer][inner]` of the parsed value with `Value`'s index operator and
/// `Value::as_str`. The result is a function of the three texts alone, and
/// the contract gives it its name; it claims nothing else of it.
#[verifier::external_body]
fn nested_string(payload: &str, outer: &str, inner: &str) -> (found: Option<String>)
    ensures
        found is Some <==> json_string_at(payload@, outer@, inner@) is Some,
        found matches Some(text) ==> json_string_at(payload@, outer@, inner@) == Some(text@),
{
    let json = serde_json::from_str::<serde_json::Value>(payload).ok()?;
    json[outer][inner].as_str().map(|text| text.to_string())
}

/// The close price that a string field yields: the string itself where it
/// spells a floating-point number, and nothing where the field is missing or
/// spells none.
pub open spec fn price_text(field: Option<Seq<char>>) -> Option<Seq<char>> {
    match field {
        Some(text) => if is_float_literal(encode_utf8(text)) {
            Some(text)
        } else {
            None
        },
        None => None,
    }
}

/// The close price that a kline message carries, as text.
pub open spec fn close_price_text(message: Seq<char>) -> Option<Seq<char>> {
    price_text(json_string_at(message, "k"@, "c"@))
}

/// Keeps a string field as a price where it spells a floating-point number.
pub fn check_price_text(field: Option<String>) -> (price: Option<String>)
    ensures
        price is Some <==> price_text(
            match field {
                Some(text) => Some(text@),
                None => None,
            },
        ) is Some,
        price matches Some(text) ==> field == Some(text),
{
    match field {
        Some(text) => {
            if is_float_text(text.as_str()) {
                Some(text)
            } else {
                None
            }
        },
        None => None,
    }
}

/// Picks the close price out of a kline message: the string at `k.c`, where
/// it spells a floating-point number. A message that is no JSON, that holds
/// no string there, or whose string spells no number, yields nothing.
pub fn extract_close_price(message: &str) -> (price: Option<String>)
    ensures
        price is Some <==> close_price_text(message@) is Some,
        price matches Some(text) ==> close_price_text(message@) == Some(text@),
{
    check_price_text(nested_string(message, "k", "c"))
}

/// The kind of a fixed-width ABI parameter, with its width in bits.
enum ParamKind {
    /// A signed integer.
    Int(usize),
    /// An unsigned integer.
    Uint(usize),
}

/// One decoded ABI parameter: its 32-byte word, most significant byte first.
enum AbiValue {
    /// A signed integer.
    Int([u8; 32]),
    /// An unsigned integer.
    Uint([u8; 32]),
    /// A parameter of any other kind.
    Other,
}

/// `value` is the parameter of kind `kind` that the 32 bytes `word` encode.
spec fn decodes_to(kind: ParamKind, word: Seq<u8>, value: AbiValue) -> bool {
    match (kind, value) {
        (ParamKind::Int(_), AbiValue::Int(bytes)) => bytes@ == word,
        (ParamKind::Uint(_), AbiValue::Uint(bytes)) => bytes@ == word,
        _ => false,
    }
}

/// Decodes `data` with `ethabi::decode` as a row of integers of the given
/// kinds. Each integer takes one 32-byte word whatever its width, so the
/// decoding succeeds exactly when `data` holds a word for each kind, and the
/// values are those words in order; bytes beyond them are ignored.
#[verifier::external_body]
fn abi_decode(kinds: &Vec<ParamKind>, data: &[u8]) -> (decoded: Option<Vec<AbiValue>>)
    ensures
        decoded is Some <==> 32 * kinds.len() <= data.len(),
        decoded matches Some(values) ==> values.len() == kinds.len() && forall|i: int|
            0 <= i < kinds.len() ==> decodes_to(
                kinds[i],
                data@.subrange(32 * i, 32 * i + 32),
                #[trigger] values[i],
            ),
{
    let types: Vec<ParamType> = kinds.iter().map(|kind| match kind {
        ParamKind::Int(bits) => ParamType::Int(*bits),
        ParamKind::Uint(bits) => ParamType::Uint(*bits),
    }).collect();
    let tokens = ethabi::decode(&types, data).ok()?;
    Some(tokens.into_iter().map(|token| match token {
        Token::Int(value) => AbiValue::Int(value.into()),
        Token::Uint(value) => AbiValue::Uint(value.into()),
        _ => AbiValue::Other,
    }).collect())
}

/// 256 to the power `n`.
pub open spec fn pow256(n: nat) -> nat
    decreases n,
{
    if n == 0 {
        1
    } else {
        256 * pow256((n - 1) as nat)
    }
}

/// The number that `bytes` spell, most significant byte first.
pub open spec fn be_value(bytes: Seq<u8>) -> nat
    decreases bytes.len(),
{
    if bytes.len() == 0 {
        0
    } else {
        256 * be_value(bytes.drop_last()) + bytes.last() as nat
    }
}

/// Bytes in front count for 256 to the number of bytes behind them.
pub proof fn lemma_be_value_concat(front: Seq<u8>, back: Seq<u8>)
    ensures
        be_value(front + back) == be_value(front) * pow256(back.len()) + be_value(back),
    decreases back.len(),
{
    if back.len() == 0 {
        assert(front + back =~= front);
        assert(be_value(front) * 1 == be_value(front)) by (nonlinear_arith);
    } else {
        let shorter = back.drop_last();
        lemma_be_value_concat(front, shorter);
        assert((front + back).drop_last() =~= front + shorter);
        assert((front + back).last() == back.last());
        assert(pow256(back.len()) == 256 * pow256(shorter.len()));
        assert(256 * (be_value(front) * pow256(shorter.len())) == be_value(front) * (256 * pow256(
            shorter.len(),
        ))) by (nonlinear_arith);
    }
}

/// A number spelt with `n` bytes is below 256 to the power `n`.
pub proof fn lemma_be_value_bound(bytes: Seq<u8>)
    ensures
        be_value(bytes) < pow256(bytes.len()),
    decreases bytes.len(),
{
    if bytes.len() > 0 {
        lemma_be_value_bound(bytes.drop_last());
    }
}

/// 256 to the power 16 is 2 to the power 128.
pub proof fn lemma_pow256_16()
    ensures
        pow256(16) == 0x1_0000_0000_0000_0000_0000_0000_0000_0000,
{
    assert(pow256(4) == 0x1_0000_0000) by {
        reveal_with_fuel(pow256, 5);
    }
    assert(pow256(8) == 0x1_0000_0000_0000_0000) by {
        reveal_with_fuel(pow256, 5);
    }
    assert(pow256(12) == 0x1_0000_0000_0000_0000_0000_0000) by {
        reveal_with_fuel(pow256, 5);
    }
    assert(pow256(16) == 0x1_0000_0000_0000_0000_0000_0000_0000_0000) by {
        reveal_with_fuel(pow256, 5);
    }
}

/// Reads the 16 bytes of `word` from `start` on as one number, most
/// significant byte first.
fn read_be_u128(word: &[u8; 32], start: usize) -> (value: u128)
    requires
        start + 16 <= 32,
    ensures
        value == be_value(word@.subrange(start as int, start + 16)),
{
    let mut value: u128 = 0;
    let mut n: usize = 0;
    while n < 16
        invariant
            start + 16 <= 32,
            n <= 16,
            value == be_value(word@.subrange(start as int, start + n)),
        decreases 16 - n,
    {
        proof {
            let seen = word@.subrange(start as int, start + n);
            let next = word@.subrange(start as int, start + n + 1);
            assert(next.drop_last() =~= seen);
            lemma_be_value_bound(seen);
            lemma_be_value_bound(next);
            lemma_pow256_monotonic((n + 1) as nat, 16);
            lemma_pow256_16();
        }
        value = value * 256 + word[start + n] as u128;
        n += 1;
    }
    value
}

/// 256 to a smaller power is no greater.
pub proof fn lemma_pow256_monotonic(m: nat, n: nat)
    requires
        m <= n,
    ensures
        pow256(m) <= pow256(n),
    decreases n,
{
    if m < n {
        lemma_pow256_monotonic(m, (n - 1) as nat);
    }
}

/// The square-root price that the data of a swap log carries. The data holds
/// five 32-byte words: two signed amounts, the square-root price, the
/// liquidity and the tick. The price is the third word read as an unsigned
/// number, where the data holds all five words and the number fits in 128
/// bits.
pub open spec fn sqrt_price_of(data: Seq<u8>) -> Option<u128> {
    if data.len() < 160 {
        None
    } else if be_value(data.subrange(64, 96)) > u128::MAX {
        None
    } else {
        Some(be_value(data.subrange(64, 96)) as u128)
    }
}

/// Decodes the square-root price, scaled by 2 to the power 96, from the data
/// of a swap log. Data that is too short, or a price beyond 128 bits, yields
/// nothing.
pub fn decode_sqrt_price(data: &[u8]) -> (price: Option<u128>)
    ensures
        price == sqrt_price_of(data@),
{
    let kinds = vec![
        ParamKind::Int(256),
        ParamKind::Int(256),
        ParamKind::Uint(160),
        ParamKind::Uint(128),
        ParamKind::Int(24),
    ];
    match abi_decode(&kinds, data) {
        None => None,
        Some(values) => {
            assert(decodes_to(kinds[2], data@.subrange(64, 96), values[2]));
            match &values[2] {
                AbiValue::Uint(word) => {
                    let high = read_be_u128(word, 0);
                    let low = read_be_u128(word, 16);
                    proof {
                        let front = word@.subrange(0, 16);
                        let back = word@.subrange(16, 32);
                        assert(word@ =~= front + back);
                        lemma_be_value_concat(front, back);
                        lemma_be_value_bound(back);
                        lemma_pow256_16();
                        assert(high >= 1 ==> high * pow256(16) >= pow256(16)) by (nonlinear_arith);
                    }
                    if high != 0 {
                        None
                    } else {
                        Some(low)
                    }
                },
                _ => None,
            }
        },
    }
}

} // verus!
