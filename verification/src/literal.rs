//! Which texts spell a floating-point number in base ten.
//!
//! A text is taken by its UTF-8 bytes. The grammar, with letters in either
//! case:
//!
//! ```text
//! Float  ::= Sign? ( 'inf' | 'infinity' | 'nan' | Number )
//! Number ::= ( Digit+ | Digit+ '.' Digit* | Digit* '.' Digit+ ) Exp?
//! Exp    ::= 'e' Sign? Digit+
//! Sign   ::= [+-]
//! Digit  ::= [0-9]
//! ```

use vstd::prelude::*;
use vstd::string::StringSliceAdditionalSpecFns;

verus! {

/// `0` to `9`.
pub open spec fn is_digit(b: u8) -> bool {
    48 <= b <= 57
}

/// `+` or `-`.
pub open spec fn is_sign(b: u8) -> bool {
    b == 43 || b == 45
}

/// `e` or `E`.
pub open spec fn is_exp_mark(b: u8) -> bool {
    b == 101 || b == 69
}

/// The lower-case form of an ASCII letter; any other byte as it is.
pub open spec fn to_lower(b: u8) -> u8 {
    if 65 <= b <= 90 {
        (b + 32) as u8
    } else {
        b
    }
}

/// The bytes from `lo` up to `hi` are digits.
pub open spec fn digits_between(bytes: Seq<u8>, lo: int, hi: int) -> bool {
    forall|k: int| lo <= k < hi ==> is_digit(#[trigger] bytes[k])
}

/// The bytes from `from` to the end spell `word`, in either case.
pub open spec fn spells(bytes: Seq<u8>, from: int, word: Seq<u8>) -> bool {
    &&& bytes.len() - from == word.len()
    &&& forall|k: int| 0 <= k < word.len() ==> to_lower(#[trigger] bytes[from + k]) == word[k]
}

/// `inf`
pub open spec fn word_inf() -> Seq<u8> {
    seq![105u8, 110u8, 102u8]
}

/// `infinity`
pub open spec fn word_infinity() -> Seq<u8> {
    seq![105u8, 110u8, 102u8, 105u8, 110u8, 105u8, 116u8, 121u8]
}

/// `nan`
pub open spec fn word_nan() -> Seq<u8> {
    seq![110u8, 97u8, 110u8]
}

/// The bytes from `at` to the end are an exponent: the mark, an optional
/// sign, and one digit or more.
pub open spec fn is_exponent(bytes: Seq<u8>, at: int) -> bool {
    &&& 0 <= at < bytes.len()
    &&& is_exp_mark(bytes[at])
    &&& {
        ||| at + 1 < bytes.len() && digits_between(bytes, at + 1, bytes.len() as int)
        ||| at + 2 < bytes.len() && is_sign(bytes[at + 1]) && digits_between(
            bytes,
            at + 2,
            bytes.len() as int,
        )
    }
}

/// The bytes from `from` up to `cut` are a mantissa with a point at `dot`:
/// digits on both sides of it, and one digit at least.
pub open spec fn is_pointed(bytes: Seq<u8>, from: int, dot: int, cut: int) -> bool {
    &&& from <= dot < cut
    &&& bytes[dot] == 46
    &&& digits_between(bytes, from, dot)
    &&& digits_between(bytes, dot + 1, cut)
    &&& cut - from >= 2
}

/// The bytes from `from` up to `cut` are a mantissa: digits alone, or digits
/// with one point among them, before them or behind them.
pub open spec fn is_mantissa(bytes: Seq<u8>, from: int, cut: int) -> bool {
    ||| from < cut && digits_between(bytes, from, cut)
    ||| exists|dot: int| is_pointed(bytes, from, dot, cut)
}

/// The bytes from `from` to the end are a number whose mantissa ends at
/// `cut`.
pub open spec fn is_number_cut(bytes: Seq<u8>, from: int, cut: int) -> bool {
    &&& 0 <= from <= cut <= bytes.len()
    &&& is_mantissa(bytes, from, cut)
    &&& (cut == bytes.len() || is_exponent(bytes, cut))
}

/// The bytes from `from` to the end are a number: a mantissa, then an
/// exponent or nothing.
pub open spec fn is_number(bytes: Seq<u8>, from: int) -> bool {
    exists|cut: int| is_number_cut(bytes, from, cut)
}

/// The bytes from `from` to the end are a float without its sign.
pub open spec fn is_unsigned_float(bytes: Seq<u8>, from: int) -> bool {
    ||| spells(bytes, from, word_inf())
    ||| spells(bytes, from, word_infinity())
    ||| spells(bytes, from, word_nan())
    ||| is_number(bytes, from)
}

/// The bytes spell a floating-point number.
pub open spec fn is_float_literal(bytes: Seq<u8>) -> bool {
    ||| is_unsigned_float(bytes, 0)
    ||| bytes.len() >= 1 && is_sign(bytes[0]) && is_unsigned_float(bytes, 1)
}

/// Whether `b` is a digit.
fn digit(b: u8) -> (yes: bool)
    ensures
        yes == is_digit(b),
{
    48 <= b && b <= 57
}

/// Whether `b` is a sign.
fn sign(b: u8) -> (yes: bool)
    ensures
        yes == is_sign(b),
{
    b == 43 || b == 45
}

/// The lower-case form of `b`.
fn lower(b: u8) -> (low: u8)
    ensures
        low == to_lower(b),
{
    if 65 <= b && b <= 90 {
        b + 32
    } else {
        b
    }
}

/// Runs over the digits that begin at `from`, and returns where they end.
fn digit_run(bytes: &[u8], from: usize) -> (end: usize)
    requires
        from <= bytes.len(),
    ensures
        from <= end <= bytes.len(),
        digits_between(bytes@, from as int, end as int),
        end < bytes.len() ==> !is_digit(bytes[end as int]),
{
    let mut end = from;
    while end < bytes.len() && digit(bytes[end])
        invariant
            from <= end <= bytes.len(),
            digits_between(bytes@, from as int, end as int),
        decreases bytes.len() - end,
    {
        end += 1;
    }
    end
}

/// Whether the bytes from `from` to the end spell `word`, in either case.
fn spells_word(bytes: &[u8], from: usize, word: &[u8]) -> (yes: bool)
    requires
        from <= bytes.len(),
    ensures
        yes == spells(bytes@, from as int, word@),
{
    if bytes.len() - from != word.len() {
        return false;
    }
    let mut k: usize = 0;
    while k < word.len()
        invariant
            from + word.len() == bytes.len(),
            k <= word.len(),
            forall|j: int| 0 <= j < k ==> to_lower(#[trigger] bytes[from + j]) == word[j],
        decreases word.len() - k,
    {
        if lower(bytes[from + k]) != word[k] {
            return false;
        }
        k += 1;
    }
    true
}

/// Whether the bytes from `at` to the end are an exponent.
fn scan_exponent(bytes: &[u8], at: usize) -> (yes: bool)
    requires
        at < bytes.len(),
    ensures
        yes == is_exponent(bytes@, at as int),
{
    let n = bytes.len();
    if !(bytes[at] == 101 || bytes[at] == 69) {
        return false;
    }
    let mut first = at + 1;
    if first < n && sign(bytes[first]) {
        first += 1;
    }
    if first >= n {
        return false;
    }
    let end = digit_run(bytes, first);
    end == n
}

/// Whether the bytes from `from` to the end are a number.
fn scan_number(bytes: &[u8], from: usize) -> (yes: bool)
    requires
        from <= bytes.len(),
    ensures
        yes == is_number(bytes@, from as int),
{
    let n = bytes.len();
    let whole_end = digit_run(bytes, from);
    let pointed = whole_end < n && bytes[whole_end] == 46;
    let cut = if pointed {
        digit_run(bytes, whole_end + 1)
    } else {
        whole_end
    };
    proof {
        // Any mantissa that an exponent or the end follows ends at `cut`.
        assert forall|other: int| is_number_cut(bytes@, from as int, other) implies other
            == cut by {
            lemma_mantissa_end(bytes@, from as int, whole_end as int, cut as int, other);
        }
    }
    let enough = if pointed {
        cut - from >= 2
    } else {
        cut > from
    };
    if !enough {
        proof {
            if is_mantissa(bytes@, from as int, cut as int) {
                if !(from < cut && digits_between(bytes@, from as int, cut as int)) {
                    let dot = choose|dot: int| is_pointed(bytes@, from as int, dot, cut as int);
                    lemma_point_place(bytes@, from as int, whole_end as int, dot, cut as int);
                }
            }
        }
        return false;
    }
    proof {
        if pointed {
            assert(is_pointed(bytes@, from as int, whole_end as int, cut as int));
        }
        assert(is_mantissa(bytes@, from as int, cut as int));
    }
    let yes = cut == n || scan_exponent(bytes, cut);
    proof {
        if yes {
            assert(is_number_cut(bytes@, from as int, cut as int));
        }
    }
    yes
}

/// A point in a mantissa stands where the digits that begin the mantissa
/// end.
proof fn lemma_point_place(bytes: Seq<u8>, from: int, whole_end: int, dot: int, cut: int)
    requires
        0 <= from <= whole_end <= bytes.len(),
        cut <= bytes.len(),
        digits_between(bytes, from, whole_end),
        whole_end < bytes.len() ==> !is_digit(bytes[whole_end]),
        is_pointed(bytes, from, dot, cut),
    ensures
        dot == whole_end,
{
    if dot < whole_end {
        assert(is_digit(bytes[dot]));
    }
    if whole_end < dot {
        assert(is_digit(bytes[whole_end]));
    }
}

/// The mantissa of a number ends where the scan of its digits and its point
/// ends: a mantissa is followed by an exponent mark or by nothing, and
/// neither is a digit or a point.
proof fn lemma_mantissa_end(bytes: Seq<u8>, from: int, whole_end: int, cut: int, other: int)
    requires
        0 <= from <= whole_end <= bytes.len(),
        digits_between(bytes, from, whole_end),
        whole_end < bytes.len() ==> !is_digit(bytes[whole_end]),
        whole_end < bytes.len() && bytes[whole_end] == 46 ==> {
            &&& whole_end < cut <= bytes.len()
            &&& digits_between(bytes, whole_end + 1, cut)
            &&& (cut < bytes.len() ==> !is_digit(bytes[cut]))
        },
        !(whole_end < bytes.len() && bytes[whole_end] == 46) ==> cut == whole_end,
        is_number_cut(bytes, from, other),
    ensures
        other == cut,
{
    if from < other && digits_between(bytes, from, other) {
        // Digits alone: they end at `whole_end`, where no point stands.
        if other < whole_end {
            assert(is_digit(bytes[other]));
        }
        if whole_end < other {
            assert(is_digit(bytes[whole_end]));
        }
    } else {
        let dot = choose|dot: int| is_pointed(bytes, from, dot, other);
        lemma_point_place(bytes, from, whole_end, dot, other);
        if other < cut {
            assert(is_digit(bytes[other]));
        }
        if cut < other {
            assert(is_digit(bytes[cut]));
        }
    }
}

/// Whether the bytes from `from` to the end are a float without its sign.
fn scan_unsigned(bytes: &[u8], from: usize) -> (yes: bool)
    requires
        from <= bytes.len(),
    ensures
        yes == is_unsigned_float(bytes@, from as int),
{
    let inf: [u8; 3] = [105, 110, 102];
    let infinity: [u8; 8] = [105, 110, 102, 105, 110, 105, 116, 121];
    let nan: [u8; 3] = [110, 97, 110];
    assert(inf@ =~= word_inf());
    assert(infinity@ =~= word_infinity());
    assert(nan@ =~= word_nan());
    spells_word(bytes, from, inf.as_slice()) || spells_word(bytes, from, infinity.as_slice())
        || spells_word(bytes, from, nan.as_slice()) || scan_number(bytes, from)
}

/// Whether `bytes` spell a floating-point number.
pub fn is_float_bytes(bytes: &[u8]) -> (yes: bool)
    ensures
        yes == is_float_literal(bytes@),
{
    if bytes.len() >= 1 && sign(bytes[0]) {
        proof {
            // A sign begins neither a word nor a number.
            lemma_sign_begins_nothing(bytes@);
        }
        scan_unsigned(bytes, 1)
    } else {
        scan_unsigned(bytes, 0)
    }
}

/// Bytes that begin with a sign are no float without a sign.
proof fn lemma_sign_begins_nothing(bytes: Seq<u8>)
    requires
        bytes.len() >= 1,
        is_sign(bytes[0]),
    ensures
        !is_unsigned_float(bytes, 0),
{
    if spells(bytes, 0, word_inf()) {
        assert(to_lower(bytes[0int + 0]) == word_inf()[0]);
    }
    if spells(bytes, 0, word_infinity()) {
        assert(to_lower(bytes[0int + 0]) == word_infinity()[0]);
    }
    if spells(bytes, 0, word_nan()) {
        assert(to_lower(bytes[0int + 0]) == word_nan()[0]);
    }
    if is_number(bytes, 0) {
        let cut = choose|cut: int| is_number_cut(bytes, 0, cut);
        if 0 < cut && digits_between(bytes, 0, cut) {
            assert(is_digit(bytes[0]));
        } else {
            let dot = choose|dot: int| is_pointed(bytes, 0, dot, cut);
            if dot > 0 {
                assert(is_digit(bytes[0]));
            }
        }
    }
}

/// Whether `text` spells a floating-point number.
pub fn is_float_text(text: &str) -> (yes: bool)
    ensures
        yes == is_float_literal(text.spec_bytes()),
{
    is_float_bytes(text.as_bytes())
}

} // verus!
