//! The text form of a share code and what it says.
//!
//! A share code is `CSGO`, then five groups of five symbols, a dash before
//! each group. The 25 symbols write a number to base 57, the first symbol
//! being the most significant digit; the same number written to base 256 is
//! the payload of 18 bytes.
//!
//! A decoder asks less of the form than an encoder gives: the code must
//! begin with `CSGO-`, hold five dashes, and carry 25 characters after the
//! first dash, the dashes not counted. Where the dashes stand among those
//! characters is not checked.

use crate::alphabet::{is_symbol, ALPHABET};
use crate::error::{DecodeError, StructuralFault};
use crate::profile::{CrosshairProfile, ProfileView};
use crate::radix::{
    lemma_digits_of_value, lemma_radix_digits_shape, lemma_radix_value_bound,
    lemma_radix_value_lower_bound, radix_digits, radix_value,
};
use crate::settings::{
    checksum, checksum_of, lemma_clamped, lemma_from_payload_in_range,
    lemma_from_payload_of_payload, CrosshairSettings,
};
use crate::text::{chars_of, push_char, push_chars};
use crate::transcoder::{
    all_symbols, bytes_to_int, chars_to_int, int_to_bytes, int_to_chars,
    lemma_digits_of_symbols, lemma_value_of_value_symbols, symbols_value, value_symbols,
};
use vstd::arithmetic::power::{lemma_pow_increases, lemma_pow_positive, pow};
use vstd::prelude::*;
use vstd::string::StringExecFns;

verus! {

/// The character that parts the segments of a code.
pub const DASH: char = '-';

/// The first segment of every code.
pub open spec fn prefix() -> Seq<char> {
    seq!['C', 'S', 'G', 'O']
}

/// What the name of a decoded profile begins with; the first group of the
/// code follows.
pub open spec fn name_stem() -> Seq<char> {
    seq!['I', 'm', 'p', 'o', 'r', 't', 'e', 'd', '_']
}

/// The segments of a text: what stands between its dashes. A text with `k`
/// dashes has `k + 1` segments, some of them empty where dashes touch.
pub open spec fn segments(text: Seq<char>) -> Seq<Seq<char>>
    decreases text.len(),
{
    if text.len() == 0 {
        seq![Seq::<char>::empty()]
    } else {
        let before = segments(text.drop_last());
        if text.last() == DASH {
            before.push(Seq::<char>::empty())
        } else {
            before.drop_last().push(before.last().push(text.last()))
        }
    }
}

/// The segments, one after the other.
pub open spec fn joined(parts: Seq<Seq<char>>) -> Seq<char>
    decreases parts.len(),
{
    if parts.len() == 0 {
        Seq::<char>::empty()
    } else {
        joined(parts.drop_last()) + parts.last()
    }
}

/// The text begins with `CSGO-`.
pub open spec fn has_prefix(code: Seq<char>) -> bool {
    code.len() >= 5 && code.take(5) == prefix().push(DASH)
}

/// The characters that a code carries: its segments after the first,
/// joined.
pub open spec fn payload_symbols(code: Seq<char>) -> Seq<char> {
    joined(segments(code).skip(1))
}

/// The first check of a code's form that fails, if one does.
pub open spec fn structural_fault(code: Seq<char>) -> Option<StructuralFault> {
    if !has_prefix(code) {
        Some(StructuralFault::Prefix)
    } else if segments(code).len() != 6 {
        Some(StructuralFault::SegmentCount)
    } else if payload_symbols(code).len() != 25 {
        Some(StructuralFault::PayloadLength)
    } else {
        None
    }
}

/// The least number that 18 bytes cannot hold: `256^18`.
pub open spec fn payload_limit() -> nat {
    pow(256, 18) as nat
}

/// The place of the last character that is no symbol. Meaningful only where
/// there is one.
pub open spec fn last_foreign(chars: Seq<char>) -> int {
    choose|p: int|
        0 <= p < chars.len() && !is_symbol(chars[p]) && forall|j: int|
            p < j < chars.len() ==> is_symbol(#[trigger] chars[j])
}

/// The payload that a code carries, or why it carries none.
pub open spec fn decoded_payload(code: Seq<char>) -> Result<Seq<u8>, DecodeError> {
    let symbols = payload_symbols(code);
    match structural_fault(code) {
        Some(fault) => Err(DecodeError::MalformedCode(fault)),
        None => if !all_symbols(symbols) {
            Err(
                DecodeError::InvalidDigit {
                    character: symbols[last_foreign(symbols)],
                    position: last_foreign(symbols) as usize,
                },
            )
        } else if symbols_value(symbols) >= payload_limit() {
            Err(DecodeError::TruncatedPayload)
        } else {
            Ok(radix_digits(symbols_value(symbols), 256, 18))
        },
    }
}

/// The code in its regular form: `CSGO`, then the symbols in groups of five,
/// a dash before each group.
pub open spec fn grouped(symbols: Seq<char>) -> Seq<char>
    recommends
        symbols.len() == 25,
{
    prefix().push(DASH) + symbols.subrange(0, 5).push(DASH) + symbols.subrange(5, 10).push(DASH)
        + symbols.subrange(10, 15).push(DASH) + symbols.subrange(15, 20).push(DASH)
        + symbols.subrange(20, 25)
}

/// The code that carries a payload.
pub open spec fn code_of_payload(payload: Seq<u8>) -> Seq<char> {
    grouped(value_symbols(radix_value(payload, 256)))
}

/// A checksum byte that differs from the sum of the bytes it covers.
#[derive(Clone, Copy, Debug, PartialEq, Eq, Structural)]
pub struct ChecksumMismatch {
    /// Byte 0 of the payload.
    pub stored: u8,
    /// The checksum of bytes 1 to 17.
    pub computed: u8,
}

/// What is to be said of a payload's checksum: nothing where it is right.
pub open spec fn mismatch_of(payload: Seq<u8>) -> Option<ChecksumMismatch> {
    if payload[0] != checksum(payload) {
        Some(ChecksumMismatch { stored: payload[0], computed: checksum(payload) })
    } else {
        None
    }
}

/// What decoding gives, in the terms of contracts.
pub struct DecodedView {
    pub profile: ProfileView,
    pub mismatch: Option<ChecksumMismatch>,
}

/// What a code says: the profile it carries and what is to be said of its
/// checksum, or why the code is refused. A wrong checksum refuses nothing.
pub open spec fn decoded(code: Seq<char>) -> Result<DecodedView, DecodeError> {
    match decoded_payload(code) {
        Err(e) => Err(e),
        Ok(payload) => Ok(
            DecodedView {
                profile: ProfileView {
                    settings: CrosshairSettings::from_payload(payload),
                    name: name_stem() + segments(code)[1],
                    original_code: Some(code),
                },
                mismatch: mismatch_of(payload),
            },
        ),
    }
}

/// The code that carries settings, clamped, in a payload with a right
/// checksum.
pub open spec fn fresh_code(settings: CrosshairSettings) -> Seq<char> {
    code_of_payload(settings.payload())
}

/// The code that exports a profile: the code it was read from where it holds
/// one, else the code of its settings.
pub open spec fn encoded(profile: ProfileView) -> Seq<char> {
    match profile.original_code {
        Some(code) => code,
        None => fresh_code(profile.settings),
    }
}

/// A profile that holds a code holds the settings that the code carries.
pub open spec fn faithful(profile: ProfileView) -> bool {
    profile.original_code matches Some(code) ==> (decoded(code) matches Ok(d)
        && d.profile.settings == profile.settings)
}

/// No symbol is a dash.
pub proof fn lemma_symbol_is_no_dash(c: char)
    requires
        is_symbol(c),
    ensures
        c != DASH,
{
    let d = choose|d: int| 0 <= d < 57 && ALPHABET[d] == c;
    assert(ALPHABET[d] != DASH);
}

/// A text without a dash is its own single segment.
pub proof fn lemma_segments_of_plain(text: Seq<char>)
    requires
        forall|i: int| 0 <= i < text.len() ==> text[i] != DASH,
    ensures
        segments(text) == seq![text],
    decreases text.len(),
{
    if text.len() == 0 {
        assert(text =~= Seq::<char>::empty());
    } else {
        let init = text.drop_last();
        assert forall|i: int| 0 <= i < init.len() implies init[i] != DASH by {
            assert(init[i] == text[i]);
        }
        lemma_segments_of_plain(init);
        assert(text[text.len() - 1] != DASH);
        assert(init.push(text.last()) =~= text);
        let before = segments(init);
        assert(before.drop_last() =~= Seq::<Seq<char>>::empty());
        assert(before.drop_last().push(before.last().push(text.last())) =~= seq![text]);
    }
}

/// A dash and a text without one add one segment: that text.
pub proof fn lemma_segments_append(head: Seq<char>, tail: Seq<char>)
    requires
        forall|i: int| 0 <= i < tail.len() ==> tail[i] != DASH,
    ensures
        segments(head.push(DASH) + tail) == segments(head).push(tail),
    decreases tail.len(),
{
    let text = head.push(DASH) + tail;
    if tail.len() == 0 {
        assert(text.drop_last() =~= head);
        assert(tail =~= Seq::<char>::empty());
    } else {
        let init = tail.drop_last();
        lemma_segments_append(head, init);
        assert(text.drop_last() =~= head.push(DASH) + init);
        assert(init.push(tail.last()) =~= tail);
        assert(segments(text) =~= segments(head).push(tail));
    }
}

/// Every text has at least one segment.
pub proof fn lemma_segments_nonempty(text: Seq<char>)
    ensures
        segments(text).len() >= 1,
    decreases text.len(),
{
    if text.len() > 0 {
        lemma_segments_nonempty(text.drop_last());
    }
}

/// The second segment of a text, or nothing where it has but one.
pub open spec fn first_group(text: Seq<char>) -> Seq<char> {
    if segments(text).len() >= 2 {
        segments(text)[1]
    } else {
        Seq::<char>::empty()
    }
}

/// What one more character does to the segments of a text: a dash opens a
/// new, empty segment; another character joins the last segment.
pub proof fn lemma_segments_push(text: Seq<char>, c: char)
    ensures
        segments(text).len() >= 1,
        c == DASH ==> segments(text.push(c)).len() == segments(text).len() + 1
            && payload_symbols(text.push(c)) == payload_symbols(text) && first_group(
            text.push(c),
        ) == first_group(text),
        c != DASH ==> segments(text.push(c)).len() == segments(text).len() && payload_symbols(
            text.push(c),
        ) == (if segments(text).len() >= 2 {
            payload_symbols(text).push(c)
        } else {
            payload_symbols(text)
        }) && first_group(text.push(c)) == (if segments(text).len() == 2 {
            first_group(text).push(c)
        } else {
            first_group(text)
        }),
{
    lemma_segments_nonempty(text);
    let segs = segments(text);
    let next = segments(text.push(c));
    assert(text.push(c).drop_last() =~= text);
    if c == DASH {
        assert(next == segs.push(Seq::<char>::empty()));
        assert(next.skip(1) =~= segs.skip(1).push(Seq::<char>::empty()));
        assert(next.skip(1).drop_last() =~= segs.skip(1));
        assert(joined(next.skip(1)) =~= joined(segs.skip(1)));
    } else {
        assert(next == segs.drop_last().push(segs.last().push(c)));
        if segs.len() >= 2 {
            let rest = segs.skip(1);
            assert(next.skip(1) =~= rest.drop_last().push(segs.last().push(c)));
            assert(next.skip(1).drop_last() =~= rest.drop_last());
            assert(rest.last() == segs.last());
            assert(joined(next.skip(1)) =~= joined(rest).push(c));
        } else {
            assert(next.skip(1) =~= segs.skip(1));
        }
    }
}

/// `256^18`, written out, is less than `57^25`: every payload has a code.
pub proof fn lemma_payload_limit()
    ensures
        payload_limit() == 0x1_0000_0000_0000_0000_0000_0000_0000_0000_0000,
        payload_limit() < pow(57, 25),
{
    reveal_with_fuel(pow, 26);
    assert(pow(256, 18) == 0x1_0000_0000_0000_0000_0000_0000_0000_0000_0000);
    assert(pow(57, 25) == 78862654603529887329150858935314154890152057);
}

/// What decoding gives: the profile that the code carries, and what is to
/// be said of the checksum where it is wrong.
#[derive(Debug)]
pub struct Decoded {
    pub profile: CrosshairProfile,
    pub mismatch: Option<ChecksumMismatch>,
}

impl View for Decoded {
    type V = DecodedView;

    open spec fn view(&self) -> DecodedView {
        DecodedView { profile: self.profile@, mismatch: self.mismatch }
    }
}

impl Clone for Decoded {
    fn clone(&self) -> (r: Decoded)
        ensures
            r@ == self@,
    {
        Decoded { profile: self.profile.clone(), mismatch: self.mismatch }
    }
}

/// The parts of a code that passed the checks of its form.
struct Parts {
    symbols: Vec<char>,
    first: Vec<char>,
}

/// Checks the form of a code and takes it apart.
fn split_code(chars: &[char]) -> (r: Result<Parts, StructuralFault>)
    ensures
        match r {
            Ok(parts) => structural_fault(chars@) is None && parts.symbols@ == payload_symbols(
                chars@,
            ) && parts.first@ == segments(chars@)[1],
            Err(fault) => structural_fault(chars@) == Some(fault),
        },
{
    let len = chars.len();
    if len < 5 || chars[0] != 'C' || chars[1] != 'S' || chars[2] != 'G' || chars[3] != 'O'
        || chars[4] != DASH {
        proof {
            if len >= 5 {
                let head = chars@.take(5);
                assert(head[0] == chars@[0] && head[1] == chars@[1] && head[2] == chars@[2]
                    && head[3] == chars@[3] && head[4] == chars@[4]);
            }
        }
        return Err(StructuralFault::Prefix);
    }
    proof {
        assert(chars@.take(5) =~= prefix().push(DASH));
    }
    let mut dashes: usize = 0;
    let mut symbols: Vec<char> = Vec::new();
    let mut first: Vec<char> = Vec::new();
    let mut i: usize = 0;
    proof {
        assert(chars@.take(0) =~= Seq::<char>::empty());
        assert(segments(chars@.take(0)).skip(1) =~= Seq::<Seq<char>>::empty());
    }
    while i < len
        invariant
            i <= len,
            len == chars@.len(),
            dashes <= i,
            segments(chars@.take(i as int)).len() == dashes + 1,
            symbols@ == payload_symbols(chars@.take(i as int)),
            first@ == first_group(chars@.take(i as int)),
        decreases len - i,
    {
        let c = chars[i];
        proof {
            lemma_segments_push(chars@.take(i as int), c);
            assert(chars@.take(i + 1) =~= chars@.take(i as int).push(c));
        }
        if c == DASH {
            dashes = dashes + 1;
        } else {
            if dashes >= 1 {
                symbols.push(c);
            }
            if dashes == 1 {
                first.push(c);
            }
        }
        i = i + 1;
    }
    proof {
        assert(chars@.take(len as int) =~= chars@);
    }
    if dashes != 5 {
        return Err(StructuralFault::SegmentCount);
    }
    if symbols.len() != 25 {
        return Err(StructuralFault::PayloadLength);
    }
    Ok(Parts { symbols, first })
}

/// Reads the payload that 25 symbols write.
fn read_symbols(symbols: &[char]) -> (r: Result<[u8; 18], DecodeError>)
    ensures
        match r {
            Ok(payload) => all_symbols(symbols@) && symbols_value(symbols@) < payload_limit()
                && payload@ == radix_digits(symbols_value(symbols@), 256, 18),
            Err(DecodeError::TruncatedPayload) => all_symbols(symbols@) && symbols_value(symbols@)
                >= payload_limit(),
            Err(DecodeError::InvalidDigit { character, position }) => !all_symbols(symbols@)
                && position == last_foreign(symbols@) && character == symbols@[position as int],
            Err(DecodeError::MalformedCode(_)) => false,
        },
{
    let number = match chars_to_int(symbols) {
        Ok(number) => number,
        Err(e) => {
            proof {
                if let DecodeError::InvalidDigit { character, position } = e {
                    let q = last_foreign(symbols@);
                    assert(0 <= q < symbols@.len() && !is_symbol(symbols@[q]) && forall|j: int|
                        q < j < symbols@.len() ==> is_symbol(#[trigger] symbols@[j]));
                    assert(q == position) by {
                        if q < position {
                            assert(is_symbol(symbols@[position as int]));
                        } else if position < q {
                            assert(is_symbol(symbols@[q]));
                        }
                    }
                }
            }
            return Err(e);
        },
    };
    let bytes = int_to_bytes(&number, 18);
    proof {
        assert forall|k: int| 0 <= k < bytes@.len() implies bytes@[k] < 256 by {}
        if bytes@.len() == 18 {
            lemma_radix_value_bound(bytes@, 256);
            lemma_digits_of_value(bytes@, 256);
        } else {
            lemma_radix_value_lower_bound(bytes@, 256);
            lemma_pow_increases(256, 18, (bytes@.len() - 1) as nat);
            lemma_pow_positive(256, 18);
        }
    }
    if bytes.len() != 18 {
        return Err(DecodeError::TruncatedPayload);
    }
    let payload: [u8; 18] = [
        bytes[0],
        bytes[1],
        bytes[2],
        bytes[3],
        bytes[4],
        bytes[5],
        bytes[6],
        bytes[7],
        bytes[8],
        bytes[9],
        bytes[10],
        bytes[11],
        bytes[12],
        bytes[13],
        bytes[14],
        bytes[15],
        bytes[16],
        bytes[17],
    ];
    proof {
        assert(payload@ =~= bytes@);
    }
    Ok(payload)
}

/// Reads a code down to its payload and its first group.
fn read_code(code: &str) -> (r: Result<([u8; 18], Vec<char>), DecodeError>)
    ensures
        match r {
            Ok((payload, first)) => decoded_payload(code@) == Ok::<Seq<u8>, DecodeError>(payload@)
                && first@ == segments(code@)[1],
            Err(e) => decoded_payload(code@) == Err::<Seq<u8>, DecodeError>(e),
        },
{
    let chars = chars_of(code);
    let parts = match split_code(chars.as_slice()) {
        Ok(parts) => parts,
        Err(fault) => {
            return Err(DecodeError::MalformedCode(fault));
        },
    };
    match read_symbols(parts.symbols.as_slice()) {
        Ok(payload) => Ok((payload, parts.first)),
        Err(e) => Err(e),
    }
}

/// Decodes a share code to its payload of 18 bytes.
///
/// The code is refused where its form is wrong, where a character of its
/// payload is no symbol, and where its symbols write a number that 18 bytes
/// do not hold. Nothing is asked of the bytes themselves.
pub fn decode_payload(code: &str) -> (r: Result<[u8; 18], DecodeError>)
    ensures
        match r {
            Ok(payload) => decoded_payload(code@) == Ok::<Seq<u8>, DecodeError>(payload@),
            Err(e) => decoded_payload(code@) == Err::<Seq<u8>, DecodeError>(e),
        },
{
    match read_code(code) {
        Ok((payload, _)) => Ok(payload),
        Err(e) => Err(e),
    }
}

/// Appends a dash and the five symbols of one group.
fn push_group(text: &mut String, symbols: &[char], group: usize)
    requires
        symbols@.len() == 25,
        group < 5,
    ensures
        final(text)@ == old(text)@.push(DASH) + symbols@.subrange(5 * group, 5 * group + 5),
{
    push_char(text, DASH);
    let start = 5 * group;
    let mut k: usize = 0;
    while k < 5
        invariant
            k <= 5,
            start == 5 * group,
            group < 5,
            symbols@.len() == 25,
            text@ == old(text)@.push(DASH) + symbols@.subrange(start as int, start + k),
        decreases 5 - k,
    {
        push_char(text, symbols[start + k]);
        k = k + 1;
        proof {
            assert(symbols@.subrange(start as int, start + k) =~= symbols@.subrange(
                start as int,
                start + k - 1,
            ).push(symbols@[start + k - 1]));
        }
    }
}

/// Encodes a payload as a share code in its regular form.
pub fn encode_payload(payload: &[u8; 18]) -> (r: String)
    ensures
        r@ == code_of_payload(payload@),
{
    let number = bytes_to_int(payload.as_slice());
    let symbols = int_to_chars(&number);
    let mut text = String::from_str("CSGO");
    proof {
        reveal_strlit("CSGO");
        assert(text@ =~= prefix());
    }
    push_group(&mut text, symbols.as_slice(), 0);
    push_group(&mut text, symbols.as_slice(), 1);
    push_group(&mut text, symbols.as_slice(), 2);
    push_group(&mut text, symbols.as_slice(), 3);
    push_group(&mut text, symbols.as_slice(), 4);
    proof {
        assert(text@ =~= grouped(symbols@));
    }
    text
}

/// Decodes a share code to the profile that it carries.
///
/// The profile is named `Imported_` and the first group of the code, and
/// keeps the code. A checksum that does not fit the payload is reported
/// beside the profile and refuses nothing.
pub fn decode_profile(code: &str) -> (r: Result<Decoded, DecodeError>)
    ensures
        match r {
            Ok(d) => decoded(code@) == Ok::<DecodedView, DecodeError>(d@),
            Err(e) => decoded(code@) == Err::<DecodedView, DecodeError>(e),
        },
{
    let (payload, first) = match read_code(code) {
        Ok(parts) => parts,
        Err(e) => {
            return Err(e);
        },
    };
    let computed = checksum_of(&payload);
    let stored = payload[0];
    let mismatch = if stored != computed {
        Some(ChecksumMismatch { stored, computed })
    } else {
        None
    };
    let settings = CrosshairSettings::unpack(&payload);
    let mut name = String::from_str("Imported_");
    proof {
        reveal_strlit("Imported_");
        assert(name@ =~= name_stem());
    }
    push_chars(&mut name, first.as_slice());
    let profile = CrosshairProfile::imported(settings, name, String::from_str(code));
    Ok(Decoded { profile, mismatch })
}

/// Encodes a profile as a share code: the code that the profile was read
/// from, unchanged, where it holds one; else the code of its settings,
/// clamped.
pub fn encode_profile(profile: &CrosshairProfile) -> (r: String)
    ensures
        r@ == encoded(profile@),
        decoded(r@) matches Ok(d) && d.profile.settings == profile@.settings.clamped(),
{
    proof {
        use_type_invariant(profile);
        lemma_decode_encoded_profile(profile@);
    }
    match profile.original_code() {
        Some(code) => String::from_str(code),
        None => encode_payload(&profile.settings().pack()),
    }
}

/// A code in its regular form passes every check of its form, carries the
/// symbols it was made of, and has their first five as its first group.
pub proof fn lemma_grouped_is_well_formed(symbols: Seq<char>)
    requires
        symbols.len() == 25,
        all_symbols(symbols),
    ensures
        structural_fault(grouped(symbols)) is None,
        payload_symbols(grouped(symbols)) == symbols,
        segments(grouped(symbols))[1] == symbols.subrange(0, 5),
{
    let p = prefix();
    let g0 = symbols.subrange(0, 5);
    let g1 = symbols.subrange(5, 10);
    let g2 = symbols.subrange(10, 15);
    let g3 = symbols.subrange(15, 20);
    let g4 = symbols.subrange(20, 25);
    assert forall|i: int| 0 <= i < 25 implies symbols[i] != DASH by {
        lemma_symbol_is_no_dash(symbols[i]);
    }
    let t0 = p;
    let t1 = t0.push(DASH) + g0;
    let t2 = t1.push(DASH) + g1;
    let t3 = t2.push(DASH) + g2;
    let t4 = t3.push(DASH) + g3;
    let t5 = t4.push(DASH) + g4;
    lemma_segments_of_plain(t0);
    lemma_segments_append(t0, g0);
    lemma_segments_append(t1, g1);
    lemma_segments_append(t2, g2);
    lemma_segments_append(t3, g3);
    lemma_segments_append(t4, g4);
    assert(grouped(symbols) =~= t5);
    let segs = segments(t5);
    assert(segs =~= seq![p, g0, g1, g2, g3, g4]);
    assert(segs.skip(1) =~= seq![g0, g1, g2, g3, g4]);
    assert(joined(segs.skip(1)) =~= symbols) by {
        reveal_with_fuel(joined, 6);
        let parts = seq![g0, g1, g2, g3, g4];
        assert(parts.drop_last() =~= seq![g0, g1, g2, g3]);
        assert(parts.drop_last().drop_last() =~= seq![g0, g1, g2]);
        assert(parts.drop_last().drop_last().drop_last() =~= seq![g0, g1]);
        assert(parts.drop_last().drop_last().drop_last().drop_last() =~= seq![g0]);
        assert(seq![g0].drop_last() =~= Seq::<Seq<char>>::empty());
    }
    assert(t5.take(5) =~= p.push(DASH));
}

/// Every payload is read back from its code: decoding inverts encoding on
/// all 18-byte payloads, whatever they hold.
pub proof fn lemma_decode_encoded_payload(payload: Seq<u8>)
    requires
        payload.len() == 18,
    ensures
        decoded_payload(code_of_payload(payload)) == Ok::<Seq<u8>, DecodeError>(payload),
        segments(code_of_payload(payload))[1] == value_symbols(radix_value(payload, 256)).subrange(
            0,
            5,
        ),
{
    let n = radix_value(payload, 256);
    let symbols = value_symbols(n);
    assert forall|k: int| 0 <= k < payload.len() implies payload[k] < 256 by {}
    lemma_radix_value_bound(payload, 256);
    lemma_digits_of_value(payload, 256);
    lemma_payload_limit();
    lemma_radix_digits_shape(n, 57, 25);
    lemma_digits_of_symbols(radix_digits(n, 57, 25));
    lemma_value_of_value_symbols(n);
    lemma_grouped_is_well_formed(symbols);
}

/// The checksum is advisory: a code decodes to the settings that its payload
/// carries whatever byte 0 holds, and a byte 0 that is not the checksum is
/// reported and refuses nothing.
pub proof fn lemma_checksum_is_advisory(payload: Seq<u8>)
    requires
        payload.len() == 18,
    ensures
        decoded(code_of_payload(payload)) matches Ok(d) && d.profile.settings
            == CrosshairSettings::from_payload(payload) && d.mismatch == mismatch_of(payload),
        mismatch_of(payload) is Some <==> payload[0] != checksum(payload),
{
    lemma_decode_encoded_payload(payload);
}

/// Settings that come from no code are read back from the code they are
/// encoded to: every field as it was where the settings are within range,
/// and clamped where they are not. The code's checksum is right, and the
/// decoded profile holds the code.
pub proof fn lemma_decode_fresh_code(settings: CrosshairSettings)
    ensures
        decoded(fresh_code(settings)) matches Ok(d) && d.profile.settings == settings.clamped()
            && d.mismatch is None && d.profile.original_code == Some(fresh_code(settings)),
        settings.in_range() ==> settings.clamped() == settings,
{
    lemma_from_payload_of_payload(settings);
    lemma_decode_encoded_payload(settings.payload());
    lemma_clamped(settings);
}

/// A decoded profile is encoded to the very code it was decoded from, and
/// holds the settings that this code carries.
pub proof fn lemma_encode_decoded(code: Seq<char>)
    ensures
        decoded(code) matches Ok(d) ==> encoded(d.profile) == code && faithful(d.profile),
{
}

/// What a profile is exported to is read back as the profile's settings,
/// clamped, where the profile holds no code or a code that carries its
/// settings.
pub proof fn lemma_decode_encoded_profile(profile: ProfileView)
    requires
        faithful(profile),
    ensures
        decoded(encoded(profile)) matches Ok(d) && d.profile.settings
            == profile.settings.clamped(),
{
    match profile.original_code {
        Some(code) => {
            let payload = decoded_payload(code)->Ok_0;
            lemma_from_payload_in_range(payload);
            lemma_clamped(profile.settings);
        },
        None => {
            lemma_decode_fresh_code(profile.settings);
        },
    }
}

/// A profile from what was stored of one: settings, a name, and perhaps the
/// code that the settings once came from. The code is kept where it still
/// carries exactly these settings, and dropped where it does not or is no
/// valid code, so that the profile is never exported to a stale code.
pub fn restore_profile(settings: CrosshairSettings, name: String, code: Option<&str>) -> (r:
    CrosshairProfile)
    ensures
        r@.settings == settings,
        r@.name == name@,
        r@.original_code == (match code {
            Some(c) => if decoded(c@) matches Ok(d) && d.profile.settings == settings {
                Some(c@)
            } else {
                None
            },
            None => None,
        }),
{
    match code {
        Some(c) => match decode_profile(c) {
            Ok(d) => if d.profile.settings() == settings {
                CrosshairProfile::imported(settings, name, String::from_str(c))
            } else {
                CrosshairProfile::new(settings, name)
            },
            Err(_) => CrosshairProfile::new(settings, name),
        },
        None => CrosshairProfile::new(settings, name),
    }
}

} // verus!
