use crate::error::DecodeError;
use crate::stream::ByteStream;
use vstd::arithmetic::div_mod::{lemma_fundamental_div_mod, lemma_mod_multiples_vanish};
use vstd::prelude::*;
use vstd::slice::slice_subrange;

verus! {

/// How a length field states the length.
#[derive(Clone, Copy, Debug, PartialEq, Eq, Structural)]
pub enum LengthForm {
    /// One octet below 128 that is the length itself.
    Short,
    /// A leading octet that counts the octets after it, which spell the
    /// length, most significant first.
    LongDefinite,
    /// The octet 0x80: the value runs up to an end-of-contents marker.
    Indefinite,
}

/// A decoded length field.
#[derive(Clone, Copy, Debug, PartialEq, Eq, Structural)]
pub struct Length {
    /// The length of the value that follows, in octets; 0 in the indefinite
    /// form.
    pub value: u64,
    pub form: LengthForm,
    /// The number of octets of the length field itself, the leading one
    /// included.
    pub consumed: usize,
}

/// The number spelled by `octets` as big-endian base-256 digits.
pub open spec fn big_endian_value(octets: Seq<u8>) -> nat
    decreases octets.len(),
{
    if octets.len() == 0 {
        0
    } else {
        big_endian_value(octets.drop_last()) * 256 + octets.last() as nat
    }
}

/// The form that the leading octet of a length field announces.
pub open spec fn octet_form(first: u8) -> LengthForm {
    if first < 128 {
        LengthForm::Short
    } else if first & 0x7f == 0 {
        LengthForm::Indefinite
    } else {
        LengthForm::LongDefinite
    }
}

/// How many octets of the length field follow its leading octet: none in the
/// short form, else the low seven bits of the leading octet.
pub open spec fn following_octets(first: u8) -> nat {
    if first < 128 {
        0
    } else {
        (first & 0x7f) as nat
    }
}

/// What the probe for the size of a length field answers: 1 in the short
/// form, else the low seven bits of the leading octet.
pub open spec fn length_size_of(first: u8) -> nat {
    if first < 128 {
        1
    } else {
        (first & 0x7f) as nat
    }
}

/// The length field at the front of `input`; `None` where `input` ends
/// before the field does. In the long form the value is the big-endian
/// number in the following octets, of which the low 64 bits are kept.
pub open spec fn length_field(input: Seq<u8>) -> Option<Length> {
    if input.len() == 0 {
        None
    } else if input.len() < 1 + following_octets(input[0]) {
        None
    } else {
        let first = input[0];
        let end = 1 + following_octets(first);
        Some(
            Length {
                value: if first < 128 {
                    first as u64
                } else {
                    (big_endian_value(input.subrange(1, end as int))
                        % 0x1_0000_0000_0000_0000) as u64
                },
                form: octet_form(first),
                consumed: end as usize,
            },
        )
    }
}

impl LengthForm {
    /// The form that the leading octet of a length field announces.
    pub fn of_octet(first: u8) -> (form: LengthForm)
        ensures
            form == octet_form(first),
    {
        if first < 128 {
            LengthForm::Short
        } else if first & 0x7f == 0 {
            LengthForm::Indefinite
        } else {
            LengthForm::LongDefinite
        }
    }
}

/// How many octets of a length field follow the leading octet `first`.
pub fn count_following_octets(first: u8) -> (count: usize)
    ensures
        count == following_octets(first),
        count <= 127,
{
    assert(first & 0x7f <= 127) by (bit_vector);
    if first < 128 {
        0
    } else {
        (first & 0x7f) as usize
    }
}

/// Accumulates `octets` as a big-endian number, eight bits per octet. Bits
/// shifted past the 64th are dropped.
pub fn accumulate_length(octets: &[u8]) -> (value: u64)
    ensures
        value as nat == big_endian_value(octets@) % 0x1_0000_0000_0000_0000,
{
    let mut acc: u64 = 0;
    let mut i: usize = 0;
    assert(octets@.take(0) =~= Seq::<u8>::empty());
    while i < octets.len()
        invariant
            i <= octets.len(),
            acc as nat == big_endian_value(octets@.take(i as int)) % 0x1_0000_0000_0000_0000,
        decreases octets.len() - i,
    {
        let octet: u8 = octets[i];
        let next: u64 = (acc << 8) | (octet as u64);
        proof {
            let before = octets@.take(i as int);
            let after = octets@.take(i + 1);
            assert(after.drop_last() =~= before);
            assert(after.last() == octet);
            let v = big_endian_value(before) as int;
            let m = 0x1_0000_0000_0000_0000int;
            assert(next as int == (acc as int * 256 + octet as int) % 0x1_0000_0000_0000_0000)
                by (bit_vector)
                requires
                    next == (acc << 8) | (octet as u64),
            ;
            lemma_fundamental_div_mod(v, m);
            assert(v * 256 + octet == m * ((v / m) * 256) + ((v % m) * 256 + octet))
                by (nonlinear_arith)
                requires
                    v == m * (v / m) + v % m,
            ;
            lemma_mod_multiples_vanish((v / m) * 256, (v % m) * 256 + octet, m);
        }
        acc = next;
        i += 1;
    }
    assert(octets@.take(i as int) =~= octets@);
    acc
}

/// Decodes the length field at the front of `input`. Octets after the field
/// are ignored.
///
/// Fails with `UnexpectedEndOfInput` where `input` is empty or ends before
/// the octets that its leading octet announces, and on no other input.
pub fn parse_length(input: &[u8]) -> (result: Result<Length, DecodeError>)
    ensures
        match result {
            Ok(length) => length_field(input@) == Some(length),
            Err(e) => e == DecodeError::UnexpectedEndOfInput && length_field(input@) is None,
        },
        result matches Ok(length) ==> {
            &&& 1 <= length.consumed <= input@.len()
            &&& length.consumed == 1 + following_octets(input@[0])
            &&& length.form == LengthForm::Indefinite ==> length.value == 0
        },
{
    if input.len() == 0 {
        return Err(DecodeError::UnexpectedEndOfInput);
    }
    let first: u8 = input[0];
    let following: usize = count_following_octets(first);
    if input.len() - 1 < following {
        return Err(DecodeError::UnexpectedEndOfInput);
    }
    let form = LengthForm::of_octet(first);
    let value: u64 = if first < 128 {
        first as u64
    } else {
        accumulate_length(slice_subrange(input, 1, 1 + following))
    };
    Ok(Length { value, form, consumed: 1 + following })
}

/// Reads the leading octet of a length field and tells how many octets the
/// field announces: 1 in the short form, else the low seven bits of the
/// leading octet (0 in the indefinite form). The octets after the leading one
/// are left unread.
///
/// Fails with `UnexpectedEndOfInput`, reading nothing, where the stream is at
/// its end.
pub fn _length_size(stream: &mut ByteStream) -> (result: Result<usize, DecodeError>)
    ensures
        match result {
            Ok(size) => {
                &&& old(stream).remaining().len() > 0
                &&& size == length_size_of(old(stream).remaining()[0])
                &&& final(stream).remaining() == old(stream).remaining().skip(1)
            },
            Err(e) => {
                &&& e == DecodeError::UnexpectedEndOfInput
                &&& old(stream).remaining().len() == 0
                &&& final(stream).remaining() == old(stream).remaining()
            },
        },
{
    match stream.read_octet() {
        Ok(first) => {
            if first < 128 {
                Ok(1)
            } else {
                Ok(count_following_octets(first))
            }
        },
        Err(e) => Err(e),
    }
}

/// Reads one length field from the stream.
///
/// On success the stream has moved past the field. Where the stream ends
/// before the field does, fails with `UnexpectedEndOfInput` and reads
/// nothing.
pub fn _read_length(stream: &mut ByteStream) -> (result: Result<Length, DecodeError>)
    ensures
        match result {
            Ok(length) => {
                &&& length_field(old(stream).remaining()) == Some(length)
                &&& length.consumed >= 1
                &&& final(stream).remaining() == old(stream).remaining().skip(
                    length.consumed as int,
                )
            },
            Err(e) => {
                &&& e == DecodeError::UnexpectedEndOfInput
                &&& length_field(old(stream).remaining()) is None
                &&& final(stream).remaining() == old(stream).remaining()
            },
        },
{
    match parse_length(stream.rest()) {
        Ok(length) => {
            let _ = stream.read_exact(length.consumed);
            Ok(length)
        },
        Err(e) => Err(e),
    }
}

/// A single octet `n` up to 127 is a whole length field in the short form,
/// with value `n`.
pub proof fn lemma_short_form(n: u8)
    requires
        n <= 127,
    ensures
        length_field(seq![n]) == Some(
            Length { value: n as u64, form: LengthForm::Short, consumed: 1 },
        ),
{
}

/// Every length field occupies at least its leading octet and no more than
/// the input holds, and the indefinite form carries the value 0.
pub proof fn lemma_length_field_bounds(input: Seq<u8>)
    ensures
        length_field(input) matches Some(length) ==> {
            &&& 1 <= length.consumed <= input.len()
            &&& length.consumed <= 128
            &&& length.form == LengthForm::Indefinite ==> length.value == 0 && length.consumed == 1
        },
{
    if input.len() > 0 {
        let first = input[0];
        assert(first & 0x7f <= 127) by (bit_vector);
        if first >= 128 && first & 0x7f == 0 {
            assert(input.subrange(1, 1) =~= Seq::<u8>::empty());
        }
    }
}

} // verus!
