use crate::error::DecodeError;
use crate::octet_name::{hex_encode, hex_string};
use vstd::prelude::*;
use vstd::slice::slice_subrange;

verus! {

/// Value of the low five bits of a leading tag octet that announces the
/// high-tag-number form.
pub const HIGH_TAG_NUMBER: u8 = 31;

/// The four tag classes, carried in the two top bits of the leading octet.
#[derive(Clone, Copy, Debug, PartialEq, Eq, Structural)]
pub enum TagClass {
    Universal,
    Application,
    ContextSpecific,
    Private,
}

impl TagClass {
    /// The two-bit encoding of the class.
    pub open spec fn spec_bits(self) -> u8 {
        match self {
            TagClass::Universal => 0,
            TagClass::Application => 1,
            TagClass::ContextSpecific => 2,
            TagClass::Private => 3,
        }
    }

    /// The class that a two-bit value stands for.
    pub open spec fn spec_from_bits(bits: u8) -> TagClass
        recommends
            bits <= 3,
    {
        if bits == 0 {
            TagClass::Universal
        } else if bits == 1 {
            TagClass::Application
        } else if bits == 2 {
            TagClass::ContextSpecific
        } else {
            TagClass::Private
        }
    }

    /// The two-bit encoding of the class, 0 to 3.
    #[verifier::when_used_as_spec(spec_bits)]
    pub fn bits(self) -> (b: u8)
        ensures
            b == self.spec_bits(),
            b <= 3,
    {
        match self {
            TagClass::Universal => 0,
            TagClass::Application => 1,
            TagClass::ContextSpecific => 2,
            TagClass::Private => 3,
        }
    }

    /// The class with the given two-bit encoding; `None` above 3.
    pub fn from_bits(bits: u8) -> (class: Option<TagClass>)
        ensures
            bits <= 3 ==> class == Some(TagClass::spec_from_bits(bits)),
            bits > 3 ==> class is None,
            class matches Some(c) ==> c.spec_bits() == bits,
    {
        if bits == 0 {
            Some(TagClass::Universal)
        } else if bits == 1 {
            Some(TagClass::Application)
        } else if bits == 2 {
            Some(TagClass::ContextSpecific)
        } else if bits == 3 {
            Some(TagClass::Private)
        } else {
            None
        }
    }

    /// The class named by the two top bits of a leading tag octet.
    pub fn of_octet(first: u8) -> (class: TagClass)
        ensures
            class == octet_class(first),
            class.spec_bits() == (first >> 6) & 3,
    {
        let bits: u8 = (first >> 6) & 3;
        assert(((first >> 6) & 3) <= 3) by (bit_vector);
        if bits == 0 {
            TagClass::Universal
        } else if bits == 1 {
            TagClass::Application
        } else if bits == 2 {
            TagClass::ContextSpecific
        } else {
            TagClass::Private
        }
    }
}

/// A decoded tag field.
#[derive(Debug)]
pub struct BerTag {
    /// The leading tag octet as two lowercase hexadecimal digits.
    pub name: String,
    pub tag_class: TagClass,
    /// Whether the element holds nested elements rather than a primitive value.
    pub constructed: bool,
    pub number: u64,
}

/// What a `BerTag` stands for.
pub struct TagModel {
    pub name: Seq<char>,
    pub class: TagClass,
    pub constructed: bool,
    pub number: nat,
}

impl View for BerTag {
    type V = TagModel;

    open spec fn view(&self) -> TagModel {
        TagModel {
            name: self.name@,
            class: self.tag_class,
            constructed: self.constructed,
            number: self.number as nat,
        }
    }
}

impl Clone for BerTag {
    fn clone(&self) -> (copy: Self)
        ensures
            copy@ == self@,
    {
        BerTag {
            name: self.name.clone(),
            tag_class: self.tag_class,
            constructed: self.constructed,
            number: self.number,
        }
    }
}

/// Class carried by bits 7 and 6 of a leading tag octet.
pub open spec fn octet_class(first: u8) -> TagClass {
    TagClass::spec_from_bits((first >> 6) & 3)
}

/// Bit 5 of a leading tag octet.
pub open spec fn octet_constructed(first: u8) -> bool {
    (first >> 5) & 1 != 0
}

/// Big-endian base-128 number spelled by the low seven bits of each octet.
/// The top bit of every octet is ignored.
pub open spec fn base128_value(octets: Seq<u8>) -> nat
    decreases octets.len(),
{
    if octets.len() == 0 {
        0
    } else {
        base128_value(octets.drop_last()) * 128 + (octets.last() & 0x7f) as nat
    }
}

/// The tag number of a non-empty tag field: the low five bits of the leading
/// octet, or, where those are all set, the base-128 number in all the octets
/// after it.
pub open spec fn tag_number(bytes: Seq<u8>) -> nat
    recommends
        bytes.len() > 0,
{
    if bytes[0] & 31 == 31 {
        base128_value(bytes.skip(1))
    } else {
        (bytes[0] & 31) as nat
    }
}

/// The tag that a tag field decodes to; `None` where the field is empty or
/// its number exceeds 64 bits.
pub open spec fn decoded_tag(bytes: Seq<u8>) -> Option<TagModel> {
    if bytes.len() == 0 || tag_number(bytes) > u64::MAX {
        None
    } else {
        Some(
            TagModel {
                name: hex_string(bytes.take(1)),
                class: octet_class(bytes[0]),
                constructed: octet_constructed(bytes[0]),
                number: tag_number(bytes),
            },
        )
    }
}

/// Whether a tag and a length form the end-of-contents marker: universal
/// class, primitive, number 0, length 0.
pub open spec fn is_end_of_contents(tag: TagModel, length: int) -> bool {
    tag.class == TagClass::Universal && !tag.constructed && tag.number == 0 && length == 0
}

/// A prefix of a base-128 sequence never spells a larger number than the
/// whole sequence.
pub proof fn lemma_base128_prefix(octets: Seq<u8>, k: int)
    requires
        0 <= k <= octets.len(),
    ensures
        base128_value(octets.take(k)) <= base128_value(octets),
    decreases octets.len(),
{
    if k == octets.len() {
        assert(octets.take(k) =~= octets);
    } else {
        assert(octets.drop_last().take(k) =~= octets.take(k));
        lemma_base128_prefix(octets.drop_last(), k);
    }
}

/// Accumulates the base-128 number spelled by `octets`, seven bits per octet,
/// most significant group first. Fails with `InvalidInput` exactly when the
/// number does not fit in 64 bits.
pub fn accumulate_tag_number(octets: &[u8]) -> (result: Result<u64, DecodeError>)
    ensures
        match result {
            Ok(n) => n as nat == base128_value(octets@),
            Err(e) => e == DecodeError::InvalidInput && base128_value(octets@) > u64::MAX,
        },
{
    let limit: u64 = u64::MAX >> 7;
    assert(u64::MAX >> 7 == 0x01ff_ffff_ffff_ffffu64) by (bit_vector);
    let mut acc: u64 = 0;
    let mut i: usize = 0;
    assert(octets@.take(0) =~= Seq::<u8>::empty());
    while i < octets.len()
        invariant
            i <= octets.len(),
            limit == 0x01ff_ffff_ffff_ffffu64,
            acc as nat == base128_value(octets@.take(i as int)),
        decreases octets.len() - i,
    {
        assert(octets@.take(i + 1).drop_last() =~= octets@.take(i as int));
        if acc > limit {
            proof {
                lemma_base128_prefix(octets@, i + 1);
            }
            return Err(DecodeError::InvalidInput);
        }
        let octet: u8 = octets[i];
        let next: u64 = (acc << 7) | ((octet & 0x7f) as u64);
        assert(next == acc * 128 + (octet & 0x7f)) by (bit_vector)
            requires
                acc <= 0x01ff_ffff_ffff_ffffu64,
                next == (acc << 7) | ((octet & 0x7f) as u64),
        ;
        acc = next;
        i += 1;
    }
    assert(octets@.take(i as int) =~= octets@);
    Ok(acc)
}

/// Decodes one tag field. `tag_bytes` is the whole field: where the leading
/// octet announces the high-tag-number form, every octet after it counts
/// towards the number.
///
/// Fails with `InvalidInput` where `tag_bytes` is empty or the number does not
/// fit in 64 bits, and on no other input.
pub fn decode_tag(tag_bytes: &[u8]) -> (result: Result<BerTag, DecodeError>)
    ensures
        match result {
            Ok(tag) => decoded_tag(tag_bytes@) == Some(tag@),
            Err(e) => e == DecodeError::InvalidInput && decoded_tag(tag_bytes@) is None,
        },
        tag_bytes@.len() == 0 ==> result is Err,
        result matches Ok(tag) ==> tag.tag_class.spec_bits() == (tag_bytes@[0] >> 6) & 3,
        result matches Ok(tag) ==> tag.constructed == (tag_bytes@[0] & 0x20 != 0),
        result matches Ok(tag) ==> (tag_bytes@[0] & 31 < 31 ==> tag.number == tag_bytes@[0] & 31),
{
    if tag_bytes.len() == 0 {
        return Err(DecodeError::InvalidInput);
    }
    let first: u8 = tag_bytes[0];
    let name = hex_encode(slice_subrange(tag_bytes, 0, 1));
    let tag_class = TagClass::of_octet(first);
    let constructed = (first >> 5) & 1 != 0;
    let low: u8 = first & 31;
    assert(((first >> 5) & 1 != 0) == (first & 0x20 != 0)) by (bit_vector);
    assert(tag_bytes@.take(1) =~= tag_bytes@.subrange(0, 1));
    let number: u64 = if low == HIGH_TAG_NUMBER {
        assert(tag_bytes@.skip(1) =~= tag_bytes@.subrange(1, tag_bytes@.len() as int));
        match accumulate_tag_number(slice_subrange(tag_bytes, 1, tag_bytes.len())) {
            Ok(n) => n,
            Err(e) => {
                return Err(e);
            },
        }
    } else {
        low as u64
    };
    Ok(BerTag { name, tag_class, constructed, number })
}

/// Tells whether an already decoded tag and length are the end-of-contents
/// marker that closes an indefinite-length value.
pub fn _reach_eoc(tag: &BerTag, length: i32) -> (reached: bool)
    ensures
        reached == is_end_of_contents(tag@, length as int),
        reached <==> (tag.tag_class == TagClass::Universal && !tag.constructed && tag.number == 0
            && length == 0),
{
    let universal = match tag.tag_class {
        TagClass::Universal => true,
        _ => false,
    };
    universal && !tag.constructed && tag.number == 0 && length == 0
}

/// The leading octet of a tag field with the given class, constructed flag
/// and low five bits.
pub open spec fn leading_octet(class: TagClass, constructed: bool, low: u8) -> u8
    recommends
        low <= 31,
{
    (class.spec_bits() << 6) | (if constructed { 0x20u8 } else { 0u8 }) | low
}

/// The base-128 groups of `n`, most significant first, each with its top bit
/// set; empty for 0.
pub open spec fn continuation_octets(n: nat) -> Seq<u8>
    decreases n,
{
    if n == 0 {
        Seq::empty()
    } else {
        continuation_octets(n / 128).push((128 + n % 128) as u8)
    }
}

/// The octets that spell `n` after a leading octet in high-tag-number form:
/// its base-128 groups, most significant first, the top bit set on all but
/// the last.
pub open spec fn high_number_octets(n: nat) -> Seq<u8> {
    continuation_octets(n / 128).push((n % 128) as u8)
}

/// The tag field for a class, a constructed flag and a number: one octet for
/// numbers below 31, the high-tag-number form from 31 on.
pub open spec fn tag_octets(class: TagClass, constructed: bool, number: nat) -> Seq<u8> {
    if number < 31 {
        seq![leading_octet(class, constructed, number as u8)]
    } else {
        seq![leading_octet(class, constructed, 31)] + high_number_octets(number)
    }
}

/// The leading octet gives back the class, the flag and the low bits that it
/// was made of.
pub proof fn lemma_leading_octet_fields(class: TagClass, constructed: bool, low: u8)
    requires
        low <= 31,
    ensures
        octet_class(leading_octet(class, constructed, low)) == class,
        octet_constructed(leading_octet(class, constructed, low)) == constructed,
        leading_octet(class, constructed, low) & 31 == low,
{
    let c = class.spec_bits();
    let f = if constructed { 0x20u8 } else { 0u8 };
    let o = leading_octet(class, constructed, low);
    assert(o == (c << 6) | f | low);
    assert(((o >> 6) & 3 == c) && (((o >> 5) & 1 != 0) == (f == 0x20u8)) && (o & 31 == low))
        by (bit_vector)
        requires
            o == (c << 6) | f | low,
            c <= 3,
            low <= 31,
            f == 0x20u8 || f == 0u8,
    ;
}

proof fn lemma_continuation_value(n: nat)
    ensures
        base128_value(continuation_octets(n)) == n,
    decreases n,
{
    if n != 0 {
        let d: u8 = (n % 128) as u8;
        let octets = continuation_octets(n);
        lemma_continuation_value(n / 128);
        assert(octets.drop_last() =~= continuation_octets(n / 128));
        assert(octets.last() == (128 + d) as u8);
        assert(((128 + d) as u8) & 0x7f == d) by (bit_vector)
            requires
                d < 128,
        ;
    }
}

/// The octets written for a number in high-tag-number form spell that number.
pub proof fn lemma_high_number_value(n: nat)
    ensures
        base128_value(high_number_octets(n)) == n,
{
    let d: u8 = (n % 128) as u8;
    let octets = high_number_octets(n);
    lemma_continuation_value(n / 128);
    assert(octets.drop_last() =~= continuation_octets(n / 128));
    assert(octets.last() == d);
    assert(d & 0x7f == d) by (bit_vector)
        requires
            d < 128,
    ;
}

proof fn lemma_continuation_bits(n: nat)
    ensures
        forall|i: int|
            0 <= i < continuation_octets(n).len() ==> #[trigger] continuation_octets(n)[i] & 0x80
                != 0,
    decreases n,
{
    if n != 0 {
        let d: u8 = (n % 128) as u8;
        lemma_continuation_bits(n / 128);
        assert(((128 + d) as u8) & 0x80 != 0) by (bit_vector)
            requires
                d < 128,
        ;
        let octets = continuation_octets(n);
        let front = continuation_octets(n / 128);
        assert(octets == front.push((128 + d) as u8));
        assert forall|i: int| 0 <= i < octets.len() implies #[trigger] octets[i] & 0x80 != 0 by {
            if i < front.len() {
                assert(octets[i] == front[i]);
            }
        }
    }
}

/// The octets written for a number in high-tag-number form delimit
/// themselves: the top bit is set on every octet but the last.
pub proof fn lemma_high_number_octets_delimited(n: nat)
    ensures
        high_number_octets(n).len() >= 1,
        high_number_octets(n).last() & 0x80 == 0,
        forall|i: int|
            0 <= i < high_number_octets(n).len() - 1 ==> #[trigger] high_number_octets(n)[i] & 0x80
                != 0,
{
    let d: u8 = (n % 128) as u8;
    lemma_continuation_bits(n / 128);
    assert(d & 0x80 == 0) by (bit_vector)
        requires
            d < 128,
    ;
    assert forall|i: int| 0 <= i < high_number_octets(n).len() - 1 implies #[trigger] high_number_octets(
        n,
    )[i] & 0x80 != 0 by {
        assert(high_number_octets(n)[i] == continuation_octets(n / 128)[i]);
    }
}

/// A tag field of one octet whose low five bits are not all set decodes to
/// those five bits as the number, the two top bits as the class, and bit 5 as
/// the constructed flag.
pub proof fn lemma_single_octet_tag(o: u8)
    requires
        o & 31 < 31,
    ensures
        decoded_tag(seq![o]) matches Some(tag) && {
            &&& tag.number == o & 31
            &&& tag.class.spec_bits() == (o >> 6) & 3
            &&& tag.constructed == (o & 0x20 != 0)
        },
{
    assert(o & 31 <= 31) by (bit_vector);
    assert(((o >> 6) & 3) <= 3) by (bit_vector);
    assert(((o >> 5) & 1 != 0) == (o & 0x20 != 0)) by (bit_vector);
}

/// Decoding the tag field written for a class, a constructed flag and a
/// number gives back all three, for every number that fits in 64 bits; from
/// 31 on that is the high-tag-number form.
pub proof fn lemma_tag_round_trip(class: TagClass, constructed: bool, number: nat)
    requires
        number <= u64::MAX,
    ensures
        decoded_tag(tag_octets(class, constructed, number)) matches Some(tag) && {
            &&& tag.class == class
            &&& tag.constructed == constructed
            &&& tag.number == number
        },
{
    let bytes = tag_octets(class, constructed, number);
    if number < 31 {
        lemma_leading_octet_fields(class, constructed, number as u8);
    } else {
        lemma_leading_octet_fields(class, constructed, 31);
        lemma_high_number_value(number);
        assert(bytes.skip(1) =~= high_number_octets(number));
    }
}

} // verus!
