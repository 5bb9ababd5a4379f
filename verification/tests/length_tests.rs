use ber_header::{
    _length_size, _read_length, accumulate_length, count_following_octets, parse_length,
    ByteStream, DecodeError, Length, LengthForm,
};

#[test]
fn short_form_for_every_octet_up_to_127() {
    for n in 0u8..=127 {
        let bytes = [n];
        let mut stream = ByteStream::new(&bytes);
        let length = _read_length(&mut stream).unwrap();
        assert_eq!(length.value, n as u64);
        assert_eq!(length.consumed, 1);
        assert_eq!(length.form, LengthForm::Short);
        assert_eq!(stream.remaining_len(), 0);
    }
}

#[test]
fn long_form_two_octets() {
    let bytes = [0x82, 0x01, 0x00];
    let mut stream = ByteStream::new(&bytes);
    let length = _read_length(&mut stream).unwrap();
    assert_eq!(length, Length { value: 256, form: LengthForm::LongDefinite, consumed: 3 });
    assert_eq!(stream.remaining_len(), 0);
}

#[test]
fn long_form_is_big_endian() {
    let bytes = [0x83, 0x01, 0x02, 0x03, 0xaa];
    let mut stream = ByteStream::new(&bytes);
    let length = _read_length(&mut stream).unwrap();
    assert_eq!(length.value, 0x010203);
    assert_eq!(length.consumed, 4);
    assert_eq!(stream.rest(), &[0xaa]);
}

#[test]
fn indefinite_form() {
    let bytes = [0x80];
    let mut stream = ByteStream::new(&bytes);
    let length = _read_length(&mut stream).unwrap();
    assert_eq!(length, Length { value: 0, form: LengthForm::Indefinite, consumed: 1 });
}

#[test]
fn indefinite_form_leaves_what_follows() {
    let bytes = [0x80, 0x00, 0x00];
    let mut stream = ByteStream::new(&bytes);
    let length = _read_length(&mut stream).unwrap();
    assert_eq!(length.form, LengthForm::Indefinite);
    assert_eq!(length.consumed, 1);
    assert_eq!(stream.rest(), &[0x00, 0x00]);
}

#[test]
fn long_form_cut_short_is_unexpected_end() {
    let bytes = [0x84, 0x01, 0x02];
    let mut stream = ByteStream::new(&bytes);
    assert_eq!(_read_length(&mut stream), Err(DecodeError::UnexpectedEndOfInput));
    // Nothing was read.
    assert_eq!(stream.remaining_len(), 3);
    assert_eq!(parse_length(&bytes), Err(DecodeError::UnexpectedEndOfInput));
}

#[test]
fn empty_stream_is_unexpected_end() {
    let bytes: [u8; 0] = [];
    let mut stream = ByteStream::new(&bytes);
    assert_eq!(_read_length(&mut stream), Err(DecodeError::UnexpectedEndOfInput));
    assert_eq!(_length_size(&mut stream), Err(DecodeError::UnexpectedEndOfInput));
    assert_eq!(parse_length(&bytes), Err(DecodeError::UnexpectedEndOfInput));
}

#[test]
fn long_form_keeps_the_low_64_bits() {
    let bytes = [0x89, 0x01, 0x00, 0x00, 0x00, 0x00, 0x00, 0x00, 0x00, 0x05];
    let length = parse_length(&bytes).unwrap();
    assert_eq!(length.value, 5);
    assert_eq!(length.consumed, 10);
    assert_eq!(length.form, LengthForm::LongDefinite);
}

#[test]
fn long_form_of_eight_octets_fills_64_bits() {
    let bytes = [0x88, 0xff, 0xff, 0xff, 0xff, 0xff, 0xff, 0xff, 0xfe];
    let length = parse_length(&bytes).unwrap();
    assert_eq!(length.value, u64::MAX - 1);
    assert_eq!(length.consumed, 9);
}

#[test]
fn longest_length_field() {
    let mut bytes: Vec<u8> = vec![0xff];
    bytes.extend([0u8; 126]);
    bytes.push(7);
    let length = parse_length(&bytes).unwrap();
    assert_eq!(length.value, 7);
    assert_eq!(length.consumed, 128);
    bytes.pop();
    assert_eq!(parse_length(&bytes), Err(DecodeError::UnexpectedEndOfInput));
}

#[test]
fn parse_length_ignores_what_follows_the_field() {
    let length = parse_length(&[0x05, 0xff, 0xff]).unwrap();
    assert_eq!(length, Length { value: 5, form: LengthForm::Short, consumed: 1 });
    let length = parse_length(&[0x81, 0xc8, 0x01]).unwrap();
    assert_eq!(length, Length { value: 200, form: LengthForm::LongDefinite, consumed: 2 });
}

#[test]
fn two_length_fields_in_a_row() {
    let bytes = [0x82, 0x01, 0x00, 0x7f];
    let mut stream = ByteStream::new(&bytes);
    assert_eq!(_read_length(&mut stream).unwrap().value, 256);
    assert_eq!(stream.remaining_len(), 1);
    assert_eq!(_read_length(&mut stream).unwrap().value, 127);
    assert_eq!(_read_length(&mut stream), Err(DecodeError::UnexpectedEndOfInput));
}

#[test]
fn length_size_short_form_is_one() {
    let bytes = [0x05, 0x01];
    let mut stream = ByteStream::new(&bytes);
    assert_eq!(_length_size(&mut stream), Ok(1));
    assert_eq!(stream.remaining_len(), 1);
}

#[test]
fn length_size_long_form_is_the_low_seven_bits() {
    let bytes = [0x82, 0x01, 0x00];
    let mut stream = ByteStream::new(&bytes);
    assert_eq!(_length_size(&mut stream), Ok(2));
    // The octets that spell the length are left unread.
    assert_eq!(stream.rest(), &[0x01, 0x00]);
    let bytes = [0xff];
    let mut stream = ByteStream::new(&bytes);
    assert_eq!(_length_size(&mut stream), Ok(127));
}

#[test]
fn length_size_indefinite_form_is_zero() {
    let bytes = [0x80];
    let mut stream = ByteStream::new(&bytes);
    assert_eq!(_length_size(&mut stream), Ok(0));
}

#[test]
fn following_octet_counts() {
    assert_eq!(count_following_octets(0x00), 0);
    assert_eq!(count_following_octets(0x7f), 0);
    assert_eq!(count_following_octets(0x80), 0);
    assert_eq!(count_following_octets(0x81), 1);
    assert_eq!(count_following_octets(0xff), 127);
}

#[test]
fn form_of_leading_octet() {
    assert_eq!(LengthForm::of_octet(0x00), LengthForm::Short);
    assert_eq!(LengthForm::of_octet(0x7f), LengthForm::Short);
    assert_eq!(LengthForm::of_octet(0x80), LengthForm::Indefinite);
    assert_eq!(LengthForm::of_octet(0x81), LengthForm::LongDefinite);
    assert_eq!(LengthForm::of_octet(0xff), LengthForm::LongDefinite);
}

#[test]
fn accumulate_length_values() {
    assert_eq!(accumulate_length(&[]), 0);
    assert_eq!(accumulate_length(&[0x01, 0x00]), 256);
    assert_eq!(accumulate_length(&[0xff, 0xff, 0xff, 0xff]), 0xffff_ffff);
    assert_eq!(accumulate_length(&[0x02, 0, 0, 0, 0, 0, 0, 0, 0x09]), 9);
}

#[test]
fn stream_reads_front_to_back() {
    let bytes = [1u8, 2, 3, 4, 5];
    let mut stream = ByteStream::new(&bytes);
    assert_eq!(stream.remaining_len(), 5);
    assert_eq!(stream.read_octet(), Ok(1));
    assert_eq!(stream.read_exact(2).unwrap(), &[2, 3]);
    assert_eq!(stream.rest(), &[4, 5]);
    assert_eq!(stream.read_exact(3).err(), Some(DecodeError::UnexpectedEndOfInput));
    assert_eq!(stream.remaining_len(), 2);
    assert_eq!(stream.read_exact(0).unwrap().len(), 0);
    assert_eq!(stream.read_exact(2).unwrap(), &[4, 5]);
    assert_eq!(stream.read_octet(), Err(DecodeError::UnexpectedEndOfInput));
}
