use dnsr::{
    assign_bit, get_ancount, get_id, get_qdcount, get_qr, get_ra, get_rcode, get_rd, get_u16,
    set_id, set_qdcount, set_rd, set_u16, test_bit, DnsError, ResponseCode, HEADER_LENGTH,
};

// Test Response Code Enum
#[test]
fn get_u8_from_response_code() {
    let rc = ResponseCode::FormatError;
    let rc_value: u8 = rc.into();
    assert_eq!(rc_value, 1);
}

#[test]
fn get_response_code_from_u8() {
    let rc_val: u8 = 2;
    let rc: ResponseCode = rc_val.into();
    assert_eq!(rc, ResponseCode::ServerFailure);
}

#[test]
fn response_codes_round_trip() {
    let codes = [
        ResponseCode::NoError,
        ResponseCode::FormatError,
        ResponseCode::ServerFailure,
        ResponseCode::NameError,
        ResponseCode::NotImplemented,
        ResponseCode::Refused,
    ];
    for number in 0u8..=5 {
        let code = ResponseCode::from(number);
        assert_eq!(code, codes[number as usize]);
        assert_eq!(u8::from(code), number);
    }
    for number in 6u8..=255 {
        assert_eq!(ResponseCode::from(number), ResponseCode::NA);
    }
    assert_eq!(u8::from(ResponseCode::NA), 6);
}

#[test]
fn header_is_twelve_bytes() {
    assert_eq!(HEADER_LENGTH, 12);
}

#[test]
fn fields_are_read_in_network_byte_order() {
    let payload: Vec<u8> = vec![0x12, 0x34, 0x00, 0x00, 0x00, 0x02, 0x01, 0x03, 0, 0, 0, 0];
    assert_eq!(get_id(&payload), Ok(0x1234));
    assert_eq!(get_qdcount(&payload), Ok(2));
    assert_eq!(get_ancount(&payload), Ok(259));
    assert_eq!(get_u16(&payload, 0), Ok(4660));
    assert_eq!(get_u16(&payload, 1), Ok(0x3400));
    assert_eq!(get_u16(&payload, 10), Ok(0));
}

#[test]
fn get_u16_refuses_what_lies_outside() {
    let payload: Vec<u8> = vec![1, 2, 3];
    assert_eq!(get_u16(&payload, 1), Ok(0x0203));
    assert_eq!(get_u16(&payload, 2), Err(DnsError::OutOfBounds));
    assert_eq!(get_u16(&payload, 3), Err(DnsError::OutOfBounds));
    assert_eq!(get_u16(&payload, usize::MAX), Err(DnsError::OutOfBounds));
    assert_eq!(get_u16(&[], 0), Err(DnsError::OutOfBounds));
    assert_eq!(get_u16(&[7], 0), Err(DnsError::OutOfBounds));
}

#[test]
fn set_u16_writes_two_bytes_and_no_more() {
    let mut payload: Vec<u8> = vec![0xAA; 6];
    set_u16(&mut payload, 2, 0x0102);
    assert_eq!(payload, vec![0xAA, 0xAA, 0x01, 0x02, 0xAA, 0xAA]);
    set_u16(&mut payload, 4, 0xFFFE);
    assert_eq!(payload, vec![0xAA, 0xAA, 0x01, 0x02, 0xFF, 0xFE]);
    assert_eq!(get_u16(&payload, 4), Ok(0xFFFE));
}

#[test]
fn setters_touch_their_field_only() {
    let mut payload: Vec<u8> = vec![0x55; 14];
    set_id(&mut payload, 0xBEEF);
    set_qdcount(&mut payload, 1);
    assert_eq!(
        payload,
        vec![0xBE, 0xEF, 0x55, 0x55, 0x00, 0x01, 0x55, 0x55, 0x55, 0x55, 0x55, 0x55, 0x55, 0x55]
    );
}

#[test]
fn getters_refuse_a_buffer_without_a_whole_header() {
    let short: Vec<u8> = vec![0xFF; 11];
    assert_eq!(get_id(&short), Err(DnsError::OutOfBounds));
    assert_eq!(get_qr(&short), Err(DnsError::OutOfBounds));
    assert_eq!(get_rd(&short), Err(DnsError::OutOfBounds));
    assert_eq!(get_ra(&short), Err(DnsError::OutOfBounds));
    assert_eq!(get_rcode(&short), Err(DnsError::OutOfBounds));
    assert_eq!(get_qdcount(&short), Err(DnsError::OutOfBounds));
    assert_eq!(get_ancount(&short), Err(DnsError::OutOfBounds));
    assert_eq!(get_id(&[]), Err(DnsError::OutOfBounds));
    let whole: Vec<u8> = vec![0xFF; 12];
    assert_eq!(get_id(&whole), Ok(0xFFFF));
}

#[test]
fn recursion_bit_round_trips() {
    for flags in [0x00u8, 0x01, 0x80, 0x85, 0xFE, 0xFF, 0x7A] {
        let mut payload: Vec<u8> = vec![0x33; 12];
        payload[2] = flags;
        let before = payload.clone();

        set_rd(&mut payload, true);
        assert_eq!(get_rd(&payload), Ok(true));
        assert_eq!(payload[2], flags | 0x01);

        set_rd(&mut payload, false);
        assert_eq!(get_rd(&payload), Ok(false));
        assert_eq!(payload[2], flags & 0xFE);
        assert_eq!(payload[2] & 0xFE, before[2] & 0xFE);

        payload[2] = before[2];
        assert_eq!(payload, before);
    }
}

#[test]
fn setting_then_clearing_restores_a_clear_message() {
    let mut payload: Vec<u8> = vec![0x10, 0x20, 0x84, 0x81, 0, 1, 0, 2, 0, 0, 0, 0, 9, 9];
    let before = payload.clone();
    set_rd(&mut payload, true);
    assert_ne!(payload, before);
    set_rd(&mut payload, false);
    assert_eq!(payload, before);
}

#[test]
fn flags_are_read_at_their_bits() {
    let mut payload: Vec<u8> = vec![0; 12];
    assert_eq!(get_qr(&payload), Ok(false));
    assert_eq!(get_rd(&payload), Ok(false));
    assert_eq!(get_ra(&payload), Ok(false));

    payload[2] = 0x80;
    assert_eq!(get_qr(&payload), Ok(true));
    assert_eq!(get_rd(&payload), Ok(false));
    assert_eq!(get_ra(&payload), Ok(false));

    payload[2] = 0x01;
    assert_eq!(get_qr(&payload), Ok(false));
    assert_eq!(get_rd(&payload), Ok(true));
    assert_eq!(get_ra(&payload), Ok(true));

    payload[2] = 0x7E;
    payload[3] = 0xFF;
    assert_eq!(get_qr(&payload), Ok(false));
    assert_eq!(get_rd(&payload), Ok(false));
    assert_eq!(get_ra(&payload), Ok(false));
}

#[test]
fn response_code_is_the_low_nibble() {
    let mut payload: Vec<u8> = vec![0xFF; 12];
    payload[3] = 0x80;
    assert_eq!(get_rcode(&payload), Ok(ResponseCode::NoError));
    payload[3] = 0xF3;
    assert_eq!(get_rcode(&payload), Ok(ResponseCode::NameError));
    payload[3] = 0x85;
    assert_eq!(get_rcode(&payload), Ok(ResponseCode::Refused));
    for reserved in 6u8..=15 {
        payload[3] = 0x80 | reserved;
        assert_eq!(get_rcode(&payload), Ok(ResponseCode::NA));
    }
}

#[test]
fn bits_are_tested_and_assigned_under_a_mask() {
    assert!(test_bit(0x80, 0x80));
    assert!(!test_bit(0x7F, 0x80));
    assert!(test_bit(0x05, 0x0F));
    assert!(!test_bit(0xF0, 0x0F));
    assert_eq!(assign_bit(0xF0, 0x01, true), 0xF1);
    assert_eq!(assign_bit(0xF1, 0x01, true), 0xF1);
    assert_eq!(assign_bit(0xF1, 0x01, false), 0xF0);
    assert_eq!(assign_bit(0xFF, 0x0F, false), 0xF0);
}
