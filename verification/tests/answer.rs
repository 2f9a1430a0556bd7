use dnsr::{compose, dotted_decimal, get_ip, get_ips, is_pointer, question_length, DnsError};

fn response(ancount: u16, records: &[&[u8]]) -> Vec<u8> {
    let mut buffer: Vec<u8> = vec![0x00, 0x2D, 0x81, 0x80, 0, 1, 0, 0, 0, 0, 0, 0];
    buffer[6] = (ancount >> 8) as u8;
    buffer[7] = (ancount & 0xFF) as u8;
    buffer.extend_from_slice(&[1, b'a', 0, 0, 1, 0, 1]);
    for rdata in records {
        buffer.extend_from_slice(&[0xC0, 0x0C, 0, 1, 0, 1, 0, 0, 0x0E, 0x10]);
        buffer.push((rdata.len() >> 8) as u8);
        buffer.push((rdata.len() & 0xFF) as u8);
        buffer.extend_from_slice(rdata);
    }
    buffer
}

#[test]
fn two_records_give_two_addresses() {
    let buffer = response(2, &[&[93, 184, 216, 34], &[1, 2, 3, 4]]);
    let start = 12 + question_length(&buffer).unwrap();
    assert_eq!(start, 19);
    assert_eq!(
        get_ips(&buffer, start),
        Ok(vec![String::from("93.184.216.34"), String::from("1.2.3.4")])
    );
}

#[test]
fn each_record_consumes_its_fixed_part_and_its_rdata() {
    let buffer = response(2, &[&[93, 184, 216, 34], &[1, 2, 3, 4]]);
    let (first, next) = get_ip(&buffer, 19).unwrap();
    assert_eq!(first, "93.184.216.34");
    assert_eq!(next, 19 + 16);
    let (second, end) = get_ip(&buffer, next).unwrap();
    assert_eq!(second, "1.2.3.4");
    assert_eq!(end, 19 + 32);
    assert_eq!(end, buffer.len());
}

#[test]
fn walk_can_be_made_again_from_the_same_offset() {
    let buffer = response(2, &[&[10, 0, 0, 1], &[192, 168, 1, 255]]);
    let first = get_ips(&buffer, 19);
    let second = get_ips(&buffer, 19);
    assert_eq!(first, second);
    assert_eq!(first, Ok(vec![String::from("10.0.0.1"), String::from("192.168.1.255")]));
}

#[test]
fn records_of_other_lengths_are_joined_all_the_same() {
    let buffer = response(3, &[&[], &[7], &[0, 9, 10, 99, 100, 255]]);
    assert_eq!(
        get_ips(&buffer, 19),
        Ok(vec![String::new(), String::from("7"), String::from("0.9.10.99.100.255")])
    );
}

#[test]
fn no_records_give_no_addresses() {
    let buffer = response(0, &[]);
    assert_eq!(get_ips(&buffer, 19), Ok(Vec::<String>::new()));
    assert_eq!(get_ips(&buffer, usize::MAX), Ok(Vec::<String>::new()));
    let with_spare = response(0, &[&[1, 2, 3, 4]]);
    assert_eq!(get_ips(&with_spare, 19), Ok(Vec::<String>::new()));
}

#[test]
fn only_the_announced_records_are_read() {
    let buffer = response(1, &[&[8, 8, 8, 8], &[8, 8, 4, 4]]);
    assert_eq!(get_ips(&buffer, 19), Ok(vec![String::from("8.8.8.8")]));
}

#[test]
fn buffer_cut_inside_rdata_is_a_truncated_record() {
    let whole = response(2, &[&[93, 184, 216, 34], &[1, 2, 3, 4]]);
    for cut in 1..=4 {
        let buffer = &whole[..whole.len() - cut];
        assert_eq!(get_ips(buffer, 19), Err(DnsError::TruncatedRecord));
        assert_eq!(get_ip(buffer, 35), Err(DnsError::TruncatedRecord));
        assert_eq!(get_ip(buffer, 19).unwrap().1, 35);
    }
    let first_cut = &whole[..33];
    assert_eq!(get_ips(first_cut, 19), Err(DnsError::TruncatedRecord));
}

#[test]
fn buffer_cut_before_rdlength_is_out_of_bounds() {
    let whole = response(2, &[&[93, 184, 216, 34], &[1, 2, 3, 4]]);
    for cut in 5..=16 {
        let buffer = &whole[..whole.len() - cut];
        assert_eq!(get_ips(buffer, 19), Err(DnsError::OutOfBounds));
        assert_eq!(get_ip(buffer, 35), Err(DnsError::OutOfBounds));
    }
    assert_eq!(get_ip(&whole, whole.len()), Err(DnsError::OutOfBounds));
    assert_eq!(get_ip(&whole, usize::MAX), Err(DnsError::OutOfBounds));
    assert_eq!(get_ip(&[], 0), Err(DnsError::OutOfBounds));
}

#[test]
fn too_many_announced_records_run_out_of_bounds() {
    let buffer = response(3, &[&[93, 184, 216, 34], &[1, 2, 3, 4]]);
    assert_eq!(get_ips(&buffer, 19), Err(DnsError::OutOfBounds));
}

#[test]
fn addresses_need_a_header() {
    assert_eq!(get_ips(&[0u8; 11], 0), Err(DnsError::OutOfBounds));
    assert_eq!(get_ips(&[], 12), Err(DnsError::OutOfBounds));
}

#[test]
fn rdlength_is_read_in_network_byte_order() {
    let long: Vec<u8> = (0..300).map(|i| (i % 256) as u8).collect();
    let buffer = response(1, &[&long]);
    let (text, next) = get_ip(&buffer, 19).unwrap();
    assert_eq!(next, 19 + 12 + 300);
    assert_eq!(text.split('.').count(), 300);
    assert!(text.starts_with("0.1.2.3."));
    assert!(text.ends_with(".42.43"));
}

#[test]
fn query_holds_no_answers() {
    let query = compose(45, "dns.google.com").unwrap();
    assert_eq!(get_ips(&query, query.len()), Ok(Vec::<String>::new()));
}

#[test]
fn bytes_are_written_in_decimal() {
    assert_eq!(dotted_decimal(&[]), "");
    assert_eq!(dotted_decimal(&[0]), "0");
    assert_eq!(dotted_decimal(&[9, 10, 99, 100, 101, 199, 200, 255]), "9.10.99.100.101.199.200.255");
    for value in 0u8..=255 {
        assert_eq!(dotted_decimal(&[value]), value.to_string());
        assert_eq!(dotted_decimal(&[value, value]), format!("{}.{}", value, value));
    }
}

#[test]
fn pointer_has_both_top_bits() {
    assert!(is_pointer(0xC0));
    assert!(is_pointer(0xFF));
    assert!(is_pointer(0xC1));
    assert!(!is_pointer(0xBF));
    assert!(!is_pointer(0x80));
    assert!(!is_pointer(0x40));
    assert!(!is_pointer(0x00));
    assert!(!is_pointer(63));
}
