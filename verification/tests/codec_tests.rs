use xuanmi_base_support::conversion::utf8::{
    bslice_into_partof_vecu8, str_from_partof_vecu8, str_into_partof_vecu8, str_to_u8p,
    u8p_to_bslice, u8p_to_str, CODEC_SITE,
};
use xuanmi_base_support::lang::PTRLEN;

fn prefix(len: usize) -> Vec<u8> {
    len.to_be_bytes().to_vec()
}

#[test]
fn prefix_width_is_the_pointer_width() {
    assert_eq!(PTRLEN, std::mem::size_of::<usize>());
}

#[test]
fn write_stores_big_endian_length_then_bytes() {
    let mut buf = vec![0xAAu8; PTRLEN + 4];
    let (mut beg, mut end) = (0usize, 0usize);
    assert!(str_into_partof_vecu8("ab", &mut buf, &mut beg, &mut end).is_ok());
    let mut expected = vec![0u8; PTRLEN - 1];
    expected.push(2);
    expected.extend_from_slice(b"ab");
    expected.extend_from_slice(&[0xAA, 0xAA]);
    assert_eq!(buf, expected);
    assert_eq!((beg, end), (PTRLEN, PTRLEN + 2));
}

#[test]
fn write_stores_a_long_length_in_two_bytes() {
    let payload = vec![7u8; 258];
    let mut buf = vec![0u8; PTRLEN + 258];
    let (mut beg, mut end) = (0usize, 0usize);
    assert!(bslice_into_partof_vecu8(&payload, &mut buf, &mut beg, &mut end).is_ok());
    assert_eq!(&buf[..PTRLEN], prefix(258).as_slice());
    assert_eq!(buf[PTRLEN - 2], 1);
    assert_eq!(buf[PTRLEN - 1], 2);
    assert_eq!(&buf[PTRLEN..], payload.as_slice());
}

#[test]
fn strings_come_back_in_order() {
    let texts = ["", "hello", "héllo wörld", "日本語", "a\u{0}b", "🦀 crab"];
    let total: usize = texts.iter().map(|t| PTRLEN + t.len()).sum();
    let mut buf = vec![0u8; total];
    let (mut beg, mut end) = (0usize, 0usize);
    for text in texts.iter() {
        assert!(str_into_partof_vecu8(text, &mut buf, &mut beg, &mut end).is_ok());
    }
    assert_eq!(end, total);
    let (mut beg, mut end) = (0usize, 0usize);
    for text in texts.iter() {
        let read = str_from_partof_vecu8(&buf, &mut beg, &mut end).ok().unwrap();
        assert_eq!(&read, text);
        assert_eq!(end - beg, text.len());
    }
    assert_eq!(end, total);
}

#[test]
fn writing_starts_where_the_cursor_ends() {
    let mut buf = vec![0u8; 3 + PTRLEN + 1];
    let (mut beg, mut end) = (0usize, 3usize);
    assert!(str_into_partof_vecu8("z", &mut buf, &mut beg, &mut end).is_ok());
    assert_eq!(&buf[..3], &[0, 0, 0]);
    assert_eq!(&buf[3..3 + PTRLEN], prefix(1).as_slice());
    assert_eq!(buf[3 + PTRLEN], b'z');
    let (mut beg, mut end) = (0usize, 3usize);
    assert_eq!(str_from_partof_vecu8(&buf, &mut beg, &mut end).ok().unwrap(), "z");
    assert_eq!((beg, end), (3 + PTRLEN, 3 + PTRLEN + 1));
}

#[test]
fn reading_a_length_past_the_end_is_out_of_bound() {
    let buf = vec![0u8; PTRLEN - 1];
    let (mut beg, mut end) = (0usize, 0usize);
    let ex = str_from_partof_vecu8(&buf, &mut beg, &mut end).err().unwrap();
    assert_eq!(ex.get_name(), "IndexOutOfBound");
    assert_eq!(
        ex.get_context(),
        Some(
            format!(
                "When reading the length, index 0..{} out of bound for bufsize {}",
                PTRLEN,
                PTRLEN - 1
            )
            .as_str()
        )
    );
    assert_eq!((beg, end), (0, PTRLEN));
    assert_eq!(
        ex.render(),
        format!(
            "Exception \"IndexOutOfBound\" occurs at \"{}\"\nContext: When reading the length, index 0..{} out of bound for bufsize {}\n",
            CODEC_SITE,
            PTRLEN,
            PTRLEN - 1
        )
    );
}

#[test]
fn reading_from_an_empty_buffer_is_out_of_bound() {
    let buf: Vec<u8> = vec![];
    let (mut beg, mut end) = (0usize, 0usize);
    let ex = str_from_partof_vecu8(&buf, &mut beg, &mut end).err().unwrap();
    assert_eq!(ex.get_name(), "IndexOutOfBound");
}

#[test]
fn reading_a_payload_past_the_end_is_out_of_bound() {
    let mut buf = prefix(5);
    buf.extend_from_slice(b"abc");
    let (mut beg, mut end) = (0usize, 0usize);
    let ex = str_from_partof_vecu8(&buf, &mut beg, &mut end).err().unwrap();
    assert_eq!(ex.get_name(), "IndexOutOfBound");
    assert_eq!(
        ex.get_context(),
        Some(
            format!(
                "When reading the bytes, index {}..{} out of bound for bufsize {}",
                PTRLEN,
                PTRLEN + 5,
                PTRLEN + 3
            )
            .as_str()
        )
    );
    assert_eq!((beg, end), (PTRLEN, PTRLEN + 5));
}

#[test]
fn a_huge_announced_length_is_out_of_bound_and_does_not_overflow() {
    let mut buf = vec![0xFFu8; PTRLEN];
    buf.extend_from_slice(b"abc");
    let (mut beg, mut end) = (0usize, 0usize);
    let ex = str_from_partof_vecu8(&buf, &mut beg, &mut end).err().unwrap();
    assert_eq!(ex.get_name(), "IndexOutOfBound");
    assert_eq!((beg, end), (PTRLEN, usize::MAX));
}

#[test]
fn a_cursor_near_the_largest_index_is_out_of_bound() {
    let buf = vec![0u8; 16];
    let (mut beg, mut end) = (0usize, usize::MAX - 2);
    let ex = str_from_partof_vecu8(&buf, &mut beg, &mut end).err().unwrap();
    assert_eq!(ex.get_name(), "IndexOutOfBound");
    assert_eq!((beg, end), (usize::MAX - 2, usize::MAX));
    let mut buf = vec![0u8; 16];
    let (mut beg, mut end) = (0usize, usize::MAX - 2);
    let ex = str_into_partof_vecu8("a", &mut buf, &mut beg, &mut end).err().unwrap();
    assert_eq!(ex.get_name(), "IndexOutOfBound");
    assert_eq!(buf, vec![0u8; 16]);
}

#[test]
fn a_payload_that_is_not_utf8_is_named_so() {
    let mut buf = prefix(2);
    buf.extend_from_slice(&[0xC3, 0x28]);
    let (mut beg, mut end) = (0usize, 0usize);
    let ex = str_from_partof_vecu8(&buf, &mut beg, &mut end).err().unwrap();
    assert_eq!(ex.get_name(), "InvalidUTF8Bytes");
    assert!(ex.render().contains("Caused by:\n"));
    assert_eq!((beg, end), (PTRLEN, PTRLEN + 2));
}

#[test]
fn writing_a_length_past_the_end_changes_nothing() {
    let mut buf = vec![9u8; PTRLEN - 1];
    let (mut beg, mut end) = (0usize, 0usize);
    let ex = str_into_partof_vecu8("a", &mut buf, &mut beg, &mut end).err().unwrap();
    assert_eq!(ex.get_name(), "IndexOutOfBound");
    assert_eq!(
        ex.get_context(),
        Some(
            format!(
                "When writing the length, index 0..{} out of bound for bufsize {}",
                PTRLEN,
                PTRLEN - 1
            )
            .as_str()
        )
    );
    assert_eq!(buf, vec![9u8; PTRLEN - 1]);
    assert_eq!((beg, end), (0, PTRLEN));
}

#[test]
fn writing_a_payload_past_the_end_leaves_the_length_behind() {
    let mut buf = vec![9u8; PTRLEN + 2];
    let (mut beg, mut end) = (0usize, 0usize);
    let ex = str_into_partof_vecu8("abc", &mut buf, &mut beg, &mut end).err().unwrap();
    assert_eq!(ex.get_name(), "IndexOutOfBound");
    assert_eq!(
        ex.get_context(),
        Some(
            format!(
                "When writing the bytes, index {}..{} out of bound for bufsize {}",
                PTRLEN,
                PTRLEN + 3,
                PTRLEN + 2
            )
            .as_str()
        )
    );
    let mut expected = prefix(3);
    expected.extend_from_slice(&[9, 9]);
    assert_eq!(buf, expected);
    assert_eq!((beg, end), (PTRLEN, PTRLEN + 3));
}

#[test]
fn an_exactly_filled_buffer_is_accepted() {
    let mut buf = vec![0u8; PTRLEN];
    let (mut beg, mut end) = (0usize, 0usize);
    assert!(str_into_partof_vecu8("", &mut buf, &mut beg, &mut end).is_ok());
    assert_eq!((beg, end), (PTRLEN, PTRLEN));
    let (mut beg, mut end) = (0usize, 0usize);
    assert_eq!(str_from_partof_vecu8(&buf, &mut beg, &mut end).ok().unwrap(), "");
}

#[test]
fn a_string_is_its_utf8_bytes_and_their_count() {
    let (bytes, len) = str_to_u8p("héllo");
    assert_eq!(bytes, "héllo".as_bytes());
    assert_eq!(len, 6);
    assert_eq!(u8p_to_bslice(bytes, 3), &[b'h', 0xC3, 0xA9]);
    assert_eq!(u8p_to_str(bytes, 6).ok().unwrap(), "héllo");
    assert_eq!(u8p_to_str(bytes, 1).ok().unwrap(), "h");
    let ex = u8p_to_str(bytes, 2).err().unwrap();
    assert_eq!(ex.get_name(), "InvalidUTF8Bytes");
}
