use soupdb::dbfile::{new_file_image, DbMetadata, PageMetadata};
use soupdb::page::PAGE_SIZE;
use soupdb::value::Value;
use soupdb::value_type::ValueType;

#[test]
fn dbfile_test_page() {
    let page_data = [
        0xa, 0, 0, 0, 0, 0, 0, 0, 0x14, 0, 0, 0, 0, 0, 0, 0,
        0xb, 0, 0, 0, 0, 0, 0, 0, 0x15, 0, 0, 0, 0, 0, 0, 0,
    ];
    let page = PageMetadata::from_bytes(&page_data);
    assert_eq!(page.prev_page, 10);
    assert_eq!(page.next_page, 20);
    let db = DbMetadata::from_bytes(&page_data[16..page_data.len()]);
    assert_eq!(db.first_free_page, 11);
    assert_eq!(db.last_page, 21);
    let page = PageMetadata::from_page(&page_data);
    assert_eq!(page.prev_page, 10);
    assert_eq!(page.next_page, 20);
    let db = DbMetadata::from_page(&page_data);
    assert_eq!(db.first_free_page, 11);
    assert_eq!(db.last_page, 21);
}

#[test]
fn new_file_layout() {
    let image = new_file_image();
    assert_eq!(2 * PAGE_SIZE as usize, image.len());
    assert_eq!(PageMetadata { prev_page: 0, next_page: 0 }, PageMetadata::from_page(&image));
    assert_eq!(DbMetadata { first_free_page: 1, last_page: 1 }, DbMetadata::from_page(&image));
    assert_eq!(&[1, 0, 0, 0, 0, 0, 0, 0, 1, 0, 0, 0, 0, 0, 0, 0], &image[16..32]);
    assert!(image[32..].iter().all(|b| *b == 0));
    assert_eq!(
        PageMetadata { prev_page: 0, next_page: 0 },
        PageMetadata::from_page(&image[PAGE_SIZE as usize..])
    );
}

#[test]
fn headers_round_trip() {
    let meta = DbMetadata { first_free_page: 0x0102_0304_0506_0708, last_page: u64::MAX };
    let page = PageMetadata { prev_page: 3, next_page: 1 << 40 };
    let mut buf = vec![0u8; 40];
    page.write_to_buf(&mut buf, 0);
    meta.write_to_buf(&mut buf, 16);
    assert_eq!(&[8, 7, 6, 5, 4, 3, 2, 1], &buf[16..24]);
    assert_eq!(page, PageMetadata::from_page(&buf));
    assert_eq!(meta, DbMetadata::from_page(&buf));
    assert_eq!(&[0u8; 8], &buf[32..40]);
}

#[test]
fn test_value_from_bytes() {
    assert_eq!(Some(Value::from_bool(true)), Value::from_bytes(&[1], &ValueType::Bool));
    assert_eq!(Some(Value::from_bool(false)), Value::from_bytes(&[0], &ValueType::Bool));
    assert_eq!(Some(Value::from_int(0)), Value::from_bytes(&[0, 0, 0, 0, 0, 0, 0, 0], &ValueType::Int));
    assert_eq!(Some(Value::from_int(1)), Value::from_bytes(&[1, 0, 0, 0, 0, 0, 0, 0], &ValueType::Int));
    assert_eq!(Some(Value::from_int(-1)), Value::from_bytes(&[0xff, 0xff, 0xff, 0xff, 0xff, 0xff, 0xff, 0xff], &ValueType::Int));
    assert_eq!(Some(Value::from_uint(0)), Value::from_bytes(&[0, 0, 0, 0, 0, 0, 0, 0], &ValueType::Uint));
    assert_eq!(Some(Value::from_uint(1)), Value::from_bytes(&[1, 0, 0, 0, 0, 0, 0, 0], &ValueType::Uint));
    assert_eq!(Some(Value::from_uint(18446744073709551615)), Value::from_bytes(&[0xff, 0xff, 0xff, 0xff, 0xff, 0xff, 0xff, 0xff], &ValueType::Uint));
    assert_eq!(Some(Value::from_bits(0.12345f64.to_bits())), Value::from_bytes(&[0x7c, 0xf2, 0xb0, 0x50, 0x6b, 0x9a, 0xbf, 0x3f], &ValueType::Float));
}

#[test]
fn values_encode_little_endian() {
    let mut buf = vec![9u8; 10];
    Value::from_uint(0x0102).to_bytes(&mut buf, &ValueType::Uint);
    assert_eq!(vec![2, 1, 0, 0, 0, 0, 0, 0, 9, 9], buf);
    Value::from_bool(true).to_bytes(&mut buf, &ValueType::Bool);
    assert_eq!(1, buf[0]);
    Value::from_int(-2).to_bytes(&mut buf, &ValueType::Int);
    assert_eq!(vec![0xfe, 0xff, 0xff, 0xff, 0xff, 0xff, 0xff, 0xff, 9, 9], buf);
    assert_eq!(None, Value::from_bytes(&[0], &ValueType::Str(4)));
}
