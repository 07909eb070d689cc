use amethyst_dynamic_prefab::derive::{byte_literals, type_uuid_literals, DeriveError};

#[test]
fn literals_of_a_hyphenated_uuid() {
    let literals = type_uuid_literals("98f18b7e-4eb9-429c-afbf-ee2f9f4cbc07").unwrap();
    assert_eq!(
        literals,
        vec![
            "0x98", "0xF1", "0x8B", "0x7E", "0x4E", "0xB9", "0x42", "0x9C", "0xAF", "0xBF", "0xEE",
            "0x2F", "0x9F", "0x4C", "0xBC", "0x7"
        ]
    );
}

#[test]
fn literals_of_a_uuid_without_hyphens() {
    let literals = type_uuid_literals("000102030405060708090A0B0C0D0E0F").unwrap();
    assert_eq!(
        literals,
        vec![
            "0x0", "0x1", "0x2", "0x3", "0x4", "0x5", "0x6", "0x7", "0x8", "0x9", "0xA", "0xB",
            "0xC", "0xD", "0xE", "0xF"
        ]
    );
}

#[test]
fn text_that_is_no_uuid_is_refused() {
    assert!(matches!(type_uuid_literals("not a uuid"), Err(DeriveError::InvalidUuid(_))));
    assert!(matches!(type_uuid_literals(""), Err(DeriveError::InvalidUuid(_))));
    assert!(matches!(
        type_uuid_literals("98f18b7e-4eb9-429c-afbf-ee2f9f4cbc0"),
        Err(DeriveError::InvalidUuid(_))
    ));
    match type_uuid_literals("98f18b7e-4eb9-429c-afbf-ee2f9f4cbcxy") {
        Err(DeriveError::InvalidUuid(error)) => {
            assert_eq!(error, uuid::Uuid::parse_str("98f18b7e-4eb9-429c-afbf-ee2f9f4cbcxy").unwrap_err())
        }
        Ok(_) => panic!("letters beyond f are no hexadecimal digits"),
    }
}

#[test]
fn byte_literals_have_no_leading_zero_and_upper_case_digits() {
    let mut bytes = [0u8; 16];
    bytes[0] = 0x00;
    bytes[1] = 0x0f;
    bytes[2] = 0x10;
    bytes[3] = 0xa0;
    bytes[4] = 0xff;
    bytes[5] = 0x1b;
    bytes[6] = 9;
    bytes[7] = 10;
    let literals = byte_literals(&bytes);
    assert_eq!(literals.len(), 16);
    assert_eq!(literals[..8], ["0x0", "0xF", "0x10", "0xA0", "0xFF", "0x1B", "0x9", "0xA"]);
    assert!(literals[8..].iter().all(|literal| literal == "0x0"));
}

#[test]
fn every_byte_is_written_as_its_own_literal() {
    for high in 0..16u8 {
        let mut bytes = [0u8; 16];
        for low in 0..16u8 {
            bytes[low as usize] = high * 16 + low;
        }
        let literals = byte_literals(&bytes);
        for low in 0..16usize {
            let text = &literals[low];
            assert!(text.starts_with("0x"));
            assert_eq!(u8::from_str_radix(&text[2..], 16).unwrap(), bytes[low]);
            assert_eq!(text.to_uppercase().replace("0X", "0x"), *text);
            assert_eq!(text.len(), if bytes[low] < 16 { 3 } else { 4 });
        }
    }
}
