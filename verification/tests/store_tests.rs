use kilit::cipher::{decrypt_data, encrypt_data};
use kilit::codec::Record;
use kilit::errors::StoreError;
use kilit::keys::generate_key;
use kilit::store::{create, list, parse_filter, scan, split_lines, verify, Filter, FilterField};

fn record(product: &str, name: &str, secret: &str) -> Record {
    Record {
        product: product.to_string(),
        name: name.to_string(),
        secret: secret.to_string(),
    }
}

fn fresh_store(passphrase: &str) -> Vec<String> {
    create(passphrase).expect("create must succeed for a non-empty passphrase")
}

#[test]
fn round_trip_simple() {
    let token = encrypt_data("hello world".as_bytes(), "pw").unwrap();
    let back = decrypt_data(&token, "pw").unwrap();
    assert_eq!(back, "hello world");
}

#[test]
fn round_trip_all_printable() {
    let text = "This.!!!{}{}{()()xx is the data to encrypt.";
    let token = encrypt_data(text.as_bytes(), "my_secret_password").unwrap();
    assert_eq!(decrypt_data(&token, "my_secret_password").unwrap(), text);
}

#[test]
fn round_trip_unicode_text() {
    let text = "pärla : ☃ works";
    let token = encrypt_data(text.as_bytes(), "löylyt").unwrap();
    assert_eq!(decrypt_data(&token, "löylyt").unwrap(), text);
}

#[test]
fn round_trip_empty_plaintext() {
    let token = encrypt_data("".as_bytes(), "pw").unwrap();
    assert_eq!(decrypt_data(&token, "pw").unwrap(), "");
}

#[test]
fn two_seals_of_one_text_differ_but_open_alike() {
    let a = encrypt_data("same".as_bytes(), "pw").unwrap();
    let b = encrypt_data("same".as_bytes(), "pw").unwrap();
    // fresh random initialization vectors make the tokens differ
    assert_ne!(a, b);
    assert_eq!(decrypt_data(&a, "pw").unwrap(), "same");
    assert_eq!(decrypt_data(&b, "pw").unwrap(), "same");
}

#[test]
fn key_is_deterministic_and_cyclic() {
    let k1 = generate_key("abc", 16).unwrap();
    let k2 = generate_key("abc", 16).unwrap();
    assert_eq!(k1, k2);
    let expected: Vec<u8> = "abcabcabcabcabca".as_bytes().to_vec();
    assert_eq!(k1, expected);
    assert_eq!(generate_key("abc", 4).unwrap(), "abca".as_bytes().to_vec());
}

#[test]
fn keys_differ_for_different_patterns() {
    let ka = generate_key("a", 16).unwrap();
    let kb = generate_key("b", 16).unwrap();
    assert_ne!(ka, kb);
}

#[test]
fn cyclic_alias_passphrases_collide() {
    // "ab" and "abab" repeat to the same 16 bytes: the scheme's known weakness
    let k1 = generate_key("ab", 16).unwrap();
    let k2 = generate_key("abab", 16).unwrap();
    assert_eq!(k1, k2);
}

#[test]
fn empty_passphrase_is_rejected_everywhere() {
    assert_eq!(generate_key("", 16), Err(StoreError::KeyDerivationError));
    assert_eq!(
        encrypt_data("x".as_bytes(), ""),
        Err(StoreError::KeyDerivationError)
    );
    assert!(matches!(
        decrypt_data("whatever", ""),
        Err(StoreError::KeyDerivationError)
    ));
    assert!(matches!(create(""), Err(StoreError::KeyDerivationError)));
    let lines = fresh_store("pw");
    assert!(matches!(scan("", &lines), Err(StoreError::KeyDerivationError)));
    assert!(matches!(verify("", &lines), Err(StoreError::KeyDerivationError)));
    let mut lines2 = lines.clone();
    assert_eq!(
        kilit::store::add(&mut lines2, "", &record("p", "n", "s")),
        Err(StoreError::KeyDerivationError)
    );
    assert_eq!(lines2, lines);
}

#[test]
fn sentinel_gate_accepts_creator_and_refuses_others() {
    let lines = fresh_store("hunter2");
    assert_eq!(verify("hunter2", &lines), Ok(true));
    assert_eq!(verify("wrong", &lines), Ok(false));
    assert_eq!(verify("hunter3", &lines), Ok(false));
}

#[test]
fn passphrases_agreeing_on_sixteen_bytes_unlock_alike() {
    // only the first 16 key bytes matter, so passphrases longer than the
    // key that differ beyond it derive the same key: a known weakness
    let lines = fresh_store("right horse battery");
    assert_eq!(verify("right horse batterz", &lines), Ok(true));
}

#[test]
fn verify_on_empty_store_is_false() {
    let lines: Vec<String> = Vec::new();
    assert_eq!(verify("pw", &lines), Ok(false));
}

#[test]
fn add_then_list_keeps_insertion_order() {
    let mut lines = fresh_store("pw");
    kilit::store::add(&mut lines, "pw", &record("mail", "alice", "s1")).unwrap();
    kilit::store::add(&mut lines, "pw", &record("bank", "bob", "s2")).unwrap();
    let got = list("pw", &lines, &None).unwrap();
    assert_eq!(got.len(), 2);
    let r1 = got[0].as_ref().unwrap();
    let r2 = got[1].as_ref().unwrap();
    assert_eq!(r1.product, "mail");
    assert_eq!(r1.name, "alice");
    assert_eq!(r1.secret, "s1");
    assert_eq!(r2.product, "bank");
    assert_eq!(r2.name, "bob");
    assert_eq!(r2.secret, "s2");
}

#[test]
fn fresh_store_lists_nothing() {
    let lines = fresh_store("pw");
    assert_eq!(lines.len(), 1);
    assert_eq!(list("pw", &lines, &None).unwrap().len(), 0);
}

#[test]
fn filter_selects_exactly_the_matching_subset() {
    let mut lines = fresh_store("pw");
    kilit::store::add(&mut lines, "pw", &record("X", "a", "1")).unwrap();
    kilit::store::add(&mut lines, "pw", &record("Y", "b", "2")).unwrap();
    kilit::store::add(&mut lines, "pw", &record("X", "c", "3")).unwrap();
    let f = Some(Filter {
        field: FilterField::Product,
        value: "X".to_string(),
    });
    let got = list("pw", &lines, &f).unwrap();
    assert_eq!(got.len(), 2);
    assert_eq!(got[0].as_ref().unwrap().name, "a");
    assert_eq!(got[1].as_ref().unwrap().name, "c");

    let g = Some(Filter {
        field: FilterField::Name,
        value: "b".to_string(),
    });
    let got_name = list("pw", &lines, &g).unwrap();
    assert_eq!(got_name.len(), 1);
    assert_eq!(got_name[0].as_ref().unwrap().product, "Y");

    let none = Some(Filter {
        field: FilterField::Product,
        value: "Z".to_string(),
    });
    assert_eq!(list("pw", &lines, &none).unwrap().len(), 0);
}

#[test]
fn parse_filter_accepts_field_value_pairs_only() {
    let no_args: Vec<String> = Vec::new();
    assert!(matches!(parse_filter(&no_args), Ok(None)));
    let good = vec!["product".to_string(), "X".to_string()];
    match parse_filter(&good) {
        Ok(Some(f)) => {
            assert_eq!(f.field, FilterField::Product);
            assert_eq!(f.value, "X");
        }
        other => panic!("expected a product filter, got {other:?}"),
    }
    let by_name = vec!["name".to_string(), "bgc".to_string()];
    match parse_filter(&by_name) {
        Ok(Some(f)) => assert_eq!(f.field, FilterField::Name),
        other => panic!("expected a name filter, got {other:?}"),
    }
    let missing_value = vec!["name".to_string()];
    assert_eq!(parse_filter(&missing_value), Err(StoreError::InvalidFilter));
    let extra = vec!["name".to_string(), "a".to_string(), "b".to_string()];
    assert_eq!(parse_filter(&extra), Err(StoreError::InvalidFilter));
    let bad_field = vec!["user".to_string(), "a".to_string()];
    assert_eq!(parse_filter(&bad_field), Err(StoreError::InvalidFilter));
}

#[test]
fn edit_replaces_targeted_fields_only() {
    let mut lines = fresh_store("pw");
    kilit::store::add(&mut lines, "pw", &record("prod", "alice", "pw1")).unwrap();
    let r = kilit::store::edit(
        "pw",
        &mut lines,
        0,
        &None,
        &Some("pw2".to_string()),
    );
    assert_eq!(r, Ok(()));
    let got = list("pw", &lines, &None).unwrap();
    assert_eq!(got.len(), 1);
    let rec = got[0].as_ref().unwrap();
    assert_eq!(rec.product, "prod");
    assert_eq!(rec.name, "alice");
    assert_eq!(rec.secret, "pw2");
}

#[test]
fn edit_second_of_three_keeps_the_others() {
    let mut lines = fresh_store("pw");
    kilit::store::add(&mut lines, "pw", &record("p1", "n1", "s1")).unwrap();
    kilit::store::add(&mut lines, "pw", &record("p2", "n2", "s2")).unwrap();
    kilit::store::add(&mut lines, "pw", &record("p3", "n3", "s3")).unwrap();
    kilit::store::edit("pw", &mut lines, 1, &Some("renamed".to_string()), &None).unwrap();
    let got = list("pw", &lines, &None).unwrap();
    assert_eq!(got.len(), 3);
    // the stale line is removed, the replacement is appended at the end
    assert_eq!(got[0].as_ref().unwrap().name, "n1");
    assert_eq!(got[1].as_ref().unwrap().name, "n3");
    assert_eq!(got[2].as_ref().unwrap().name, "renamed");
    assert_eq!(got[2].as_ref().unwrap().secret, "s2");
}

#[test]
fn edit_out_of_range_changes_nothing() {
    let mut lines = fresh_store("pw");
    kilit::store::add(&mut lines, "pw", &record("p1", "n1", "s1")).unwrap();
    kilit::store::add(&mut lines, "pw", &record("p2", "n2", "s2")).unwrap();
    let before = lines.clone();
    let r = kilit::store::edit("pw", &mut lines, 5, &None, &Some("x".to_string()));
    assert_eq!(r, Err(StoreError::IndexOutOfRange));
    assert_eq!(lines, before);
}

#[test]
fn malformed_record_reports_record_format_error() {
    let mut lines = fresh_store("pw");
    // a token whose plaintext splits into two segments, not three
    let stray = encrypt_data("only : two".as_bytes(), "pw").unwrap();
    lines.push(stray);
    let got = scan("pw", &lines).unwrap();
    assert_eq!(got.len(), 1);
    assert_eq!(*got[0].as_ref().unwrap_err(), StoreError::RecordFormatError);
}

#[test]
fn sentinel_text_is_never_a_record() {
    let mut lines = fresh_store("pw");
    let stray = encrypt_data("OK".as_bytes(), "pw").unwrap();
    lines.push(stray);
    let got = scan("pw", &lines).unwrap();
    assert_eq!(*got[0].as_ref().unwrap_err(), StoreError::RecordFormatError);
}

#[test]
fn invalid_text_token_is_malformed() {
    assert_eq!(
        decrypt_data("this is not radix-64!!", "pw"),
        Err(StoreError::MalformedToken)
    );
}

#[test]
fn undersized_payload_is_malformed() {
    let short = base64::encode("tiny");
    assert_eq!(decrypt_data(&short, "pw"), Err(StoreError::MalformedToken));
}

#[test]
fn ragged_ciphertext_is_a_decryption_error() {
    // 17 decoded bytes: a full initialization vector and one stray byte
    let ragged = base64::encode([0u8; 17]);
    assert_eq!(decrypt_data(&ragged, "pw"), Err(StoreError::DecryptionError));
}

#[test]
fn non_text_plaintext_is_a_text_decoding_error() {
    let token = encrypt_data(&[0xff, 0xfe, 0x00, 0x41], "pw").unwrap();
    assert_eq!(decrypt_data(&token, "pw"), Err(StoreError::TextDecodingError));
}

#[test]
fn scan_reports_each_bad_line_and_keeps_the_rest() {
    let mut lines = fresh_store("pw");
    kilit::store::add(&mut lines, "pw", &record("p1", "n1", "s1")).unwrap();
    lines.push("garbage".to_string());
    kilit::store::add(&mut lines, "pw", &record("p2", "n2", "s2")).unwrap();
    let got = scan("pw", &lines).unwrap();
    assert_eq!(got.len(), 3);
    assert!(got[0].is_ok());
    assert_eq!(*got[1].as_ref().unwrap_err(), StoreError::MalformedToken);
    assert_eq!(got[2].as_ref().unwrap().product, "p2");
}

#[test]
fn split_lines_drops_empty_segments() {
    let content = "first\n\nsecond\nthird\n";
    let lines = split_lines(content);
    assert_eq!(lines, vec!["first", "second", "third"]);
    assert_eq!(split_lines(""), Vec::<String>::new());
    assert_eq!(split_lines("\n\n"), Vec::<String>::new());
    assert_eq!(split_lines("lone"), vec!["lone"]);
}

#[test]
fn store_round_trips_through_file_text() {
    let mut lines = fresh_store("pw");
    kilit::store::add(&mut lines, "pw", &record("mail", "alice", "s1")).unwrap();
    let content = lines.join("\n") + "\n";
    let reloaded = split_lines(&content);
    assert_eq!(reloaded, lines);
    assert_eq!(verify("pw", &reloaded), Ok(true));
    let got = list("pw", &reloaded, &None).unwrap();
    assert_eq!(got[0].as_ref().unwrap().name, "alice");
}

#[test]
fn error_messages_name_the_failure() {
    assert!(StoreError::KeyDerivationError.message().contains("passphrase"));
    assert!(StoreError::IndexOutOfRange.message().contains("index"));
}

#[test]
fn token_is_single_line_radix64() {
    let token = encrypt_data("payload".as_bytes(), "pw").unwrap();
    assert!(!token.contains('\n'));
    // the wrappers really encode: 16 bytes of initialization vector, then
    // the 7-byte payload padded to one 16-byte block
    let decoded = base64::decode(&token).unwrap();
    assert_eq!(decoded.len(), 32);
}
