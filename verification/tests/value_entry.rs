//! Typed values, addresses and hotkeys.
use egui::Key;
use nemclass_ui::address::{
    parse_addr_str, parse_addr_text, parse_address, parse_dissect_len, parse_hex_addr, parse_hex_key,
    parse_hotkey, parse_uint_text, Hotkey,
};
use nemclass_ui::scalar::{is_editable, RealReading};

/// What the trimmed text means as a floating-point number.
fn reading(text: &str) -> RealReading {
    let t = text.trim();
    RealReading {
        single: t.parse::<f32>().map(f32::to_bits).map_err(|e| e.to_string()),
        double: t.parse::<f64>().map(f64::to_bits).map_err(|e| e.to_string()),
    }
}

fn encode_scalar(type_tag: &str, text: &str) -> Result<Vec<u8>, String> {
    nemclass_ui::scalar::encode_scalar(type_tag, text, &reading(text))
}

#[test]
fn a_hex_prefixed_value_is_written_as_hex() {
    assert_eq!(encode_scalar("Int32", "0x10").unwrap(), 16i32.to_le_bytes());
    assert_eq!(encode_scalar("Int32", "0X10").unwrap(), 16i32.to_le_bytes());
    assert_eq!(encode_scalar("UInt64", "0xFF").unwrap(), 255u64.to_le_bytes());
    // A bare decimal stays decimal.
    assert_eq!(encode_scalar("Int32", "10").unwrap(), 10i32.to_le_bytes());
    assert_eq!(encode_scalar("Int32", " 10 ").unwrap(), 10i32.to_le_bytes());
}

#[test]
fn a_negative_hex_value_parses() {
    assert_eq!(encode_scalar("Int32", "-0x10").unwrap(), (-16i32).to_le_bytes());
    assert_eq!(encode_scalar("Int32", "-16").unwrap(), (-16i32).to_le_bytes());
}

#[test]
fn a_repeated_prefix_is_rejected_not_silently_accepted() {
    assert!(encode_scalar("Int32", "0x0x10").is_err());
    assert!(encode_scalar("Int32", "banana").is_err());
}

#[test]
fn hex_typed_fields_accept_the_prefix_as_well_as_bare_digits() {
    assert_eq!(encode_scalar("Hex32", "ff").unwrap(), 255u32.to_le_bytes());
    assert_eq!(encode_scalar("Hex32", "0xff").unwrap(), 255u32.to_le_bytes());
    assert_eq!(encode_scalar("Pointer", "7fff0000").unwrap(), 0x7fff_0000u64.to_le_bytes());
}

#[test]
fn floats_and_bools_still_parse() {
    assert_eq!(encode_scalar("Float", "1.5").unwrap(), 1.5f32.to_le_bytes());
    assert_eq!(encode_scalar("Double", "-2.25").unwrap(), (-2.25f64).to_le_bytes());
    assert_eq!(encode_scalar("Bool", "true").unwrap(), vec![1u8]);
    assert_eq!(encode_scalar("Bool", "0").unwrap(), vec![0u8]);
    assert!(encode_scalar("VTable", "1").is_err());
}

#[test]
fn refused_values_say_why() {
    let err = |tag: &str, text: &str| encode_scalar(tag, text).unwrap_err();
    assert_eq!(err("Int8", ""), "cannot parse integer from empty string");
    assert_eq!(err("Int8", "12x"), "invalid digit found in string");
    assert_eq!(err("Int8", "128"), "number too large to fit in target type");
    assert_eq!(err("Int8", "-129"), "number too small to fit in target type");
    assert_eq!(err("UInt8", "-0x1"), "-0x1 does not fit in u8");
    assert_eq!(err("Int8", "-0x-80"), "-0x-80 does not fit in i8");
    assert_eq!(err("Float", "x"), "invalid float literal");
    assert_eq!(err("VTable", "1"), "'VTable' is not directly writable");
    assert_eq!(encode_scalar("Int8", "-128").unwrap(), vec![0x80]);
    assert_eq!(encode_scalar("Int16", "-2").unwrap(), (-2i16).to_le_bytes());
    assert_eq!(encode_scalar("Int64", "-9223372036854775808").unwrap(), i64::MIN.to_le_bytes());
    assert_eq!(encode_scalar("UInt16", "+7").unwrap(), 7u16.to_le_bytes());
    assert_eq!(encode_scalar("UInt8", "-0x0").unwrap(), vec![0]);
    assert_eq!(encode_scalar("Hex8", "-ff").unwrap(), vec![0xff]);
    assert_eq!(encode_scalar("Bool", " TRUE ").unwrap(), vec![1]);
}

#[test]
fn integers_are_parsed_as_std_parses_them() {
    for text in ["", "+", "-", "+1", "-1", "0", "127", "128", "-128", "-129", "1x", "x1", "٣", "99999999999999999999", "999z"] {
        let ours = encode_scalar("Int8", text).map_err(|e| e);
        let std = text.trim().parse::<i8>().map(|v| v.to_le_bytes().to_vec()).map_err(|e| e.to_string());
        assert_eq!(ours, std, "{text:?}");
        let ours = encode_scalar("UInt64", text);
        let std = text.trim().parse::<u64>().map(|v| v.to_le_bytes().to_vec()).map_err(|e| e.to_string());
        assert_eq!(ours, std, "{text:?}");
        let ours = encode_scalar("Int64", text);
        let std = text.trim().parse::<i64>().map(|v| v.to_le_bytes().to_vec()).map_err(|e| e.to_string());
        assert_eq!(ours, std, "{text:?}");
    }
}

#[test]
fn only_scalars_are_editable() {
    for tag in ["Int8", "UInt64", "Hex16", "Float", "Double", "Bool", "Pointer"] {
        assert!(is_editable(tag), "{tag}");
    }
    for tag in ["VTable", "ClassInstance", "Vector3", "int8", ""] {
        assert!(!is_editable(tag), "{tag}");
    }
}

#[test]
fn addresses_are_hex_everywhere() {
    assert_eq!(parse_address("7fff0000"), Ok(0x7fff_0000));
    assert_eq!(parse_address("0x7fff0000"), Ok(0x7fff_0000));
    assert_eq!(parse_address("0X7FFF0000"), Ok(0x7fff_0000));
    assert_eq!(parse_address("  7fff_0000  "), Ok(0x7fff_0000));
    assert_eq!(parse_address("140000000"), Ok(0x1_4000_0000));
    assert!(parse_address("").is_err());
    assert!(parse_address("nonsense").is_err());
}

#[test]
fn refused_addresses_say_why() {
    assert_eq!(parse_address("  ").unwrap_err(), "Enter an address");
    assert_eq!(
        parse_address(" zz ").unwrap_err(),
        "Invalid address: 'zz' (expected hex, e.g. 7fff0000)"
    );
    assert_eq!(parse_hex_addr("0x"), None);
    assert_eq!(parse_hex_addr("__"), None);
    assert_eq!(parse_hex_addr("0x0x10"), None);
    assert_eq!(parse_hex_addr("1_0000_0000_0000_0000"), None);
    assert_eq!(parse_hex_addr("\u{2003}ff\u{a0}"), Some(0xff));
    assert_eq!(parse_addr_text("0x4000"), Some(0x4000));
}

#[test]
fn prefixed_numbers() {
    assert_eq!(parse_uint_text(" 0x10 "), Ok(16));
    assert_eq!(parse_uint_text("10"), Ok(10));
    assert_eq!(parse_uint_text("-1").unwrap_err(), "invalid digit found in string");
    assert_eq!(parse_uint_text("18446744073709551616").unwrap_err(), "number too large to fit in target type");
    assert_eq!(parse_addr_str("0xff"), Ok(255));
    assert_eq!(parse_addr_str("255"), Ok(255));
    assert_eq!(parse_addr_str(" 0x10 "), Ok(16));
    assert_eq!(parse_addr_str("0XfF"), Ok(255));
    assert_eq!(parse_addr_str("ff"), Err("bad address string: \"ff\"".to_string()));
    assert_eq!(parse_addr_str(" a\"b"), Err("bad address string: \" a\\\"b\"".to_string()));
    for bad in ["", "0x", "-1"] {
        assert_eq!(parse_addr_str(bad), Err(format!("bad address string: {bad:?}")));
    }
    assert_eq!(parse_dissect_len(""), 256);
    assert_eq!(parse_dissect_len("0x40"), 64);
    assert_eq!(parse_dissect_len("40"), 40);
    assert_eq!(parse_dissect_len("many"), 256);
}

#[test]
fn auth_keys() {
    assert_eq!(parse_hex_key("deadbeef"), vec![0xde, 0xad, 0xbe, 0xef]);
    assert_eq!(parse_hex_key("DE AD BE EF"), vec![0xde, 0xad, 0xbe, 0xef]);
    assert_eq!(parse_hex_key("abc"), vec![0x0a, 0xbc]);
    assert_eq!(parse_hex_key("  "), Vec::<u8>::new());
}

/// The hotkey as modifiers and egui's key.
fn combo(text: &str) -> Option<(bool, bool, bool, egui::Key)> {
    parse_hotkey(text).map(|h: Hotkey| {
        let key = egui::Key::from_name(&h.key.unwrap()).unwrap();
        (h.ctrl, h.shift, h.alt, key)
    })
}

#[test]
fn parse_hotkey_combos() {
    assert_eq!(combo("Ctrl+Shift+H"), Some((true, true, false, Key::H)));
    assert_eq!(combo("F6"), Some((false, false, false, Key::F6)));
    assert_eq!(combo("Alt+K"), Some((false, false, true, Key::K)));
    // Modifiers in any case, white space tolerated.
    assert_eq!(combo(" control + k "), Some((true, false, false, Key::K)));
    // Bad input.
    assert_eq!(combo(""), None);
    assert_eq!(combo("Ctrl+"), None);
    assert_eq!(combo("Ctrl+Nonsense"), None);
    assert_eq!(combo("A+B"), None);
}

#[test]
fn hotkey_keys_go_by_eguis_own_name() {
    assert_eq!(parse_hotkey("ArrowDown").unwrap().key.unwrap(), "Down");
    assert_eq!(parse_hotkey("OPTION+Esc").unwrap().key.unwrap(), "Escape");
    assert!(parse_hotkey("Ctrl+Shift").is_none());
}

#[test]
fn an_address_takes_no_sign() {
    assert_eq!(parse_hex_addr("+10"), None);
    assert_eq!(parse_hex_addr("0x+10"), None);
    assert_eq!(parse_hex_addr("-10"), None);
    assert_eq!(parse_hex_addr("_+1"), None);
    assert_eq!(parse_hex_addr("_"), None);
    assert_eq!(parse_hex_addr("0x"), None);
    assert_eq!(parse_hex_addr("0x1_0"), Some(0x10));
    assert_eq!(parse_addr_text("+10"), None);
    assert_eq!(
        parse_address("+10"),
        Err("Invalid address: '+10' (expected hex, e.g. 7fff0000)".to_string())
    );
}
