use serde_json_helper::ByteMode;
use serde_json_helper::Config;

#[test]
fn default_is_array_without_prefix() {
    let c = Config::default();
    assert_eq!(c.byte_mode, ByteMode::Array);
    assert!(!c.hex_prefix_enabled);
    assert_eq!(c, Config::new());
}

#[test]
fn mutators_change_one_field_each() {
    let c = Config::default().set_bytes_hex();
    assert_eq!(c.byte_mode, ByteMode::Hex);
    assert!(!c.hex_prefix_enabled);

    let c = c.enable_hex_prefix();
    assert_eq!(c.byte_mode, ByteMode::Hex);
    assert!(c.hex_prefix_enabled);

    let c = c.set_bytes_base64();
    assert_eq!(c.byte_mode, ByteMode::Base64);
    assert!(c.hex_prefix_enabled);

    let c = c.disable_hex_prefix();
    assert_eq!(c.byte_mode, ByteMode::Base64);
    assert!(!c.hex_prefix_enabled);

    let c = c.set_bytes_array();
    assert_eq!(c.byte_mode, ByteMode::Array);
    assert!(!c.hex_prefix_enabled);
}

#[test]
fn prefix_option_is_accepted_under_every_mode() {
    let c = Config::default().set_bytes_base64().enable_hex_prefix();
    assert_eq!(c.byte_mode, ByteMode::Base64);
    assert!(c.hex_prefix_enabled);
}
