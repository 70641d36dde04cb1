use admin_plugins::admin_config::{reload_refusal, reload_reply};
use admin_plugins::admin_config::{normalize_default_flags, validate, MenuSettings};
use admin_plugins::esp_config::{
    canonical_flags, config_from_raw, default_admin_flag_all, default_admin_flag_death,
    default_ct_color, default_t_color, parse_color, Color, RawConfig,
};

#[test]
fn fallback_flags_are_normalized_and_validated() {
    assert_eq!(normalize_default_flags(" gbg ").unwrap(), "bg");
    assert_eq!(normalize_default_flags("zgba").unwrap(), "abgz");
    assert!(normalize_default_flags("   ").is_err());
    assert!(normalize_default_flags("b,g").is_err());
    assert!(normalize_default_flags("u").is_err());
    assert!(normalize_default_flags("B").is_err());
}

#[test]
fn parses_colors() {
    assert_eq!(
        parse_color("#4968F7", "ct_color").unwrap(),
        Color {
            red: 73,
            green: 104,
            blue: 247,
        }
    );
}

#[test]
fn rejects_non_sourcemod_flags() {
    assert!(canonical_flags("by", "flag").is_err());
    assert_eq!(canonical_flags("zbz", "flag").unwrap(), "bz");
}

#[test]
fn default_flag_errors_name_the_problem() {
    assert_eq!(
        normalize_default_flags("  ").unwrap_err(),
        "admin.default_flags cannot be empty because RustAdmin treats an empty mask as public access"
    );
    assert_eq!(
        normalize_default_flags(&"a".repeat(129)).unwrap_err(),
        "admin.default_flags cannot exceed 128 characters"
    );
    assert_eq!(normalize_default_flags(&"a".repeat(128)).unwrap(), "a");
    assert_eq!(
        normalize_default_flags("gz!").unwrap_err(),
        "admin.default_flags must be a compact SourceMod-style flag string using a-t and z, for example 'g' or 'bg'"
    );
}

#[test]
fn normalized_flags_normalize_to_themselves() {
    let once = normalize_default_flags(" tzaba ").unwrap();
    assert_eq!(once, "abtz");
    assert_eq!(normalize_default_flags(&once).unwrap(), once);
}

fn settings() -> MenuSettings {
    MenuSettings::default_settings()
}

#[test]
fn default_settings_pass_validation() {
    let s = settings();
    assert_eq!(s.permission, "mapchooser.admin.maps");
    assert_eq!(s.default_flags, "g");
    assert_eq!(s.menu_order, 50);
    assert_eq!(s.vote_warning_seconds, 5);
    assert_eq!(s.max_vote_maps, 5);
    assert_eq!(s.items_per_page, 5);
    let v = validate(s, true, true).unwrap();
    assert_eq!(v.permission, "mapchooser.admin.maps");
    assert_eq!(v.default_flags, "g");
}

#[test]
fn validation_trims_and_normalizes() {
    let mut s = settings();
    s.permission = "  admin.maps \t".to_string();
    s.default_flags = " zb ".to_string();
    let v = validate(s, true, true).unwrap();
    assert_eq!(v.permission, "admin.maps");
    assert_eq!(v.default_flags, "bz");
}

#[test]
fn validation_reports_each_setting() {
    let mut s = settings();
    s.default_flags = "x".to_string();
    assert!(validate(s, true, true).unwrap_err().starts_with("admin.default_flags"));

    let mut s = settings();
    s.permission = "   ".to_string();
    assert_eq!(validate(s, true, true).unwrap_err(), "admin.permission cannot be empty");

    let mut s = settings();
    s.permission = "p".repeat(129);
    assert_eq!(validate(s, true, true).unwrap_err(), "admin.permission cannot exceed 128 characters");

    let mut s = settings();
    s.menu_order = 10001;
    assert_eq!(validate(s, true, true).unwrap_err(), "admin.menu_order must be within -10000..=10000");

    let mut s = settings();
    s.menu_order = -10000;
    assert!(validate(s, true, true).is_ok());

    assert_eq!(
        validate(settings(), false, true).unwrap_err(),
        "admin.vote_duration_seconds must be within 5..=120"
    );

    let mut s = settings();
    s.vote_warning_seconds = 31;
    assert_eq!(validate(s, true, true).unwrap_err(), "admin.vote_warning_seconds must be within 0..=30");

    let mut s = settings();
    s.max_vote_maps = 0;
    assert_eq!(validate(s, true, true).unwrap_err(), "admin.max_vote_maps must be within 1..=5");

    let mut s = settings();
    s.items_per_page = 6;
    assert_eq!(validate(s, true, true).unwrap_err(), "admin.items_per_page must be within 1..=5");

    assert_eq!(
        validate(settings(), true, false).unwrap_err(),
        "admin.change_delay_seconds must be within 0..=30"
    );
}

#[test]
fn canonical_flags_lowercases_and_reports() {
    assert_eq!(canonical_flags("  ZB ", "admin_flag_all").unwrap(), "bz");
    assert_eq!(canonical_flags(" ", "admin_flag_all").unwrap_err(), "admin_flag_all cannot be empty");
    assert_eq!(
        canonical_flags("by", "flag").unwrap_err(),
        "flag contains unsupported SourceMod flag 'y'; allowed flags are a-t and z"
    );
    let once = canonical_flags("tzz", "flag").unwrap();
    assert_eq!(canonical_flags(&once, "flag").unwrap(), once);
}

#[test]
fn colors_accept_missing_hash_and_spaces() {
    assert_eq!(
        parse_color("  e2ad36 ", "t_color").unwrap(),
        Color { red: 226, green: 173, blue: 54 }
    );
    assert_eq!(
        parse_color("#zz0000", "t_color").unwrap_err(),
        "t_color must use #RRGGBB format, got '#zz0000'"
    );
    assert_eq!(
        parse_color(" #12345 ", "ct_color").unwrap_err(),
        "ct_color must use #RRGGBB format, got '#12345'"
    );
}

#[test]
fn color_entity_value_is_decimal() {
    let c = Color { red: 73, green: 104, blue: 247 };
    assert_eq!(c.entity_value(), "73 104 247 255");
    let black = Color { red: 0, green: 0, blue: 0 };
    assert_eq!(black.entity_value(), "0 0 0 255");
}

#[test]
fn default_esp_config_is_valid() {
    assert_eq!(default_admin_flag_all(), "z");
    assert_eq!(default_admin_flag_death(), "b");
    assert_eq!(default_ct_color(), "#4968F7");
    assert_eq!(default_t_color(), "#E2AD36");
    let raw = RawConfig::default_config();
    let c = config_from_raw(&raw).unwrap();
    assert_eq!(c.admin_flag_all, "z");
    assert_eq!(c.admin_flag_death, "b");
    assert_eq!(c.ct_color, Color { red: 73, green: 104, blue: 247 });
    assert_eq!(c.t_color, Color { red: 226, green: 173, blue: 54 });
}

#[test]
fn esp_config_names_the_first_bad_setting() {
    let mut raw = RawConfig::default_config();
    raw.admin_flag_death = "".to_string();
    raw.t_color = "red".to_string();
    assert_eq!(config_from_raw(&raw).unwrap_err(), "admin_flag_death cannot be empty");
    let mut raw = RawConfig::default_config();
    raw.t_color = "red".to_string();
    assert_eq!(
        config_from_raw(&raw).unwrap_err(),
        "t_color must use #RRGGBB format, got 'red'"
    );
}

#[test]
fn reload_command_answers() {
    assert_eq!(reload_refusal(0), Some("Server console/RCON only"));
    assert_eq!(reload_refusal(-1), None);
    assert_eq!(reload_reply(&Ok(())), "MapChooserAdmin configuration reloaded");
    assert_eq!(
        reload_reply(&Err("cannot parse".to_string())),
        "MapChooserAdmin reload failed: cannot parse"
    );
}

#[test]
fn hash_prefix_is_optional() {
    assert_eq!(parse_color("4968F7", "ct_color"), parse_color("#4968F7", "ct_color"));
    assert_eq!(parse_color("#000000", "ct_color").unwrap(), Color { red: 0, green: 0, blue: 0 });
    assert_eq!(parse_color("ffffff", "ct_color").unwrap(), Color { red: 255, green: 255, blue: 255 });
    assert!(parse_color("##4968F7", "ct_color").is_err());
}
