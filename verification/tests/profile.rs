use crosshair_code::profile::CrosshairProfile;
use crosshair_code::settings::CrosshairSettings;
use crosshair_code::share_code::{decode_profile, encode_profile, restore_profile};

const ONE: &str = "CSGO-AAAAA-AAAAA-AAAAA-AAAAA-AAAAB";

#[test]
fn new_profile_holds_no_code() {
    let profile = CrosshairProfile::new(CrosshairSettings::default(), String::from("first"));
    assert_eq!(profile.name(), "first");
    assert_eq!(profile.settings(), CrosshairSettings::default());
    assert_eq!(profile.original_code(), None);
}

#[test]
fn default_profile_is_named_default() {
    let profile = CrosshairProfile::default();
    assert_eq!(profile.name(), "Default");
    assert_eq!(profile.settings(), CrosshairSettings::default());
    assert_eq!(profile.original_code(), None);
}

#[test]
fn decoded_profile_holds_its_code() {
    let profile = decode_profile(ONE).unwrap().profile;
    assert_eq!(profile.original_code(), Some(ONE));
    assert_eq!(profile.name(), "Imported_AAAAA");
}

#[test]
fn renaming_keeps_the_code() {
    let mut profile = decode_profile(ONE).unwrap().profile;
    let settings = profile.settings();
    profile.set_name(String::from("renamed"));
    assert_eq!(profile.name(), "renamed");
    assert_eq!(profile.original_code(), Some(ONE));
    assert_eq!(profile.settings(), settings);
    assert_eq!(encode_profile(&profile), ONE);
}

#[test]
fn changing_settings_drops_the_code() {
    let mut profile = decode_profile(ONE).unwrap().profile;
    let mut settings = profile.settings();
    settings.red = 200;
    profile.set_settings(settings);
    assert_eq!(profile.original_code(), None);
    assert_eq!(profile.name(), "Imported_AAAAA");
    let code = encode_profile(&profile);
    assert_ne!(code, ONE);
    assert_eq!(decode_profile(&code).unwrap().profile.settings().red, 200);
}

#[test]
fn clone_holds_the_same() {
    let profile = decode_profile(ONE).unwrap().profile;
    let copy = profile.clone();
    assert_eq!(copy.name(), profile.name());
    assert_eq!(copy.settings(), profile.settings());
    assert_eq!(copy.original_code(), profile.original_code());
}

#[test]
fn restored_profile_keeps_a_code_that_carries_its_settings() {
    let settings = decode_profile(ONE).unwrap().profile.settings();
    let profile = restore_profile(settings, String::from("kept"), Some(ONE));
    assert_eq!(profile.original_code(), Some(ONE));
    assert_eq!(profile.name(), "kept");
    assert_eq!(profile.settings(), settings);
    assert_eq!(encode_profile(&profile), ONE);
}

#[test]
fn restored_profile_drops_a_stale_code() {
    let mut settings = decode_profile(ONE).unwrap().profile.settings();
    settings.thickness = 9;
    let profile = restore_profile(settings, String::from("edited"), Some(ONE));
    assert_eq!(profile.original_code(), None);
    assert_eq!(profile.settings(), settings);
    assert_ne!(encode_profile(&profile), ONE);
}

#[test]
fn restored_profile_drops_what_is_no_code() {
    let settings = CrosshairSettings::default();
    let profile = restore_profile(settings, String::from("odd"), Some("CSGO-nonsense"));
    assert_eq!(profile.original_code(), None);
    let profile = restore_profile(settings, String::from("none"), None);
    assert_eq!(profile.original_code(), None);
    assert_eq!(profile.settings(), settings);
}
