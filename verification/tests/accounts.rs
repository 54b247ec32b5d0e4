use crosshair_code::accounts::{
    account_is_shown, account_precedes, is_account_id, is_config_file, persona_name,
};

#[test]
fn account_ids_are_digits() {
    assert!(is_account_id("123456789"));
    assert!(is_account_id("0"));
    assert!(is_account_id(""));
    assert!(!is_account_id("12a4"));
    assert!(!is_account_id("ac"));
    assert!(!is_account_id("12 34"));
    assert!(!is_account_id("-12"));
    assert!(!is_account_id("١٢٣"));
}

#[test]
fn config_files_end_with_cfg_or_txt() {
    assert!(is_config_file("config.cfg"));
    assert!(is_config_file("notes.txt"));
    assert!(is_config_file(".cfg"));
    assert!(!is_config_file("config.cfg.bak"));
    assert!(!is_config_file("cfg"));
    assert!(!is_config_file("config.CFG"));
    assert!(!is_config_file(""));
    assert!(!is_config_file("txt"));
}

#[test]
fn persona_name_stands_between_the_first_and_last_quote() {
    assert_eq!(persona_name("PersonaName \"Alice\""), Some(String::from("Alice")));
    assert_eq!(
        persona_name("\t\t\"PersonaName\"\t\t\"Alice\"\n"),
        Some(String::from("PersonaName\"\t\t\"Alice"))
    );
    assert_eq!(persona_name("x \"a\" PersonaName \"b\" y"), Some(String::from("a\" PersonaName \"b")));
}

#[test]
fn persona_name_comes_from_the_first_line_that_gives_one() {
    let content = "\"UserLocalConfigStore\"\n{\n\tPersonaName\n\tPersonaName \"\"\n\
                   \t\"PersonaName\"\n\tPersonaName \"Bob\"\r\n\tPersonaName \"Carol\"\n}";
    assert_eq!(persona_name(content), Some(String::from("Bob")));
}

#[test]
fn persona_name_is_none_where_no_line_gives_one() {
    assert_eq!(persona_name(""), None);
    assert_eq!(persona_name("\n\n"), None);
    assert_eq!(persona_name("Name \"Alice\""), None);
    assert_eq!(persona_name("PersonaName Alice"), None);
    assert_eq!(persona_name("PersonaName \"Alice"), None);
    assert_eq!(persona_name("PersonaName \"\""), None);
    assert_eq!(persona_name("\"PersonaName\""), None);
    assert_eq!(persona_name("Persona\nName \"Alice\""), None);
}

#[test]
fn accounts_with_a_config_come_first() {
    assert!(account_precedes(true, "9", false, "1"));
    assert!(!account_precedes(false, "1", true, "9"));
}

#[test]
fn accounts_are_ordered_by_id_as_text() {
    assert!(account_precedes(true, "100", true, "20"));
    assert!(!account_precedes(true, "20", true, "100"));
    assert!(account_precedes(false, "12", false, "123"));
    assert!(!account_precedes(false, "123", false, "12"));
    assert!(!account_precedes(true, "42", true, "42"));
    assert!(account_precedes(true, "", true, "0"));
    assert!(!account_precedes(true, "", true, ""));
    assert!(account_precedes(true, "Z", true, "a"));
    assert!(account_precedes(true, "z", true, "é"));
}

#[test]
fn account_order_agrees_with_text_order() {
    let ids = ["", "0", "1", "10", "100", "11", "2", "20", "9", "99", "a", "é"];
    for a in ids {
        for b in ids {
            assert_eq!(account_precedes(true, a, true, b), a < b);
        }
    }
}

#[test]
fn accounts_are_shown_where_the_filter_stands_in_id_or_name() {
    assert!(account_is_shown(true, "12345", Some("alice"), "", false));
    assert!(account_is_shown(false, "12345", None, "", false));
    assert!(account_is_shown(true, "12345", Some("alice"), "234", false));
    assert!(account_is_shown(true, "12345", Some("alice"), "lic", false));
    assert!(account_is_shown(true, "12345", Some("alice"), "12345", false));
    assert!(!account_is_shown(true, "12345", Some("alice"), "bob", false));
    assert!(!account_is_shown(true, "12345", None, "lic", false));
    assert!(!account_is_shown(true, "12345", Some("alice"), "123456", false));
    assert!(!account_is_shown(true, "12345", Some("Alice"), "alice", false));
}

#[test]
fn accounts_without_a_config_can_be_left_out() {
    assert!(!account_is_shown(false, "12345", Some("alice"), "", true));
    assert!(!account_is_shown(false, "12345", Some("alice"), "123", true));
    assert!(account_is_shown(true, "12345", Some("alice"), "123", true));
    assert!(!account_is_shown(true, "12345", Some("alice"), "bob", true));
}
