use std::collections::HashMap;

use scrimbot::launch::{
    anonymize_identity, basic_credentials, basic_header, format_decimal, identity_list, parse_i64, plan_match, spectator_address,
    team_label, team_name_commands, webhook_authorization, LaunchError,
};
use scrimbot::profile::{
    note_of_message, set_identity, set_team_name, store_identity, ProfileError,
};
use scrimbot::session::{Lineup, Side};

#[test]
fn anonymization_rewrites_the_fixed_character() {
    assert_eq!(anonymize_identity("STEAM_0:1:12345"), "STEAM_1:1:12345");
    assert_eq!(anonymize_identity("STEAM_0:1:12345"), anonymize_identity("STEAM_0:1:12345"));
    assert_eq!(anonymize_identity("STEAM_1:0:7"), "STEAM_1:0:7");
    assert_eq!(anonymize_identity("SHORT"), "SHORT");
}

#[test]
fn spectator_port_is_one_more() {
    assert_eq!(spectator_address("1.2.3.4:27015"), "1.2.3.4:27016");
    assert_eq!(spectator_address("host.example:9"), "host.example:10");
    assert_eq!(spectator_address("host:abc"), "host:1");
    assert_eq!(spectator_address("host:-5"), "host:-4");
    assert_eq!(spectator_address("h:1:2"), "h:1");
    assert_eq!(spectator_address("9"), "91");
    assert_eq!(spectator_address(""), "1");
    assert_eq!(spectator_address("h:9223372036854775807"), "h:9223372036854775808");
}

#[test]
fn integer_parsing_follows_std() {
    for text in ["0", "+12", "-12", "9223372036854775807", "-9223372036854775808",
        "9223372036854775808", "", "-", "+", "1a", " 1", "00042"]
    {
        assert_eq!(parse_i64(text), text.parse::<i64>().ok(), "{}", text);
    }
    assert_eq!(format_decimal(-340), "-340");
    assert_eq!(format_decimal(9223372036854775808), "9223372036854775808");
}

fn ids() -> HashMap<u64, String> {
    let mut m = HashMap::new();
    m.insert(1, "STEAM_0:1:111".to_string());
    m.insert(2, "STEAM_0:0:222".to_string());
    m.insert(3, "STEAM_0:1:333".to_string());
    m.insert(4, "STEAM_0:0:444".to_string());
    m
}

#[test]
fn identity_lists_are_comma_joined() {
    assert_eq!(
        identity_list(&vec![1, 3], &ids()),
        Ok("STEAM_1:1:111,STEAM_1:1:333".to_string())
    );
    assert_eq!(identity_list(&vec![2], &ids()), Ok("STEAM_1:0:222".to_string()));
    assert_eq!(identity_list(&vec![1, 9, 8], &ids()), Err(9));
}

#[test]
fn match_plan_puts_team_b_on_its_side() {
    let lineup = Lineup {
        captain_a: 1,
        captain_b: 2,
        team_a: vec![1, 3],
        team_b: vec![2, 4],
        team_b_side: Side::Ct,
    };
    let m = plan_match(&lineup, &ids()).unwrap();
    assert_eq!(m.team_ct, "STEAM_1:0:222,STEAM_1:0:444");
    assert_eq!(m.team_t, "STEAM_1:1:111,STEAM_1:1:333");
    let lineup = Lineup { team_b_side: Side::T, ..lineup };
    let m = plan_match(&lineup, &ids()).unwrap();
    assert_eq!(m.team_t, "STEAM_1:0:222,STEAM_1:0:444");
    assert_eq!(m.team_ct, "STEAM_1:1:111,STEAM_1:1:333");
}

#[test]
fn match_plan_stops_at_missing_identity() {
    let lineup = Lineup {
        captain_a: 1,
        captain_b: 2,
        team_a: vec![1, 3],
        team_b: vec![2, 7, 8],
        team_b_side: Side::T,
    };
    assert_eq!(plan_match(&lineup, &ids()).err(), Some(LaunchError::MissingIdentity(7)));
}

#[test]
fn team_labels_and_commands() {
    let mut names = HashMap::new();
    names.insert(1u64, "Wolves".to_string());
    assert_eq!(team_label(&names, 1, "alice"), "Wolves");
    assert_eq!(team_label(&names, 2, "bob"), "Team bob");
    let (one, two) = team_name_commands(Side::Ct, "Wolves", "Team bob");
    assert_eq!(one, "mp_teamname_1 Team bob");
    assert_eq!(two, "mp_teamname_2 Wolves");
    let (one, two) = team_name_commands(Side::T, "Wolves", "Team bob");
    assert_eq!(one, "mp_teamname_1 Wolves");
    assert_eq!(two, "mp_teamname_2 Team bob");
}

#[test]
fn webhook_header_is_basic_base64() {
    assert_eq!(webhook_authorization("user", "pass"), "Basic dXNlcjpwYXNz");
    assert_eq!(webhook_authorization("a", ""), "Basic YTo=");
    assert_eq!(basic_credentials("user", "pass"), "user:pass");
    assert_eq!(basic_header("dXNlcjpwYXNz"), "Basic dXNlcjpwYXNz");
}

#[test]
fn identities_must_have_the_expected_form() {
    let mut m = HashMap::new();
    assert_eq!(set_identity(&mut m, 5, "STEAM_0:1:12345678"), Ok(()));
    assert_eq!(m.get(&5), Some(&"STEAM_0:1:12345678".to_string()));
    assert_eq!(set_identity(&mut m, 6, "STEAM_6:1:1"), Err(ProfileError::MalformedIdentity));
    assert_eq!(set_identity(&mut m, 6, "STEAM_0:2:1"), Err(ProfileError::MalformedIdentity));
    assert_eq!(set_identity(&mut m, 6, "STEAM_0:1:"), Err(ProfileError::MalformedIdentity));
    assert_eq!(set_identity(&mut m, 6, "xSTEAM_0:1:5"), Err(ProfileError::MalformedIdentity));
    assert!(m.get(&6).is_none());
    assert_eq!(store_identity(&mut m, 6, "anything", false), Err(ProfileError::MalformedIdentity));
    assert_eq!(store_identity(&mut m, 6, "anything", true), Ok(()));
    assert_eq!(m.get(&6), Some(&"anything".to_string()));
}

#[test]
fn team_names_are_limited_in_bytes() {
    let mut names = HashMap::new();
    assert_eq!(set_team_name(&mut names, 1, "Eighteen-Char-Name"), Ok(()));
    assert_eq!(set_team_name(&mut names, 2, "Nineteen-Char-Name!"), Err(ProfileError::NameTooLong(1)));
    assert_eq!(set_team_name(&mut names, 2, "\u{e9}\u{e9}\u{e9}\u{e9}\u{e9}\u{e9}\u{e9}\u{e9}\u{e9}\u{e9}"), Err(ProfileError::NameTooLong(2)));
    assert_eq!(names.len(), 1);
}

#[test]
fn notes_take_the_first_quoted_span() {
    assert_eq!(note_of_message(".join \"available at 9pm\""), Some("\"available at 9pm\"".to_string()));
    assert_eq!(
        note_of_message(".join \u{201C}late\u{201D} and \"later\""),
        Some("\u{201C}late\u{201D}".to_string())
    );
    assert_eq!(note_of_message(".join"), None);
    assert_eq!(note_of_message(".join \"open\nclosed\""), None);
    let long = format!(".join \"{}\"", "x".repeat(80));
    let note = note_of_message(&long).unwrap();
    assert_eq!(note.chars().count(), 50);
    assert!(note.starts_with("\"xxx"));
}
