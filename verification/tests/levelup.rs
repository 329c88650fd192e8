use std::collections::HashMap;

use okina_bot_kotoba_web::commands::env_variables::{get_rank_commands, TOP_RANK_PHRASE};
use okina_bot_kotoba_web::commands::levelup::{
    decks_are_keyable, get_current_next_rank, get_next_command, get_quiz_key, get_quiz_predicates, levelup_reply,
    quiz_report_is_readable,
};
use okina_bot_kotoba_web::json::{parse_json_text, JsonValue};

fn json(text: &str) -> JsonValue {
    parse_json_text(text).unwrap()
}

#[test]
fn current_rank_is_highest_held_rank_role() {
    let roles = [0u64, 10, 20, 30];
    assert_eq!(get_current_next_rank(&[20, 99, 10], &roles), (20, 30));
    assert_eq!(get_current_next_rank(&[10], &roles), (10, 20));
    assert_eq!(get_current_next_rank(&[30], &roles), (30, 30));
    assert_eq!(get_current_next_rank(&[], &roles), (0, 10));
    assert_eq!(get_current_next_rank(&[99], &roles), (0, 10));
}

#[test]
fn next_command_is_text_between_backticks() {
    let mut commands = HashMap::new();
    commands.insert(1u64, "Nível 1 (A):\n`k!quiz n5 nd`".to_string());
    commands.insert(2u64, "no backticks here".to_string());
    commands.insert(3u64, "`a` and `b`".to_string());
    commands.insert(4u64, "`first line\nsecond` `x`".to_string());
    commands.insert(5u64, "one ` only".to_string());
    commands.insert(6u64, "``".to_string());
    assert_eq!(get_next_command(1, &commands), "k!quiz n5 nd");
    assert_eq!(get_next_command(2, &commands), "no backticks here");
    assert_eq!(get_next_command(3, &commands), "a` and `b");
    assert_eq!(get_next_command(4, &commands), " `x");
    assert_eq!(get_next_command(5, &commands), "one ` only");
    assert_eq!(get_next_command(6, &commands), "");
}

#[test]
fn levelup_shows_the_quiz_of_the_next_rank() {
    let names = vec!["A".to_string(), "B".to_string()];
    let quiz_commands = vec!["ca".to_string(), "cb".to_string()];
    let roles = vec![0u64, 11, 22];
    let rank_commands = get_rank_commands(&names, &quiz_commands, &roles);
    let intro = "O próximo comando para subir de nível é:\n`";
    assert_eq!(levelup_reply(None, &roles, &rank_commands), Some(format!("{}ca`", intro)));
    assert_eq!(levelup_reply(Some(&[5]), &roles, &rank_commands), Some(format!("{}ca`", intro)));
    assert_eq!(levelup_reply(Some(&[11]), &roles, &rank_commands), Some(format!("{}cb`", intro)));
    assert_eq!(
        levelup_reply(Some(&[11, 22]), &roles, &rank_commands),
        Some(format!("{}{}`", intro, TOP_RANK_PHRASE))
    );
}

#[test]
fn levelup_without_answer() {
    let mut rank_commands = HashMap::new();
    rank_commands.insert(0u64, "`c`".to_string());
    assert_eq!(levelup_reply(None, &[], &rank_commands), None);
    assert_eq!(levelup_reply(Some(&[]), &[0], &rank_commands), None);
    assert_eq!(levelup_reply(Some(&[7]), &[0, 7], &rank_commands), None);
    assert_eq!(levelup_reply(None, &[0], &rank_commands), Some("O próximo comando para subir de nível é:\n`c`".to_string()));
}

#[test]
fn quiz_key_of_single_deck_and_ranges() {
    let plain = json(r#"[{"uniqueId": "n5"}]"#);
    assert_eq!(get_quiz_key(&plain), "n5");
    let ranged = json(r#"[{"uniqueId": "x", "startIndex": 1, "endIndex": 250}, {"uniqueId": "y", "startIndex": 3}]"#);
    assert_eq!(get_quiz_key(&ranged), "x(1-250)+y");
    let empty_first = json(r#"[{"uniqueId": ""}, {"uniqueId": "b"}]"#);
    assert_eq!(get_quiz_key(&empty_first), "b");
    let none = json("[]");
    assert_eq!(get_quiz_key(&none), "");
}

#[test]
fn decks_keyable_needs_ids() {
    assert!(decks_are_keyable(&json(r#"[{"uniqueId": "a"}]"#)));
    assert!(decks_are_keyable(&json("[]")));
    assert!(!decks_are_keyable(&json(r#"[{"uniqueId": 3}]"#)));
    assert!(!decks_are_keyable(&json(r#"{"uniqueId": "a"}"#)));
}

fn report(score: u64, questions: usize, limit: u64, participants: usize, extra_deck: &str) -> JsonValue {
    let qs: Vec<String> = (0..questions).map(|i| format!("{}", i)).collect();
    let ps: Vec<String> = (0..participants).map(|i| format!("{}", i)).collect();
    json(&format!(
        r#"{{"scores": [{{"score": {}}}], "participants": [{}], "questions": [{}],
            "settings": {{"scoreLimit": {}, "answerTimeLimitInMs": 16000, "fontSize": 60,
                          "font": "Noto Sans CJK", "shuffle": true}},
            "isLoaded": false, "decks": [{{"uniqueId": "n5", "mc": false{}}}]}}"#,
        score,
        ps.join(","),
        qs.join(","),
        limit,
        extra_deck
    ))
}

#[test]
fn quiz_predicates_of_a_passed_quiz_are_all_false() {
    let settings = (12u32, 16001u32, 60u32, "any".to_string(), 5u64, 1u8);
    let r = report(12, 13, 12, 1, "");
    assert!(quiz_report_is_readable(&r));
    assert_eq!(get_quiz_predicates(&r, &settings), (false, false, false, false, false, false));
}

#[test]
fn quiz_predicates_flag_each_failure() {
    let settings = (12u32, 16001u32, 60u32, "any".to_string(), 5u64, 1u8);
    let ranged = report(12, 12, 12, 1, r#", "startIndex": 0, "endIndex": 5"#);
    assert_eq!(get_quiz_predicates(&ranged, &settings).0, true);
    let zero_range = report(12, 12, 12, 1, r#", "startIndex": 0, "endIndex": 0"#);
    assert_eq!(get_quiz_predicates(&zero_range, &settings).0, false);
    let low_score = report(11, 12, 12, 1, "");
    assert_eq!(get_quiz_predicates(&low_score, &settings).1, true);
    let low_limit = report(10, 10, 10, 1, "");
    assert_eq!(get_quiz_predicates(&low_limit, &settings).1, true);
    let two_players = report(12, 12, 12, 2, "");
    assert_eq!(get_quiz_predicates(&two_players, &settings).2, true);
    let slow = (12u32, 15999u32, 60u32, "any".to_string(), 5u64, 1u8);
    assert_eq!(get_quiz_predicates(&report(12, 12, 12, 1, ""), &slow).3, true);
    let font = (12u32, 16001u32, 60u32, "AC Gyousho".to_string(), 5u64, 1u8);
    assert_eq!(get_quiz_predicates(&report(12, 12, 12, 1, ""), &font).4, true);
    let right_font = (12u32, 16001u32, 60u32, "Noto Sans CJK".to_string(), 5u64, 1u8);
    assert_eq!(get_quiz_predicates(&report(12, 12, 12, 1, ""), &right_font).4, false);
    let wrong_size = (12u32, 16001u32, 40u32, "Noto Sans CJK".to_string(), 5u64, 1u8);
    assert_eq!(get_quiz_predicates(&report(12, 12, 12, 1, ""), &wrong_size).4, true);
    let many_misses = report(12, 14, 12, 1, "");
    assert_eq!(get_quiz_predicates(&many_misses, &settings).5, true);
    let too_few_questions = report(12, 11, 12, 1, "");
    assert_eq!(get_quiz_predicates(&too_few_questions, &settings).5, true);
}

#[test]
fn quiz_report_readability() {
    let r = report(12, 12, 12, 1, "");
    assert!(quiz_report_is_readable(&r));
    let bad_start = report(12, 12, 12, 1, r#", "startIndex": null"#);
    assert!(!quiz_report_is_readable(&bad_start));
    assert!(!quiz_report_is_readable(&json(r#"{"scores": []}"#)));
    let huge_limit = report(12, 12, 18446744073709551615, 1, "");
    assert!(quiz_report_is_readable(&huge_limit));
    assert_eq!(get_quiz_predicates(&huge_limit, &(1u32, 0u32, 0u32, "any".to_string(), 0u64, 0u8)).5, true);
}
